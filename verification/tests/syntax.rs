use piarao::ast::{Expr, Node, Stmt};
use piarao::lexer::{Lexer, TokenType};
use piarao::parser::Parser;

#[test]
fn lexes_a_let_statement() {
    let src = String::from("let x = 10;\n\n");
    let mut lexer = Lexer::new(&src);
    let tokens = lexer.tokenize().unwrap();
    let kinds: Vec<TokenType> = tokens.iter().map(|t| t.t).collect();
    assert_eq!(
        kinds,
        vec![
            TokenType::KWLet,
            TokenType::Ident,
            TokenType::Assign,
            TokenType::Digit,
            TokenType::SemiColon,
            TokenType::EOF
        ]
    );
    let cols: Vec<usize> = tokens.iter().map(|t| t.c).collect();
    assert_eq!(cols, vec![1, 4, 6, 8, 11, 1]);
    assert_eq!(tokens[5].l, 2);
}

#[test]
fn parses_a_let_statement() {
    let src = String::from("let x = 10;\n\n");
    let tokens = Lexer::new(&src).tokenize().unwrap();
    let prog = Parser::new(&tokens).parse().unwrap();
    assert_eq!(
        prog.body,
        vec![Node {
            stmt: Stmt::Let(
                Box::new(Expr::Ident("x".to_string())),
                Box::new(Node {
                    stmt: Stmt::NotPopValueExpr(Box::new(Expr::Number(10))),
                    l: 1,
                    c: 1
                })
            ),
            l: 1,
            c: 1
        }]
    );
}

fn parse_src(src: &str) -> Result<Vec<Node>, piarao::parser::ParseError> {
    let src = String::from(src);
    let tokens = Lexer::new(&src).tokenize().unwrap();
    Parser::new(&tokens).parse().map(|p| p.body)
}

#[test]
fn lexes_operators_and_keywords() {
    let src = String::from("if a >= 1 then !b else fn x -> x != 2 and y or z;\n\n");
    let tokens = Lexer::new(&src).tokenize().unwrap();
    let kinds: Vec<TokenType> = tokens.iter().map(|t| t.t).collect();
    assert_eq!(
        kinds,
        vec![
            TokenType::KWIf,
            TokenType::Ident,
            TokenType::OpGe,
            TokenType::Digit,
            TokenType::KWThen,
            TokenType::OpNot,
            TokenType::Ident,
            TokenType::KWElse,
            TokenType::KWFn,
            TokenType::Ident,
            TokenType::Arrow,
            TokenType::Ident,
            TokenType::OpNe,
            TokenType::Digit,
            TokenType::KWAnd,
            TokenType::Ident,
            TokenType::KWOr,
            TokenType::Ident,
            TokenType::SemiColon,
            TokenType::EOF
        ]
    );
}

#[test]
fn lexes_a_string_literal() {
    let src = String::from("\"Pia Rao\";\n\n");
    let tokens = Lexer::new(&src).tokenize().unwrap();
    assert_eq!(tokens[0].t, TokenType::StringLiteral);
    assert_eq!(tokens[0].v, "Pia Rao");
}

#[test]
fn minus_before_a_digit_at_the_start_is_unary() {
    let src = String::from("-3 - 1;\n\n");
    let tokens = Lexer::new(&src).tokenize().unwrap();
    assert_eq!(tokens[0].t, TokenType::OpUnarySub);
    assert_eq!(tokens[2].t, TokenType::OpSub);
}

#[test]
fn unexpected_character() {
    let src = String::from("let x = 1 # 2;\n\n");
    let e = Lexer::new(&src).tokenize().unwrap_err();
    assert_eq!(e, piarao::lexer::LexError::UnexpectedChar { ch: b'#', l: 1, c: 11 });
}

#[test]
fn text_ending_inside_a_token() {
    let src = String::from("let x = 12");
    let e = Lexer::new(&src).tokenize().unwrap_err();
    assert_eq!(e, piarao::lexer::LexError::UnexpectedEnd);
}

#[test]
fn call_with_and_without_parentheses_parse_alike() {
    let a = parse_src("f(x);\n\n").unwrap();
    let b = parse_src("f x;\n\n").unwrap();
    assert_eq!(a, b);
    assert_eq!(
        a[0].stmt,
        Stmt::Expr(Box::new(Expr::Call("f".to_string(), vec![Expr::Ident("x".to_string())])))
    );
}

#[test]
fn function_definition_parses_to_a_parameter_list() {
    let body = parse_src("let add a b = a + b;\n\n").unwrap();
    match &body[0].stmt {
        Stmt::Let(lhs, _) => assert_eq!(
            **lhs,
            Expr::IdentList(vec!["add".to_string(), "a".to_string(), "b".to_string()])
        ),
        other => panic!("not a let: {:?}", other),
    }
}

#[test]
fn let_without_a_name() {
    let e = parse_src("let 1 = 2;\n\n").unwrap_err();
    assert_eq!(e, piarao::parser::ParseError::ExpectedIdentAfterLet { l: 1, c: 1 });
}

#[test]
fn number_too_large() {
    let e = parse_src("let x = 99999999999999999999;\n\n").unwrap_err();
    assert!(matches!(e, piarao::parser::ParseError::InvalidNumber { .. }));
}

#[test]
fn program_without_a_final_end_marker() {
    let e = parse_src("let x = 1;\n").unwrap_err();
    assert_eq!(e, piarao::parser::ParseError::UnexpectedEnd);
}

#[test]
fn negative_number_literal() {
    let a = parse_src("-5;\n\n").unwrap();
    assert_eq!(a[0].stmt, Stmt::Expr(Box::new(Expr::Number(-5))));
    let b = parse_src("-9223372036854775808;\n\n").unwrap();
    assert_eq!(b[0].stmt, Stmt::Expr(Box::new(Expr::Number(i64::MIN))));
    let c = parse_src("-(5);\n\n").unwrap();
    assert_eq!(c[0].stmt, Stmt::Expr(Box::new(Expr::UnaryOp("-".to_string(), Box::new(Expr::Number(5))))));
}
