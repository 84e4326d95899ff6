use piarao::ast::{Expr, Node, Program, Stmt};
use piarao::interpreter::{Interpreter, Output, RunError};
use piarao::semantics::RunErrorKind;

fn node(stmt: Stmt) -> Node {
    Node { stmt, l: 1, c: 1 }
}

fn run_tree(body: Vec<Node>) -> (Result<(), RunError>, Interpreter) {
    let mut interp = Interpreter::new(Program::new(body));
    let r = interp.interpret();
    (r, interp)
}

fn kind(body: Vec<Node>) -> RunErrorKind {
    run_tree(body).0.unwrap_err().kind
}

fn num(n: i64) -> Box<Expr> {
    Box::new(Expr::Number(n))
}

fn ident(s: &str) -> Expr {
    Expr::Ident(s.to_string())
}

#[test]
fn return_at_top_level() {
    assert_eq!(kind(vec![node(Stmt::Return(num(1)))]), RunErrorKind::CannotReturnFromMain);
}

#[test]
fn let_of_a_number() {
    let lhs = Box::new(Expr::Number(1));
    let rhs = Box::new(node(Stmt::NotPopValueExpr(num(2))));
    assert_eq!(kind(vec![node(Stmt::Let(lhs, rhs))]), RunErrorKind::LetTarget);
}

#[test]
fn let_with_an_empty_parameter_list() {
    let lhs = Box::new(Expr::IdentList(vec![]));
    let rhs = Box::new(node(Stmt::NotPopValueExpr(num(2))));
    assert_eq!(kind(vec![node(Stmt::Let(lhs, rhs))]), RunErrorKind::EmptyParamList);
}

#[test]
fn parameter_list_as_an_expression() {
    let e = Box::new(Expr::IdentList(vec!["a".to_string()]));
    assert_eq!(kind(vec![node(Stmt::Expr(e))]), RunErrorKind::Unreachable);
}

#[test]
fn let_of_nothing() {
    let lhs = Box::new(ident("x"));
    let rhs = Box::new(node(Stmt::NotPopValueExpr(Box::new(Expr::Null))));
    assert_eq!(kind(vec![node(Stmt::Let(lhs, rhs))]), RunErrorKind::StackUnderflow);
}

#[test]
fn calling_nothing() {
    let e = Box::new(Expr::DynCall(Box::new(Expr::Null), vec![]));
    assert_eq!(kind(vec![node(Stmt::Expr(e))]), RunErrorKind::NoValue);
}

#[test]
fn calling_a_boolean() {
    let cond = Box::new(Expr::BinaryOp(num(1), "<".to_string(), num(2)));
    let e = Box::new(Expr::DynCall(cond, vec![]));
    assert_eq!(kind(vec![node(Stmt::Expr(e))]), RunErrorKind::NotCallable);
}

#[test]
fn unknown_binary_operator() {
    let e = Box::new(Expr::BinaryOp(num(1), "?".to_string(), num(2)));
    let err = run_tree(vec![node(Stmt::Expr(e))]).0.unwrap_err();
    assert_eq!(err.kind, RunErrorKind::UnknownOperator);
    assert_eq!(err.detail, "?");
}

#[test]
fn unknown_unary_operator() {
    let e = Box::new(Expr::UnaryOp("!".to_string(), num(1)));
    assert_eq!(kind(vec![node(Stmt::Expr(e))]), RunErrorKind::UnknownUnaryOperator);
}

#[test]
fn negating_a_string() {
    let e = Box::new(Expr::UnaryOp("-".to_string(), Box::new(Expr::String("a".to_string()))));
    assert_eq!(kind(vec![node(Stmt::Expr(e))]), RunErrorKind::UnaryTypeError);
}

#[test]
fn unreadable_decimal_literal() {
    let e = Box::new(Expr::Float("1.x".to_string()));
    assert_eq!(kind(vec![node(Stmt::Expr(e))]), RunErrorKind::InvalidFloat);
}

#[test]
fn assignment_binds_in_the_current_frame() {
    let a = node(Stmt::Expr(Box::new(Expr::Assign("x".to_string(), num(7)))));
    let (r, interp) = run_tree(vec![a]);
    assert!(r.is_ok());
    let v = interp.find_var("x").unwrap().unwrap();
    assert_eq!(v.type_info(), "Number");
    match interp.var_in_any_frame("x") {
        Some(v) => match piarao::interpreter::display_value(&v) {
            Output::Text(t) => assert_eq!(t, "7"),
            Output::Object(_) => panic!("a number is written as text"),
        },
        None => panic!("x is bound"),
    }
}

#[test]
fn return_inside_a_function() {
    let def = node(Stmt::Let(
        Box::new(Expr::IdentList(vec!["f".to_string(), "a".to_string()])),
        Box::new(node(Stmt::Return(Box::new(Expr::BinaryOp(
            Box::new(ident("a")),
            "+".to_string(),
            num(1),
        ))))),
    ));
    let call = node(Stmt::NotPopValueExpr(Box::new(Expr::Call("f".to_string(), vec![Expr::Number(4)]))));
    let (r, interp) = run_tree(vec![def, call]);
    assert!(r.is_ok());
    match interp.stack_top() {
        Some(v) => match piarao::interpreter::display_value(&v) {
            Output::Text(t) => assert_eq!(t, "5"),
            Output::Object(_) => panic!("a number is written as text"),
        },
        None => panic!("the call leaves its value"),
    }
}

#[test]
fn assignment_inside_a_block_is_undone() {
    let bind = node(Stmt::Let(
        Box::new(ident("x")),
        Box::new(node(Stmt::NotPopValueExpr(num(1)))),
    ));
    let assign = node(Stmt::Expr(Box::new(Expr::Assign("x".to_string(), num(2)))));
    let block = node(Stmt::Expr(Box::new(Expr::Block(vec![assign]))));
    let (r, interp) = run_tree(vec![bind, block]);
    assert!(r.is_ok());
    match piarao::interpreter::display_value(&interp.find_var("x").unwrap().unwrap()) {
        Output::Text(t) => assert_eq!(t, "1"),
        Output::Object(_) => panic!("a number is written as text"),
    }
}
