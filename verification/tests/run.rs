use piarao::interpreter::{Output, RunError};
use piarao::lang::LangState;
use piarao::semantics::RunErrorKind;

fn texts(st: &LangState) -> String {
    let mut s = String::new();
    for o in st.interp.output().iter() {
        match o {
            Output::Text(t) => s.push_str(t),
            Output::Object(_) => s.push_str("<object>"),
        }
    }
    s
}

fn run_with(src: &str, inputs: Vec<String>) -> (Result<(), RunError>, String) {
    let src = String::from(src);
    let mut st = LangState::new(&src).expect("program should read");
    st.register_builtins();
    st.interp.set_inputs(inputs);
    let r = st.interpret();
    let out = texts(&st);
    (r, out)
}

fn run(src: &str) -> (Result<(), RunError>, String) {
    run_with(src, Vec::new())
}

#[test]
fn prints_a_number() {
    let (r, out) = run("println 42;\n\n");
    assert!(r.is_ok());
    assert_eq!(out, "42\n");
}

#[test]
fn fibonacci_of_ten() {
    let (r, out) = run("let fib n = if n <= 1 then n else fib(n - 1) + fib(n - 2);\nlet result = fib 10;\nprintln result;\n\n");
    assert!(r.is_ok(), "{:?}", r);
    assert_eq!(out, "55\n");
}

#[test]
fn exact_fractions() {
    let (r, out) = run("println(1 / 3 + 1 / 6);\nprintln(1 / 3);\nprintln(-7 / 2);\n\n");
    assert!(r.is_ok(), "{:?}", r);
    assert_eq!(out, "0.5\n0.3333333333\n-3.5\n");
}

fn kind_of(r: &Result<(), RunError>) -> RunErrorKind {
    match r {
        Ok(()) => panic!("the run should have stopped"),
        Err(e) => e.kind,
    }
}

#[test]
fn shadowing_inside_a_block_does_not_escape() {
    let (r, out) = run("let x = 3;\nlet x = 4;\n{\n    let x = 6;\n    println x;\n};\nprintln x;\n\n");
    assert!(r.is_ok(), "{:?}", r);
    assert_eq!(out, "6\n4\n");
}

#[test]
fn both_function_forms_define_the_same_function() {
    let (r, out) = run("let add = fn a b -> a + b;\nlet add2 a b = a + b;\nprintln(add(2, 3));\nprintln(add2(2, 3));\n\n");
    assert!(r.is_ok(), "{:?}", r);
    assert_eq!(out, "5\n5\n");
}

#[test]
fn calls_with_and_without_parentheses() {
    let (r, out) = run("let square x = x * x;\nlet a = square 5;\nlet b = square(5);\nprintln a;\nprintln b;\n\n");
    assert!(r.is_ok(), "{:?}", r);
    assert_eq!(out, "25\n25\n");
}

#[test]
fn lambda_called_directly() {
    let (r, out) = run("let sub_result = (fn a b -> a - b)(3, 1);\nprintln sub_result;\n\n");
    assert!(r.is_ok(), "{:?}", r);
    assert_eq!(out, "2\n");
}

#[test]
fn if_is_an_expression() {
    let (r, out) = run("let max a b = if a > b then a else b;\nlet result = max 4 6;\nprintln result;\n\n");
    assert!(r.is_ok(), "{:?}", r);
    assert_eq!(out, "6\n");
}

#[test]
fn if_without_else_gives_null() {
    let (r, out) = run("let x = if 1 > 2 then 5;\nprintln x;\n\n");
    assert!(r.is_ok(), "{:?}", r);
    assert_eq!(out, "Null\n");
}

#[test]
fn block_gives_its_last_value() {
    let (r, out) = run("let result = {\n    let x = 1;\n    let y = 2;\n    x + y\n};\nprintln result;\n\n");
    assert!(r.is_ok(), "{:?}", r);
    assert_eq!(out, "3\n");
}

#[test]
fn fibonacci_by_lambda() {
    let (r, out) = run("let fib = fn n -> if n <= 1 then n else fib(n - 1) + fib(n - 2);\nprintln(fib 12);\n\n");
    assert!(r.is_ok(), "{:?}", r);
    assert_eq!(out, "144\n");
}

#[test]
fn arithmetic_operators() {
    let (r, out) = run("println(7 + 5);\nprintln(7 - 5);\nprintln(7 * 5);\nprintln(7 / 5);\nprintln(7 % 5);\nprintln(2 ^ 10);\nprintln(2 ^ -2);\n\n");
    assert!(r.is_ok(), "{:?}", r);
    assert_eq!(out, "12\n2\n35\n1.4\n2\n1024\n0.25\n");
}

#[test]
fn comparisons_and_logic() {
    let (r, out) = run("println(1 < 2);\nprintln(2 <= 1);\nprintln(3 == 3);\nprintln(3 != 3);\nprintln(1 > 2 or 2 > 1);\nprintln(1 < 2 and 2 < 1);\n\n");
    assert!(r.is_ok(), "{:?}", r);
    assert_eq!(out, "true\nfalse\ntrue\nfalse\ntrue\nfalse\n");
}

#[test]
fn unary_operators() {
    let (r, out) = run("let x = 5;\nprintln(-(x));\nprintln(-3 + 1);\nprintln(!(1 > 2));\n\n");
    assert!(r.is_ok(), "{:?}", r);
    assert_eq!(out, "-5\n-2\ntrue\n");
}

#[test]
fn decimal_literal() {
    let (r, out) = run("println(1.25 + 0.5);\n\n");
    assert!(r.is_ok(), "{:?}", r);
    assert_eq!(out, "1.75\n");
}

#[test]
fn strings_and_type_info() {
    let (r, out) = run("let name = \"PiaRao\";\nprint name;\nprintln \" \" 1;\nprintln(type_info(name));\nprintln(to_string(2));\n\n");
    assert!(r.is_ok(), "{:?}", r);
    assert_eq!(out, "PiaRao 1\nObject\n2\n");
}

#[test]
fn input_reads_a_line() {
    let (r, out) = run_with("let s = input(\"name? \");\nprint s;\n\n", vec!["Ada\n".to_string()]);
    assert!(r.is_ok(), "{:?}", r);
    assert_eq!(out, "name? Ada\n");
}

#[test]
fn input_without_a_line_asks_for_one() {
    let (r, out) = run("println 1;\nlet s = input();\n\n");
    assert_eq!(kind_of(&r), RunErrorKind::NeedInput);
    assert_eq!(out, "1\n");
}

#[test]
fn undefined_name_at_top_level() {
    let (r, _) = run("println y;\n\n");
    let e = r.unwrap_err();
    assert_eq!(e.kind, RunErrorKind::LookupUnderflow);
    assert_eq!(e.detail, "y");
}

#[test]
fn undefined_name_inside_a_function() {
    let (r, _) = run("let f x = y;\nprintln(f 1);\n\n");
    let e = r.unwrap_err();
    assert_eq!(e.kind, RunErrorKind::UndefinedVariable);
    assert_eq!(e.detail, "y");
}

#[test]
fn calling_a_number() {
    let (r, _) = run("let f = 3;\nprintln(f(1));\n\n");
    assert_eq!(kind_of(&r), RunErrorKind::UndefinedFunction);
}

#[test]
fn condition_must_be_boolean() {
    let (r, _) = run("let x = if 1 then 2 else 3;\n\n");
    let e = r.unwrap_err();
    assert_eq!(e.kind, RunErrorKind::IfCondition);
    assert_eq!(e.detail, "Number");
}

#[test]
fn adding_a_boolean() {
    let (r, _) = run("let x = (1 < 2) + 1;\n\n");
    assert_eq!(kind_of(&r), RunErrorKind::BinaryTypeError);
}

#[test]
fn division_by_zero() {
    let (r, _) = run("let x = 1 / 0;\n\n");
    assert_eq!(kind_of(&r), RunErrorKind::DivisionByZero);
}

#[test]
fn exponent_too_large() {
    let (r, _) = run("let x = 2 ^ 3000000000;\n\n");
    let e = r.unwrap_err();
    assert_eq!(e.kind, RunErrorKind::ExponentTooLarge);
    assert_eq!(e.detail, "3000000000");
}

#[test]
fn exponent_out_of_range() {
    let (r, _) = run("let x = 2 ^ -3000000000;\n\n");
    assert_eq!(kind_of(&r), RunErrorKind::ExponentOutOfRange);
}


#[test]
fn type_info_needs_one_argument() {
    let (r, _) = run("let x = type_info(1, 2);\n\n");
    let e = r.unwrap_err();
    assert_eq!(e.kind, RunErrorKind::BuiltinArity);
    assert_eq!(e.detail, "type_info");
}

#[test]
fn deep_recursion_is_cut_off() {
    let src = String::from("let f n = f(n + 1);\nprintln(f 0);\n\n");
    let mut st = LangState::new(&src).unwrap();
    st.register_builtins();
    st.interp.set_max_depth(50);
    let r = st.interpret();
    assert_eq!(kind_of(&r), RunErrorKind::CallDepthExceeded);
}

#[test]
fn a_call_leaves_the_callers_bindings() {
    let (r, out) = run("let x = 1;\nlet f a = { let x = a; x };\nprintln(f 5);\nprintln x;\n\n");
    assert!(r.is_ok(), "{:?}", r);
    assert_eq!(out, "5\n1\n");
}

#[test]
fn let_then_lookup_gives_the_value() {
    let (r, out) = run("let v = 2 * 21;\nprintln v;\n\n");
    assert!(r.is_ok(), "{:?}", r);
    assert_eq!(out, "42\n");
}

#[test]
fn output_written_before_a_stop_stays() {
    let (r, out) = run("println \"a\";\nprintln \"b\";\nlet x = 1 / 0;\nprintln \"c\";\n\n");
    assert_eq!(kind_of(&r), RunErrorKind::DivisionByZero);
    assert_eq!(out, "a\nb\n");
}

#[test]
fn reading_a_program_reports_lexer_and_parser_errors() {
    let src = String::from("let x = $;\n\n");
    assert!(matches!(LangState::new(&src), Err(piarao::lang::LangError::Lex(_))));
    let src = String::from("let = 1;\n\n");
    assert!(matches!(LangState::new(&src), Err(piarao::lang::LangError::Parse(_))));
}

#[test]
fn main_function_prints_its_name() {
    let (r, out) = run("__pie_rao_main__();\n\n");
    assert!(r.is_ok(), "{:?}", r);
    assert_eq!(out, "<main>\n");
}

#[test]
fn a_run_with_the_missing_line_writes_the_same_start() {
    let src = "println \"start\";\nlet s = input(\"name? \");\nprint s;\n\n";
    let (r1, out1) = run(src);
    assert_eq!(kind_of(&r1), RunErrorKind::NeedInput);
    assert_eq!(out1, "start\nname? ");
    let (r2, out2) = run_with(src, vec!["Ada\n".to_string()]);
    assert!(r2.is_ok(), "{:?}", r2);
    assert!(out2.starts_with(&out1));
    assert_eq!(out2, "start\nname? Ada\n");
}

#[test]
fn a_higher_depth_limit_gives_the_same_run() {
    let src = String::from("let fib n = if n <= 1 then n else fib(n - 1) + fib(n - 2);\nprintln(fib 8);\n\n");
    let mut low = LangState::new(&src).unwrap();
    low.register_builtins();
    low.interp.set_max_depth(20);
    assert!(low.interpret().is_ok());
    let mut high = LangState::new(&src).unwrap();
    high.register_builtins();
    high.interp.set_max_depth(5000);
    assert!(high.interpret().is_ok());
    assert_eq!(texts(&low), "21\n");
    assert_eq!(texts(&high), texts(&low));
}

#[test]
fn remainder_keeps_the_sign_of_the_dividend() {
    let (r, out) = run("println(7 % 3);\nprintln(-7 % 3);\nprintln(7 / 2 % 1);\n\n");
    assert!(r.is_ok(), "{:?}", r);
    assert_eq!(out, "1\n-1\n0.5\n");
}

#[test]
fn remainder_by_zero() {
    let (r, _) = run("let x = 1 % 0;\n\n");
    assert_eq!(kind_of(&r), RunErrorKind::DivisionByZero);
}

#[test]
fn to_string_gives_the_text_of_a_value() {
    let (r, out) = run("println(to_string(42));\nprintln(to_string(1 / 4));\nprintln(to_string(1 < 2));\nprintln(to_string(\"s\"));\nprintln(to_string(fn x -> x));\n\n");
    assert!(r.is_ok(), "{:?}", r);
    assert_eq!(out, "42\n0.25\ntrue\ns\nObject\n");
}

#[test]
fn integer_arithmetic_law_on_values() {
    let (r, out) = run("println(6 + -2);\nprintln(6 - 9);\nprintln(-3 * 4);\nprintln(3 <= 3);\nprintln(2 >= 3);\n\n");
    assert!(r.is_ok(), "{:?}", r);
    assert_eq!(out, "4\n-3\n-12\ntrue\nfalse\n");
}

#[test]
fn native_call_takes_arguments_in_order() {
    let (r, out) = run("print(1, 2, 3);\nprintln();\n\n");
    assert!(r.is_ok(), "{:?}", r);
    assert_eq!(out, "123\n");
}
