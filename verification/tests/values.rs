use piarao::ast::Program;
use piarao::builtins::metadata::get_builtin_metadata;
use piarao::builtins::string::{cat, sub, try_cat, try_sub};
use piarao::builtins::{builtin_functions, Builtin};
use piarao::interpreter::{
    display_value, ratio_to_string, Interpreter, ModuleFuncArgs, Output, Value, VALUE_BOOL, VALUE_NULL,
    VALUE_NUMBER, VALUE_OBJECT,
};
use piarao::lang::LangState;
use piarao::number::Ratio;
use piarao::objects::{new_record, Object};
use piarao::semantics::RunErrorKind;

fn text_of(v: &Value) -> String {
    match display_value(v) {
        Output::Text(t) => t,
        Output::Object(_) => "<object>".to_string(),
    }
}

fn string(s: &str) -> Value {
    Object::new_string_value(s.to_string())
}

fn number(n: i64) -> Value {
    Value::Number(Ratio::from_int(n))
}

#[test]
fn type_names() {
    assert_eq!(number(1).type_info(), "Number");
    assert_eq!(Value::Bool(true).type_info(), "Bool");
    assert_eq!(Value::Null.type_info(), "Null");
    assert_eq!(string("a").type_info(), "Object");
    assert_eq!(number(1).type_id(), VALUE_NUMBER);
    assert_eq!(string("a").type_id(), VALUE_OBJECT);
    assert_eq!(Value::Null.type_id(), VALUE_NULL);
    assert_eq!(Value::Bool(false).type_id(), VALUE_BOOL);
}

#[test]
fn type_number_names_swap_bool_and_null() {
    assert_eq!(Value::type_to_string(VALUE_NUMBER), "Number");
    assert_eq!(Value::type_to_string(VALUE_BOOL), "Null");
    assert_eq!(Value::type_to_string(VALUE_NULL), "Bool");
    assert_eq!(Value::type_to_string(VALUE_OBJECT), "Object");
}

#[test]
fn set_replaces_only_a_value_of_the_same_type() {
    let mut v = number(1);
    assert!(v.set(number(2)).is_none());
    assert_eq!(text_of(&v), "2");
    let mut b = Value::Bool(true);
    b.set(Value::Bool(false));
    assert_eq!(text_of(&b), "false");
    let mut n = number(3);
    n.set(Value::Bool(true));
    assert_eq!(text_of(&n), "3");
}

#[test]
fn check_types_compares_pairwise() {
    let args = ModuleFuncArgs::new(vec![number(1), string("x")]);
    assert!(args.check_types(&[VALUE_NUMBER, VALUE_OBJECT]));
    assert!(!args.check_types(&[VALUE_OBJECT]));
    assert!(args.check_types(&[VALUE_NUMBER]));
    assert!(args.check_types(&[VALUE_NUMBER, VALUE_OBJECT, VALUE_NULL]));
}

#[test]
fn numbers_are_written_in_decimal() {
    assert_eq!(Interpreter::rbig_to_float_str(&Ratio::from_fraction(1, 3).unwrap(), 10), "0.3333333333");
    assert_eq!(Interpreter::rbig_to_float_str(&Ratio::from_fraction(-1, 3).unwrap(), 2), "-0.33");
    assert_eq!(Interpreter::rbig_to_float_str(&Ratio::from_fraction(22, 7).unwrap(), 4), "3.1428");
    assert_eq!(Interpreter::rbig_to_float_str(&Ratio::from_fraction(8, 2).unwrap(), 10), "4");
    assert_eq!(Interpreter::rbig_to_float_str(&Ratio::from_fraction(1, 8).unwrap(), 10), "0.125");
    assert_eq!(Interpreter::rbig_to_float_str(&Ratio::from_fraction(1, 3).unwrap(), 0), "0");
}

#[test]
fn rationals_are_written_as_fractions() {
    assert_eq!(ratio_to_string(&Ratio::from_fraction(6, 4).unwrap()), "3/2");
    assert_eq!(ratio_to_string(&Ratio::from_fraction(-6, 3).unwrap()), "-2");
    assert_eq!(ratio_to_string(&Ratio::from_int(0)), "0");
}

#[test]
fn decimal_literals_are_read_exactly() {
    let r = Interpreter::parse_float_string("3.25").unwrap();
    assert_eq!(ratio_to_string(&r), "13/4");
    let r = Interpreter::parse_float_string("0.001").unwrap();
    assert_eq!(ratio_to_string(&r), "1/1000");
    assert!(Interpreter::parse_float_string("1.").is_none());
    let r = Interpreter::parse_float_string("-1.5").unwrap();
    assert_eq!(ratio_to_string(&r), "-1/2");
    assert!(Interpreter::parse_float_string("1.1234567890123456789").is_none());
}

#[test]
fn string_sub_takes_a_piece() {
    let r = sub(ModuleFuncArgs::new(vec![string("PiaRao"), number(3), number(3)]));
    assert_eq!(text_of(&r), "Rao");
    let r = sub(ModuleFuncArgs::new(vec![string("abc"), Value::Number(Ratio::from_fraction(3, 2).unwrap()), number(2)]));
    assert_eq!(text_of(&r), "bc");
}

#[test]
fn string_sub_errors() {
    let e = try_sub(ModuleFuncArgs::new(vec![string("abc"), number(1)])).unwrap_err();
    assert_eq!(e.kind, RunErrorKind::BuiltinArity);
    assert_eq!(e.detail, "sub");
    let e = try_sub(ModuleFuncArgs::new(vec![string("abc"), number(2), number(5)])).unwrap_err();
    assert_eq!(e.kind, RunErrorKind::StringIndex);
    let e = try_sub(ModuleFuncArgs::new(vec![string("é"), number(1), number(1)])).unwrap_err();
    assert_eq!(e.kind, RunErrorKind::StringIndex);
    let e = try_sub(ModuleFuncArgs::new(vec![string("abc"), Value::Null, number(1)])).unwrap_err();
    assert_eq!(e.kind, RunErrorKind::InvalidArgument);
    let e = try_sub(ModuleFuncArgs::new(vec![number(1), number(1), number(1)])).unwrap_err();
    assert_eq!(e.kind, RunErrorKind::Unreachable);
}

#[test]
fn string_cat_joins() {
    let r = cat(ModuleFuncArgs::new(vec![string("Pia"), string("Rao")]));
    assert_eq!(text_of(&r), "PiaRao");
    let e = try_cat(ModuleFuncArgs::new(vec![string("Pia")])).unwrap_err();
    assert_eq!(e.kind, RunErrorKind::BuiltinArity);
    assert_eq!(e.detail, "cat");
    let e = try_cat(ModuleFuncArgs::new(vec![number(1), string("Rao")])).unwrap_err();
    assert_eq!(e.kind, RunErrorKind::InvalidArgument);
    let e = try_cat(ModuleFuncArgs::new(vec![string("Pia"), number(1)])).unwrap_err();
    assert_eq!(e.kind, RunErrorKind::Unreachable);
}

#[test]
fn builtin_object_types() {
    let md = get_builtin_metadata();
    let names: Vec<&str> = md.iter().map(|m| m.name.as_str()).collect();
    assert_eq!(names, vec!["Function", "String", "Array"]);
    assert!(md.iter().all(|m| m.size == 0 && m.member_funcs.is_empty() && m.members.is_none()));
}

#[test]
fn builtin_function_names() {
    let fs = builtin_functions();
    let names: Vec<&str> = fs.iter().map(|f| f.0.as_str()).collect();
    assert_eq!(names, vec!["print", "println", "input", "type_info", "to_string", "__pie_rao_main__"]);
    assert_eq!(fs[1].1, Builtin::Println);
}

#[test]
fn object_kinds() {
    let s = Object::String { data: "x".to_string() };
    let a = Object::Array { data: vec![] };
    let r = Object::Record { id: 7, members: vec![] };
    assert_eq!(s.get_object_id(), 1);
    assert_eq!(a.get_object_id(), 2);
    assert_eq!(r.get_object_id(), 7);
    assert!(!s.is_same_type(&a));
    assert!(s.is_same_type(&Object::String { data: "y".to_string() }));
    assert_eq!(Object::new_native_func(Builtin::Print).get_object_id(), 0);
    assert_eq!(text_of(&Object::new_array_value(vec![])), "<object>");
}

#[test]
fn member_functions_of_strings() {
    let src = String::from("let x = 1;\n\n");
    let mut st = LangState::new(&src).unwrap();
    st.register_builtins();
    let s = Object::String { data: "x".to_string() };
    assert!(s.virtual_get_func("sub", &st.interp).is_some());
    assert!(s.virtual_get_func("cat", &st.interp).is_some());
    assert!(s.virtual_get_func("len", &st.interp).is_none());
    let f = Object::Function { func: piarao::interpreter::Function::new(vec![], piarao::interpreter::FunctionImpl::Native(Builtin::Print)) };
    assert!(f.virtual_get_func("sub", &st.interp).is_none());
}

#[test]
fn record_types() {
    let mut interp = Interpreter::new(Program::new(vec![]));
    interp.new_record_decl(
        "Point".to_string(),
        vec![],
        Some(vec![("x".to_string(), 0), ("y".to_string(), 1)]),
    );
    assert_eq!(interp.get_record_metadata().len(), 4);
    assert_eq!(interp.get_record_metadata()[3].size, 2);
    assert_eq!(Object::record_get_member_idx(3, "y", &interp), Some(1));
    assert_eq!(Object::record_get_member_idx(3, "z", &interp), None);
    assert_eq!(Object::record_get_member_idx(1, "x", &interp), None);
    assert!(new_record(3, &interp).is_none());
    interp.get_record_metadata_mut()[3].size = 5;
    assert_eq!(interp.get_record_metadata()[3].size, 5);
}

#[test]
fn globals_are_bound_in_the_main_frame() {
    let mut interp = Interpreter::new(Program::new(vec![]));
    assert_eq!(interp.frame_count(), 1);
    interp.new_var("answer".to_string(), number(42));
    assert_eq!(text_of(&interp.find_var("answer").unwrap().unwrap()), "42");
    interp.new_var("answer".to_string(), number(43));
    assert_eq!(text_of(&interp.find_var("answer").unwrap().unwrap()), "43");
    interp.new_func("show".to_string(), Builtin::Println);
    assert_eq!(interp.find_var("show").unwrap().unwrap().type_info(), "Object");
    assert!(interp.stack_top().is_none());
    assert!(interp.var_in_any_frame("missing").is_none());
}

#[test]
fn fractions_need_a_nonzero_denominator() {
    assert!(Ratio::from_fraction(1, 0).is_none());
    assert_eq!(ratio_to_string(&Ratio::from_fraction(4, -6).unwrap()), "-2/3");
}
