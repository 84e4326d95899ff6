//! What running a PiaRao program does, stated over the mathematical forms of its parts.
use vstd::prelude::*;

use crate::ast::{SpecExpr, SpecNode, SpecStmt};
use crate::builtins::Builtin;
use crate::interpreter::{value_type_name, SpecFrame, SpecValue};
use crate::number::{
    canon,
    float_text,
    rat_add,
    rat_div,
    rat_le,
    rat_lt,
    rat_mul,
    rat_neg,
    rat_of_int,
    rat_pow,
    rat_rem,
    rat_sub,
    rat_trunc,
    ratio_text,
    Rat,
};
use crate::objects::{SpecBody, SpecFunction, SpecObject};
use crate::text::spec_parse_i64;

verus! {

/// Why running a program stopped. A run never stops the process: where a program cannot
/// go on (a condition that is not a boolean, a name that is not bound, a native function
/// called with the wrong arguments, ...), the run ends with one of these errors, and the
/// semantics states which one.
#[derive(Clone, Copy, Debug, PartialEq, Eq, Structural)]
pub enum RunErrorKind {
    /// A value was taken from the value stack while it was empty.
    StackUnderflow,
    /// There was no frame to work in.
    FrameUnderflow,
    /// A name not bound in the main frame was looked up outside any call.
    LookupUnderflow,
    /// `return` outside a function.
    CannotReturnFromMain,
    /// A `let` whose left side is not a name or a parameter list.
    LetTarget,
    /// A function definition without a name.
    EmptyParamList,
    UndefinedVariable,
    UndefinedFunction,
    /// A binary operator on operands of the wrong types.
    BinaryTypeError,
    /// A unary operator on an operand of the wrong type.
    UnaryTypeError,
    UnknownOperator,
    UnknownUnaryOperator,
    /// An exponent above `i32::MAX`.
    ExponentTooLarge,
    /// An exponent whose integer part lies below `i32::MIN`.
    ExponentOutOfRange,
    DivisionByZero,
    /// The condition of an `if` is not a boolean.
    IfCondition,
    /// A call of something that is not an object.
    NotCallable,
    /// A call of an expression that yields nothing.
    NoValue,
    /// An expression that cannot stand alone (a parameter list).
    Unreachable,
    /// A number literal with a fractional part that cannot be read.
    InvalidFloat,
    /// `input` found no line left to read.
    NeedInput,
    /// A native function called with the wrong number of arguments.
    BuiltinArity,
    /// A native function called with an argument of the wrong type.
    InvalidArgument,
    /// A piece of a string that does not lie inside it on character boundaries.
    StringIndex,
    /// The calls nest deeper than the interpreter allows.
    CallDepthExceeded,
}

/// The mathematical form of a run error: its kind, a name or text that it concerns, and
/// the position of the statement (0 and 0 for a failure that has no position).
pub struct SpecRunError {
    pub kind: RunErrorKind,
    pub detail: Seq<char>,
    pub l: int,
    pub c: int,
}

/// One piece of written output: text, or an object written by its address.
pub enum SpecOutput {
    Text(Seq<char>),
    Object(SpecObject),
}

/// The state of a run: the value stack, the call frames (the first is the main frame,
/// the last the current one), the output written so far, and the input lines with the
/// index of the next one to read.
pub struct SpecState {
    pub stack: Seq<SpecValue>,
    pub frames: Seq<SpecFrame>,
    pub output: Seq<SpecOutput>,
    pub inputs: Seq<Seq<char>>,
    pub input_pos: int,
}

/// A stopped run: the error and the output written before it.
pub struct Failure {
    pub err: SpecRunError,
    pub output: Seq<SpecOutput>,
}

pub type Sem = Result<SpecState, Failure>;

pub open spec fn fail(st: SpecState, kind: RunErrorKind, detail: Seq<char>, l: int, c: int) -> Failure {
    Failure { err: SpecRunError { kind, detail, l, c }, output: st.output }
}

pub open spec fn with_stack(st: SpecState, s: Seq<SpecValue>) -> SpecState {
    SpecState {
        stack: s,
        frames: st.frames,
        output: st.output,
        inputs: st.inputs,
        input_pos: st.input_pos,
    }
}

pub open spec fn with_frames(st: SpecState, f: Seq<SpecFrame>) -> SpecState {
    SpecState {
        stack: st.stack,
        frames: f,
        output: st.output,
        inputs: st.inputs,
        input_pos: st.input_pos,
    }
}

pub open spec fn with_output(st: SpecState, o: Seq<SpecOutput>) -> SpecState {
    SpecState {
        stack: st.stack,
        frames: st.frames,
        output: o,
        inputs: st.inputs,
        input_pos: st.input_pos,
    }
}

pub open spec fn push(st: SpecState, v: SpecValue) -> SpecState {
    with_stack(st, st.stack.push(v))
}

/// Takes the top of the value stack; an empty stack is an error.
pub open spec fn pop(st: SpecState) -> Result<(SpecState, SpecValue), Failure> {
    if st.stack.len() == 0 {
        Err(fail(st, RunErrorKind::StackUnderflow, seq![], 0, 0))
    } else {
        Ok(
            (
                with_stack(st, st.stack.subrange(0, st.stack.len() - 1)),
                st.stack[st.stack.len() - 1],
            ),
        )
    }
}

/// Drops the top of the value stack, if there is one.
pub open spec fn pop_discard(st: SpecState) -> SpecState {
    if st.stack.len() == 0 {
        st
    } else {
        with_stack(st, st.stack.subrange(0, st.stack.len() - 1))
    }
}

/// The index of the first binding of `k`.
pub open spec fn find_key(vs: Seq<(Seq<char>, SpecValue)>, k: Seq<char>) -> Option<int>
    decreases vs.len(),
{
    if vs.len() == 0 {
        None
    } else if vs[0].0 == k {
        Some(0)
    } else {
        match find_key(vs.subrange(1, vs.len() as int), k) {
            Some(i) => Some(i + 1),
            None => None,
        }
    }
}

/// The value bound to `k`.
pub open spec fn vars_get(vs: Seq<(Seq<char>, SpecValue)>, k: Seq<char>) -> Option<SpecValue> {
    match find_key(vs, k) {
        Some(i) => Some(vs[i].1),
        None => None,
    }
}

/// Binds `k` to `v`: replaces an existing binding in place, or adds one at the end.
pub open spec fn vars_insert(vs: Seq<(Seq<char>, SpecValue)>, k: Seq<char>, v: SpecValue) -> Seq<
    (Seq<char>, SpecValue),
> {
    match find_key(vs, k) {
        Some(i) => vs.update(i, (k, v)),
        None => vs.push((k, v)),
    }
}

pub open spec fn frame_with_vars(f: SpecFrame, vs: Seq<(Seq<char>, SpecValue)>) -> SpecFrame {
    SpecFrame { name: f.name, vars: vs, func: f.func, last_ret_idx: f.last_ret_idx }
}

/// Binds `k` to `v` in the current frame.
pub open spec fn insert_var_last(st: SpecState, k: Seq<char>, v: SpecValue) -> Sem {
    if st.frames.len() == 0 {
        Err(fail(st, RunErrorKind::FrameUnderflow, seq![], 0, 0))
    } else {
        let n = st.frames.len() - 1;
        Ok(
            with_frames(
                st,
                st.frames.update(n, frame_with_vars(st.frames[n], vars_insert(st.frames[n].vars, k, v))),
            ),
        )
    }
}

/// Looks a name up in the current frame, then in the caller's frame, then in the main
/// frame. Outside any call a name missing from the main frame is an error.
pub open spec fn find_var(st: SpecState, name: Seq<char>) -> Result<Option<SpecValue>, Failure> {
    let n = st.frames.len();
    if n == 0 {
        Err(fail(st, RunErrorKind::FrameUnderflow, seq![], 0, 0))
    } else {
        match vars_get(st.frames[n - 1].vars, name) {
            Some(v) => Ok(Some(v)),
            None => if n < 2 {
                Err(fail(st, RunErrorKind::LookupUnderflow, name, 0, 0))
            } else {
                match vars_get(st.frames[n - 2].vars, name) {
                    Some(v) => Ok(Some(v)),
                    None => Ok(vars_get(st.frames[0].vars, name)),
                }
            },
        }
    }
}

/// How a value is written.
pub open spec fn display(v: SpecValue) -> SpecOutput {
    match v {
        SpecValue::Number(r) => SpecOutput::Text(float_text(r, 10)),
        SpecValue::Bool(b) => SpecOutput::Text(
            if b {
                seq!['t', 'r', 'u', 'e']
            } else {
                seq!['f', 'a', 'l', 's', 'e']
            },
        ),
        SpecValue::Null => SpecOutput::Text(seq!['N', 'u', 'l', 'l']),
        SpecValue::Object(o) => match o {
            SpecObject::String(d) => SpecOutput::Text(d),
            _ => SpecOutput::Object(o),
        },
    }
}

/// The text of a value, as `to_string` gives it: a number in decimal as `print` writes
/// it, `true` or `false`, `Null`, the characters of a string; any other object, whose
/// written form is its address, gives `Object`.
pub open spec fn value_text(v: SpecValue) -> Seq<char> {
    match v {
        SpecValue::Number(r) => float_text(r, 10),
        SpecValue::Bool(b) => if b {
            seq!['t', 'r', 'u', 'e']
        } else {
            seq!['f', 'a', 'l', 's', 'e']
        },
        SpecValue::Null => seq!['N', 'u', 'l', 'l'],
        SpecValue::Object(o) => match o {
            SpecObject::String(d) => d,
            _ => seq!['O', 'b', 'j', 'e', 'c', 't'],
        },
    }
}

pub open spec fn displays(vals: Seq<SpecValue>) -> Seq<SpecOutput> {
    vals.map_values(|v: SpecValue| display(v))
}

pub open spec fn newline() -> SpecOutput {
    SpecOutput::Text(seq!['\n'])
}

pub open spec fn string_value(s: Seq<char>) -> SpecValue {
    SpecValue::Object(SpecObject::String(s))
}

pub open spec fn print_all(st: SpecState, vals: Seq<SpecValue>) -> SpecState {
    with_output(st, st.output + displays(vals))
}

pub open spec fn main_text() -> Seq<char> {
    seq!['<', 'm', 'a', 'i', 'n', '>']
}

/// What the `String::sub` native function gives: the bytes `start .. start + len` of a
/// string, both numbers cut to integers and wrapped to `usize`, or why it stops.
pub open spec fn string_sub(vals: Seq<SpecValue>) -> Result<SpecValue, (RunErrorKind, Seq<char>)> {
    if vals.len() != 3 {
        Err((RunErrorKind::BuiltinArity, seq!['s', 'u', 'b']))
    } else {
        match vals[0] {
            SpecValue::Object(SpecObject::String(data)) => match (vals[1], vals[2]) {
                (SpecValue::Number(a), SpecValue::Number(b)) => {
                    let start = rat_trunc(a) as usize;
                    let len = rat_trunc(b) as usize;
                    let bytes = vstd::utf8::encode_utf8(data);
                    if start + len > usize::MAX || start + len > bytes.len()
                        || !vstd::utf8::is_char_boundary(bytes, start as int)
                        || !vstd::utf8::is_char_boundary(bytes, start + len) {
                        Err((RunErrorKind::StringIndex, seq![]))
                    } else {
                        Ok(string_value(vstd::utf8::decode_utf8(bytes.subrange(start as int, start + len))))
                    }
                },
                _ => Err((RunErrorKind::InvalidArgument, seq![])),
            },
            _ => Err((RunErrorKind::Unreachable, seq![])),
        }
    }
}

/// What the `String::cat` native function gives: two strings joined, or why it stops.
pub open spec fn string_cat(vals: Seq<SpecValue>) -> Result<SpecValue, (RunErrorKind, Seq<char>)> {
    if vals.len() != 2 {
        Err((RunErrorKind::BuiltinArity, seq!['c', 'a', 't']))
    } else {
        match vals[0] {
            SpecValue::Object(SpecObject::String(a)) => match vals[1] {
                SpecValue::Object(SpecObject::String(b)) => Ok(string_value(a + b)),
                _ => Err((RunErrorKind::Unreachable, seq![])),
            },
            _ => Err((RunErrorKind::InvalidArgument, seq![])),
        }
    }
}

/// The result of a native function pushed on the value stack, or the failure it causes.
pub open spec fn push_result(st: SpecState, r: Result<SpecValue, (RunErrorKind, Seq<char>)>) -> Sem {
    match r {
        Ok(v) => Ok(push(st, v)),
        Err((k, detail)) => Err(fail(st, k, detail, 0, 0)),
    }
}

/// Calls a native function on argument values; its result goes on the value stack.
pub open spec fn call_builtin(st: SpecState, b: Builtin, vals: Seq<SpecValue>, l: int, c: int) -> Sem {
    match b {
        Builtin::Print => Ok(push(print_all(st, vals), SpecValue::Null)),
        Builtin::Println => {
            let st1 = print_all(st, vals);
            Ok(push(with_output(st1, st1.output.push(newline())), SpecValue::Null))
        },
        Builtin::Input => {
            let st1 = print_all(st, vals);
            if 0 <= st1.input_pos < st1.inputs.len() {
                Ok(
                    push(
                        SpecState {
                            stack: st1.stack,
                            frames: st1.frames,
                            output: st1.output,
                            inputs: st1.inputs,
                            input_pos: st1.input_pos + 1,
                        },
                        string_value(st1.inputs[st1.input_pos]),
                    ),
                )
            } else {
                Err(fail(st1, RunErrorKind::NeedInput, seq![], l, c))
            }
        },
        Builtin::TypeInfo => if vals.len() != 1 {
            Err(
                fail(
                    st,
                    RunErrorKind::BuiltinArity,
                    seq!['t', 'y', 'p', 'e', '_', 'i', 'n', 'f', 'o'],
                    0,
                    0,
                ),
            )
        } else {
            Ok(push(st, string_value(value_type_name(vals[0]))))
        },
        Builtin::ToString => if vals.len() != 1 {
            Err(
                fail(
                    st,
                    RunErrorKind::BuiltinArity,
                    seq!['t', 'o', '_', 's', 't', 'r', 'i', 'n', 'g'],
                    0,
                    0,
                ),
            )
        } else {
            Ok(push(st, string_value(value_text(vals[0]))))
        },
        Builtin::Main => Ok(
            push(
                with_output(st, st.output.push(SpecOutput::Text(main_text())).push(newline())),
                SpecValue::Null,
            ),
        ),
        Builtin::StringSub => push_result(st, string_sub(vals)),
        Builtin::StringCat => push_result(st, string_cat(vals)),
    }
}

pub open spec fn is_op1(op: Seq<char>, ch: char) -> bool {
    op == seq![ch]
}

pub open spec fn is_op2(op: Seq<char>, c1: char, c2: char) -> bool {
    op == seq![c1, c2]
}

pub open spec fn op_and() -> Seq<char> {
    seq!['a', 'n', 'd']
}

pub open spec fn op_or() -> Seq<char> {
    seq!['o', 'r']
}

/// A binary operator on two numbers; its result (if any) goes on the value stack.
/// `%` is the remainder of the division rounded toward zero; `=` yields nothing.
pub open spec fn arith(st: SpecState, op: Seq<char>, a: Rat, b: Rat, l: int, c: int) -> Sem {
    if is_op1(op, '+') {
        Ok(push(st, SpecValue::Number(rat_add(a, b))))
    } else if is_op1(op, '-') {
        Ok(push(st, SpecValue::Number(rat_sub(a, b))))
    } else if is_op1(op, '*') {
        Ok(push(st, SpecValue::Number(rat_mul(a, b))))
    } else if is_op1(op, '/') {
        if b.num == 0 {
            Err(fail(st, RunErrorKind::DivisionByZero, seq![], l, c))
        } else {
            Ok(push(st, SpecValue::Number(rat_div(a, b))))
        }
    } else if is_op1(op, '%') {
        if b.num == 0 {
            Err(fail(st, RunErrorKind::DivisionByZero, seq![], l, c))
        } else {
            Ok(push(st, SpecValue::Number(rat_rem(a, b))))
        }
    } else if is_op1(op, '^') {
        if rat_le(b, rat_of_int(i32::MAX as int)) {
            let t = rat_trunc(b);
            if t < i32::MIN {
                Err(fail(st, RunErrorKind::ExponentOutOfRange, seq![], l, c))
            } else if t < 0 && a.num == 0 {
                Err(fail(st, RunErrorKind::DivisionByZero, seq![], l, c))
            } else {
                Ok(push(st, SpecValue::Number(rat_pow(a, t))))
            }
        } else {
            Err(fail(st, RunErrorKind::ExponentTooLarge, ratio_text(b), l, c))
        }
    } else if is_op2(op, '=', '=') {
        Ok(push(st, SpecValue::Bool(a == b)))
    } else if is_op2(op, '!', '=') {
        Ok(push(st, SpecValue::Bool(a != b)))
    } else if is_op1(op, '>') {
        Ok(push(st, SpecValue::Bool(rat_lt(b, a))))
    } else if is_op1(op, '<') {
        Ok(push(st, SpecValue::Bool(rat_lt(a, b))))
    } else if is_op2(op, '>', '=') {
        Ok(push(st, SpecValue::Bool(rat_le(b, a))))
    } else if is_op2(op, '<', '=') {
        Ok(push(st, SpecValue::Bool(rat_le(a, b))))
    } else if is_op1(op, '=') {
        Ok(st)
    } else {
        Err(fail(st, RunErrorKind::UnknownOperator, op, l, c))
    }
}

/// The index of the first `.` in a text, or its length.
pub open spec fn dot_index(s: Seq<char>) -> int
    decreases s.len(),
{
    if s.len() == 0 {
        0
    } else if s[0] == '.' {
        0
    } else {
        1 + dot_index(s.subrange(1, s.len() as int))
    }
}

/// Ten to the power `k`.
pub open spec fn pow10(k: nat) -> nat
    decreases k,
{
    if k == 0 {
        1
    } else {
        10 * pow10((k - 1) as nat)
    }
}

/// The value of a number literal with a fractional part, `int.frac`: the integer part plus
/// `frac / 10^len(frac)`. Both parts must read as `i64`, and the power of ten must fit one.
pub open spec fn spec_parse_float(s: Seq<char>) -> Option<Rat> {
    let i = dot_index(s);
    let ip = s.subrange(0, i);
    let rest = if i < s.len() {
        s.subrange(i + 1, s.len() as int)
    } else {
        seq![]
    };
    let fp = rest.subrange(0, dot_index(rest));
    match spec_parse_i64(ip) {
        None => None,
        Some(a) => match spec_parse_i64(fp) {
            None => None,
            Some(b) => if fp.len() <= 18 {
                Some(
                    rat_add(
                        rat_of_int(a as int),
                        canon(b as int, pow10(fp.len()) as int),
                    ),
                )
            } else {
                None
            },
        },
    }
}

/// The name under which a function value is called.
pub open spec fn lambda_name() -> Seq<char> {
    seq!['L', 'a', 'm', 'b', 'd', 'a', '<', '0', '>']
}

/// Evaluates an expression at depth budget `d`: its value, if it has one, goes on the
/// value stack. `l` and `c` are the position of the statement that holds it.
pub open spec fn sem_expr(d: nat, st: SpecState, e: SpecExpr, l: int, c: int) -> Sem
    decreases d, e, 0nat,
{
    match e {
        SpecExpr::Number(n) => Ok(push(st, SpecValue::Number(rat_of_int(n as int)))),
        SpecExpr::Float(s) => match spec_parse_float(s) {
            Some(r) => Ok(push(st, SpecValue::Number(r))),
            None => Err(fail(st, RunErrorKind::InvalidFloat, s, l, c)),
        },
        SpecExpr::String(s) => Ok(push(st, string_value(s))),
        SpecExpr::Ident(name) => match find_var(st, name) {
            Err(f) => Err(f),
            Ok(Some(v)) => Ok(push(st, v)),
            Ok(None) => Err(fail(st, RunErrorKind::UndefinedVariable, name, l, c)),
        },
        SpecExpr::BinaryOp(lhs, op, rhs) => match sem_expr(d, st, *lhs, l, c) {
            Err(f) => Err(f),
            Ok(st1) => match pop(st1) {
                Err(f) => Err(f),
                Ok((st2, lv)) => match lv {
                    SpecValue::Number(a) => match sem_expr(d, st2, *rhs, l, c) {
                        Err(f) => Err(f),
                        Ok(st3) => match pop(st3) {
                            Err(f) => Err(f),
                            Ok((st4, rv)) => match rv {
                                SpecValue::Number(b) => arith(st4, op, a, b, l, c),
                                _ => Ok(st4),
                            },
                        },
                    },
                    SpecValue::Bool(a) => if op == op_and() || op == op_or() {
                        match sem_expr(d, st2, *rhs, l, c) {
                            Err(f) => Err(f),
                            Ok(st3) => match pop(st3) {
                                Err(f) => Err(f),
                                Ok((st4, rv)) => match rv {
                                    SpecValue::Bool(b) => Ok(
                                        push(
                                            st4,
                                            SpecValue::Bool(
                                                if op == op_and() {
                                                    a && b
                                                } else {
                                                    a || b
                                                },
                                            ),
                                        ),
                                    ),
                                    _ => Err(fail(st4, RunErrorKind::BinaryTypeError, op, l, c)),
                                },
                            },
                        }
                    } else {
                        Err(fail(st2, RunErrorKind::BinaryTypeError, op, l, c))
                    },
                    _ => Err(fail(st2, RunErrorKind::BinaryTypeError, op, l, c)),
                },
            },
        },
        SpecExpr::UnaryOp(op, x) => match sem_expr(d, st, *x, l, c) {
            Err(f) => Err(f),
            Ok(st1) => match pop(st1) {
                Err(f) => Err(f),
                Ok((st2, v)) => match v {
                    SpecValue::Number(n) => if is_op1(op, '-') {
                        Ok(push(st2, SpecValue::Number(rat_neg(n))))
                    } else {
                        Err(fail(st2, RunErrorKind::UnknownUnaryOperator, op, l, c))
                    },
                    SpecValue::Bool(b) => if is_op1(op, '!') {
                        Ok(push(st2, SpecValue::Bool(!b)))
                    } else {
                        Err(fail(st2, RunErrorKind::UnknownUnaryOperator, op, l, c))
                    },
                    _ => Err(fail(st2, RunErrorKind::UnaryTypeError, op, l, c)),
                },
            },
        },
        SpecExpr::Assign(name, init) => match sem_expr(d, st, *init, l, c) {
            Err(f) => Err(f),
            Ok(st1) => match pop(st1) {
                Err(f) => Err(f),
                Ok((st2, v)) => insert_var_last(st2, name, v),
            },
        },
        SpecExpr::Block(ss) => if st.frames.len() == 0 {
            Err(fail(st, RunErrorKind::FrameUnderflow, seq![], 0, 0))
        } else {
            let saved = st.frames[st.frames.len() - 1];
            match sem_block(d, st, ss) {
                Err(f) => Err(f),
                Ok(st1) => if st1.frames.len() == 0 {
                    Ok(st1)
                } else {
                    Ok(with_frames(st1, st1.frames.update(st1.frames.len() - 1, saved)))
                },
            }
        },
        SpecExpr::Call(name, args) => match find_var(st, name) {
            Err(f) => Err(f),
            Ok(Some(SpecValue::Object(SpecObject::Function(f)))) => sem_call(
                d,
                st,
                name,
                f,
                args,
                l,
                c,
            ),
            Ok(_) => Err(fail(st, RunErrorKind::UndefinedFunction, name, l, c)),
        },
        SpecExpr::DynCall(fe, args) => match sem_expr(d, st, *fe, l, c) {
            Err(f) => Err(f),
            Ok(st1) => if st1.stack.len() == 0 {
                Err(fail(st1, RunErrorKind::NoValue, seq![], l, c))
            } else {
                let st2 = with_stack(st1, st1.stack.subrange(0, st1.stack.len() - 1));
                match st1.stack[st1.stack.len() - 1] {
                    SpecValue::Object(SpecObject::Function(f)) => sem_call(
                        d,
                        st2,
                        lambda_name(),
                        f,
                        args,
                        l,
                        c,
                    ),
                    SpecValue::Object(_) => Err(
                        fail(st2, RunErrorKind::UndefinedFunction, lambda_name(), l, c),
                    ),
                    _ => Err(fail(st2, RunErrorKind::NotCallable, seq![], l, c)),
                }
            },
        },
        SpecExpr::Lambda(params, body) => Ok(
            push(
                st,
                SpecValue::Object(
                    SpecObject::Function(
                        SpecFunction {
                            params,
                            body: SpecBody::General(SpecStmt::NotPopValueExpr(body)),
                        },
                    ),
                ),
            ),
        ),
        SpecExpr::Null => Ok(st),
        SpecExpr::IdentList(_) => Err(fail(st, RunErrorKind::Unreachable, seq![], l, c)),
        SpecExpr::If(cond, then, els) => match sem_expr(d, st, *cond, l, c) {
            Err(f) => Err(f),
            Ok(st1) => match pop(st1) {
                Err(f) => Err(f),
                Ok((st2, v)) => match v {
                    SpecValue::Bool(b) => if b {
                        sem_expr(d, st2, *then, l, c)
                    } else {
                        match els {
                            Some(x) => sem_expr(d, st2, *x, l, c),
                            None => Ok(push(st2, SpecValue::Null)),
                        }
                    },
                    _ => Err(fail(st2, RunErrorKind::IfCondition, value_type_name(v), l, c)),
                },
            },
        },
    }
}

/// Runs a statement at depth budget `d`; `l` and `c` are its position.
pub open spec fn sem_stmt(d: nat, st: SpecState, s: SpecStmt, l: int, c: int) -> Sem
    decreases d, s, 0nat,
{
    match s {
        SpecStmt::TailReturn(e) => sem_expr(d, st, *e, l, c),
        SpecStmt::Return(e) => if st.frames.len() == 1 {
            Err(fail(st, RunErrorKind::CannotReturnFromMain, seq![], l, c))
        } else {
            sem_expr(d, st, *e, l, c)
        },
        SpecStmt::Expr(e) => match sem_expr(d, st, *e, l, c) {
            Err(f) => Err(f),
            Ok(st1) => Ok(pop_discard(st1)),
        },
        SpecStmt::NotPopValueExpr(e) => sem_expr(d, st, *e, l, c),
        SpecStmt::Let(lhs, r) => match *lhs {
            SpecExpr::Ident(name) => match r.stmt {
                SpecStmt::NotPopValueExpr(e) => sem_let_value(d, st, name, *e, r.l, r.c),
                _ => Err(fail(st, RunErrorKind::LetTarget, seq![], l, c)),
            },
            SpecExpr::IdentList(ps) => if ps.len() == 0 {
                Err(fail(st, RunErrorKind::EmptyParamList, seq![], l, c))
            } else {
                insert_var_last(
                    st,
                    ps[0],
                    SpecValue::Object(
                        SpecObject::Function(
                            SpecFunction {
                                params: ps.subrange(1, ps.len() as int),
                                body: SpecBody::General(r.stmt),
                            },
                        ),
                    ),
                )
            },
            _ => Err(fail(st, RunErrorKind::LetTarget, seq![], l, c)),
        },
    }
}

/// `let name = expr;`: binds `name` to the value of `e`, evaluated at `l`, `c`.
pub open spec fn sem_let_value(d: nat, st: SpecState, name: Seq<char>, e: SpecExpr, l: int, c: int) -> Sem
    decreases d, e, 1nat,
{
    match sem_expr(d, st, e, l, c) {
        Err(f) => Err(f),
        Ok(st1) => match pop(st1) {
            Err(f) => Err(f),
            Ok((st2, v)) => insert_var_last(st2, name, v),
        },
    }
}

/// Runs statements in order.
pub open spec fn sem_block(d: nat, st: SpecState, ss: Seq<SpecNode>) -> Sem
    decreases d, ss, 0nat,
{
    if ss.len() == 0 {
        Ok(st)
    } else {
        match sem_stmt(d, st, ss[0].stmt, ss[0].l, ss[0].c) {
            Err(f) => Err(f),
            Ok(st1) => sem_block(d, st1, ss.subrange(1, ss.len() as int)),
        }
    }
}

/// Calls a function on argument expressions. A function of the program gets a new
/// frame, named `name`, holding its parameters bound (as far as both lists go) to the
/// arguments' values, taken in the caller's frame; its body runs there at budget `d - 1`,
/// and the frame goes when it ends. A native function gets all the arguments' values.
pub open spec fn sem_call(
    d: nat,
    st: SpecState,
    name: Seq<char>,
    f: SpecFunction,
    args: Seq<SpecExpr>,
    l: int,
    c: int,
) -> Sem
    decreases d, args, 1nat,
{
    match f.body {
        SpecBody::General(body) => if d == 0 {
            Err(fail(st, RunErrorKind::CallDepthExceeded, name, l, c))
        } else {
            match sem_bind(d, st, f.params, args, seq![], l, c) {
                Err(e) => Err(e),
                Ok((st1, vars)) => {
                    let st2 = with_frames(
                        st1,
                        st1.frames.push(
                            SpecFrame { name, vars, func: Some(f), last_ret_idx: 0 },
                        ),
                    );
                    match sem_stmt((d - 1) as nat, st2, body, l, c) {
                        Err(e) => Err(e),
                        Ok(st3) => if st3.frames.len() == 0 {
                            Err(fail(st3, RunErrorKind::FrameUnderflow, seq![], 0, 0))
                        } else {
                            Ok(with_frames(st3, st3.frames.subrange(0, st3.frames.len() - 1)))
                        },
                    }
                },
            }
        },
        SpecBody::Native(b) => match sem_args(d, st, args, seq![], l, c) {
            Err(e) => Err(e),
            Ok((st1, vals)) => call_builtin(st1, b, vals, l, c),
        },
    }
}

/// Evaluates arguments into parameter bindings, pairwise, as far as both lists go.
pub open spec fn sem_bind(
    d: nat,
    st: SpecState,
    params: Seq<Seq<char>>,
    args: Seq<SpecExpr>,
    vars: Seq<(Seq<char>, SpecValue)>,
    l: int,
    c: int,
) -> Result<(SpecState, Seq<(Seq<char>, SpecValue)>), Failure>
    decreases d, args, 0nat,
{
    if params.len() == 0 || args.len() == 0 {
        Ok((st, vars))
    } else {
        match sem_expr(d, st, args[0], l, c) {
            Err(e) => Err(e),
            Ok(st1) => match pop(st1) {
                Err(e) => Err(e),
                Ok((st2, v)) => sem_bind(
                    d,
                    st2,
                    params.subrange(1, params.len() as int),
                    args.subrange(1, args.len() as int),
                    vars_insert(vars, params[0], v),
                    l,
                    c,
                ),
            },
        }
    }
}

/// Evaluates all arguments into values.
pub open spec fn sem_args(
    d: nat,
    st: SpecState,
    args: Seq<SpecExpr>,
    vals: Seq<SpecValue>,
    l: int,
    c: int,
) -> Result<(SpecState, Seq<SpecValue>), Failure>
    decreases d, args, 0nat,
{
    if args.len() == 0 {
        Ok((st, vals))
    } else {
        match sem_expr(d, st, args[0], l, c) {
            Err(e) => Err(e),
            Ok(st1) => match pop(st1) {
                Err(e) => Err(e),
                Ok((st2, v)) => sem_args(
                    d,
                    st2,
                    args.subrange(1, args.len() as int),
                    vals.push(v),
                    l,
                    c,
                ),
            },
        }
    }
}

} // verus!
