//! The member functions of strings.
use vstd::prelude::*;

use crate::interpreter::{values_view, ModuleFuncArgs, RunError, Value};
use crate::objects::Object;
use vstd::string::StringSliceAdditionalSpecFns;
use crate::semantics::{string_cat, string_sub, RunErrorKind, SpecRunError};

verus! {

broadcast use vstd::utf8::encode_utf8_valid_utf8, vstd::utf8::encode_utf8_decode_utf8;

/// Whether a native function's outcome is the one the semantics gives.
pub open spec fn native_agrees(
    r: Result<Value, RunError>,
    s: Result<crate::interpreter::SpecValue, (RunErrorKind, Seq<char>)>,
) -> bool {
    match s {
        Ok(v) => r matches Ok(x) && x@ == v,
        Err((k, d)) => r matches Err(e) && e@ == (SpecRunError { kind: k, detail: d, l: 0, c: 0 }),
    }
}

/// A character boundary of a text stays one in any prefix that ends on a boundary.
proof fn lemma_boundary_in_prefix(bytes: Seq<u8>, start: int, end: int)
    requires
        vstd::utf8::valid_utf8(bytes),
        0 <= start <= end <= bytes.len(),
        vstd::utf8::is_char_boundary(bytes, start),
        vstd::utf8::is_char_boundary(bytes, end),
    ensures
        vstd::utf8::is_char_boundary(bytes.subrange(0, end), start),
{
    let head = bytes.subrange(0, end);
    vstd::utf8::valid_utf8_split(bytes, end);
    if start == end {
        vstd::utf8::is_char_boundary_start_end_of_seq(head);
    } else {
        vstd::utf8::is_char_boundary_iff_not_is_continuation_byte(bytes, start);
        vstd::utf8::is_char_boundary_iff_not_is_continuation_byte(head, start);
    }
}

fn error(kind: RunErrorKind, detail: String) -> (e: RunError)
    ensures
        e@ == (SpecRunError { kind, detail: detail@, l: 0, c: 0 }),
{
    RunError { kind, detail, l: 0, c: 0 }
}

/// `String::sub(s, start, len)`, tested first: the piece of `s` from byte `start` on, `len`
/// bytes long, both numbers cut to integers; or, for arguments on which the piece cannot be
/// taken, the error that `string_sub` names (a wrong number of arguments, a start or length
/// that is not a number, a value that is not a string, a piece not inside the string on
/// character boundaries).
pub fn try_sub(args: ModuleFuncArgs) -> (r: Result<Value, RunError>)
    ensures
        native_agrees(r, string_sub(values_view(args.args@))),
{
    let args = args.args;
    proof {
        crate::interpreter::lemma_values_view_len(args@);
    }
    if args.len() != 3 {
        return Err(error(RunErrorKind::BuiltinArity, crate::text::string_from_chars(&vec!['s', 'u', 'b'])));
    }
    proof {
        crate::interpreter::lemma_values_view_index(args@, 0);
        crate::interpreter::lemma_values_view_index(args@, 1);
        crate::interpreter::lemma_values_view_index(args@, 2);
    }
    match &args[0] {
        Value::Object(obj) => match &**obj {
            Object::String { data } => match (&args[1], &args[2]) {
                (Value::Number(a), Value::Number(b)) => {
                    proof {
                        use_type_invariant(a);
                        use_type_invariant(b);
                    }
                    let start = crate::number::rat_trunc_to_usize_wrapping(a);
                    let len = crate::number::rat_trunc_to_usize_wrapping(b);
                    let ghost bytes = vstd::utf8::encode_utf8(data@);
                    let text = data.as_str();
                    if start > usize::MAX - len {
                        return Err(error(RunErrorKind::StringIndex, String::new()));
                    }
                    let end = start + len;
                    let size = text.as_bytes().len();
                    if end > size || !text.is_char_boundary(start) || !text.is_char_boundary(end) {
                        return Err(error(RunErrorKind::StringIndex, String::new()));
                    }
                    proof {
                        lemma_boundary_in_prefix(bytes, start as int, end as int);
                    }
                    let (head, _) = text.split_at(end);
                    proof {
                        assert(head.spec_bytes() =~= bytes.subrange(0, end as int));
                    }
                    let (_, piece) = head.split_at(start);
                    proof {
                        assert(piece.spec_bytes() =~= bytes.subrange(start as int, end as int));
                        assert(vstd::utf8::decode_utf8(vstd::utf8::encode_utf8(piece@)) == piece@);
                    }
                    let mut out = String::new();
                    crate::text::push_str(&mut out, piece);
                    Ok(Object::new_string_value(out))
                },
                _ => Err(error(RunErrorKind::InvalidArgument, String::new())),
            },
            _ => Err(error(RunErrorKind::Unreachable, String::new())),
        },
        _ => Err(error(RunErrorKind::Unreachable, String::new())),
    }
}

/// `String::cat(a, b)`, tested first: the two strings joined; or, for a wrong number of
/// arguments or an argument that is not a string, the error that `string_cat` names.
pub fn try_cat(args: ModuleFuncArgs) -> (r: Result<Value, RunError>)
    ensures
        native_agrees(r, string_cat(values_view(args.args@))),
{
    let args = args.args;
    proof {
        crate::interpreter::lemma_values_view_len(args@);
    }
    if args.len() != 2 {
        return Err(error(RunErrorKind::BuiltinArity, crate::text::string_from_chars(&vec!['c', 'a', 't'])));
    }
    proof {
        crate::interpreter::lemma_values_view_index(args@, 0);
        crate::interpreter::lemma_values_view_index(args@, 1);
    }
    match &args[0] {
        Value::Object(first) => match &**first {
            Object::String { data: a } => match &args[1] {
                Value::Object(second) => match &**second {
                    Object::String { data: b } => {
                        let mut result = a.clone();
                        crate::text::push_str(&mut result, b.as_str());
                        Ok(Object::new_string_value(result))
                    },
                    _ => Err(error(RunErrorKind::Unreachable, String::new())),
                },
                _ => Err(error(RunErrorKind::Unreachable, String::new())),
            },
            _ => Err(error(RunErrorKind::InvalidArgument, String::new())),
        },
        _ => Err(error(RunErrorKind::InvalidArgument, String::new())),
    }
}

/// `String::sub(s, start, len)`: the piece of `s` from byte `start` on, `len` bytes long,
/// both numbers cut to integers. It is taken only where it can be: three arguments, a
/// string, two numbers, and a piece inside the string on character boundaries
/// (`try_sub` tests this first).
pub fn sub(args: ModuleFuncArgs) -> (r: Value)
    requires
        string_sub(values_view(args.args@)) is Ok,
    ensures
        r@ == string_sub(values_view(args.args@))->Ok_0,
{
    match try_sub(args) {
        Ok(v) => v,
        Err(_) => Value::Null,
    }
}

/// `String::cat(a, b)`: the two strings joined. It is taken only for two strings (`try_cat`
/// tests this first).
pub fn cat(args: ModuleFuncArgs) -> (r: Value)
    requires
        string_cat(values_view(args.args@)) is Ok,
    ensures
        r@ == string_cat(values_view(args.args@))->Ok_0,
{
    match try_cat(args) {
        Ok(v) => v,
        Err(_) => Value::Null,
    }
}

} // verus!
