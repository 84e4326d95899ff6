//! The native functions of the language.

pub mod metadata;
pub mod string;

use vstd::prelude::*;

verus! {

/// The native functions: the global ones and the members of strings.
#[derive(Clone, Copy, Debug, PartialEq, Eq, Structural)]
pub enum Builtin {
    /// `print(...)`: writes its arguments.
    Print,
    /// `println(...)`: writes its arguments and a line break.
    Println,
    /// `input(...)`: writes its arguments, then reads a line.
    Input,
    /// `type_info(v)`: the name of the type of `v`.
    TypeInfo,
    /// `to_string(v)`: the text of `v`.
    ToString,
    /// The function of the main frame: writes `<main>` and a line break.
    Main,
    /// `String::sub`: a piece of a string.
    StringSub,
    /// `String::cat`: two strings joined.
    StringCat,
}

/// The global native functions, by the names under which they are registered.
pub open spec fn global_builtins() -> Seq<(Seq<char>, Builtin)> {
    seq![
        (seq!['p', 'r', 'i', 'n', 't'], Builtin::Print),
        (seq!['p', 'r', 'i', 'n', 't', 'l', 'n'], Builtin::Println),
        (seq!['i', 'n', 'p', 'u', 't'], Builtin::Input),
        (seq!['t', 'y', 'p', 'e', '_', 'i', 'n', 'f', 'o'], Builtin::TypeInfo),
        (seq!['t', 'o', '_', 's', 't', 'r', 'i', 'n', 'g'], Builtin::ToString),
        (
            seq!['_', '_', 'p', 'i', 'e', '_', 'r', 'a', 'o', '_', 'm', 'a', 'i', 'n', '_', '_'],
            Builtin::Main,
        ),
    ]
}

/// The global native functions with their names, in registration order.
pub fn builtin_functions() -> (r: Vec<(String, Builtin)>)
    ensures
        r@.len() == global_builtins().len(),
        forall|i: int|
            0 <= i < r@.len() ==> r@[i].0@ == global_builtins()[i].0 && r@[i].1
                == global_builtins()[i].1,
{
    let mut r: Vec<(String, Builtin)> = Vec::new();
    r.push((crate::text::string_from_chars(&vec!['p', 'r', 'i', 'n', 't']), Builtin::Print));
    r.push(
        (crate::text::string_from_chars(&vec!['p', 'r', 'i', 'n', 't', 'l', 'n']), Builtin::Println),
    );
    r.push((crate::text::string_from_chars(&vec!['i', 'n', 'p', 'u', 't']), Builtin::Input));
    r.push(
        (
            crate::text::string_from_chars(&vec!['t', 'y', 'p', 'e', '_', 'i', 'n', 'f', 'o']),
            Builtin::TypeInfo,
        ),
    );
    r.push(
        (
            crate::text::string_from_chars(&vec!['t', 'o', '_', 's', 't', 'r', 'i', 'n', 'g']),
            Builtin::ToString,
        ),
    );
    r.push(
        (
            crate::text::string_from_chars(
                &vec!['_', '_', 'p', 'i', 'e', '_', 'r', 'a', 'o', '_', 'm', 'a', 'i', 'n', '_', '_'],
            ),
            Builtin::Main,
        ),
    );
    proof {
        assert(r@[0].0@ =~= global_builtins()[0].0);
        assert(r@[1].0@ =~= global_builtins()[1].0);
        assert(r@[2].0@ =~= global_builtins()[2].0);
        assert(r@[3].0@ =~= global_builtins()[3].0);
        assert(r@[4].0@ =~= global_builtins()[4].0);
        assert(r@[5].0@ =~= global_builtins()[5].0);
    }
    r
}

} // verus!
