//! The object types that exist before any program runs.
use vstd::prelude::*;

use crate::objects::{ObjectMetadata, ObjectRef};

verus! {

/// Metadata of a built-in object type: a name, no fields, no member functions.
fn builtin_type(name: String) -> (r: ObjectMetadata)
    ensures
        r.name@ == name@,
        r.size == 0,
        r.member_funcs@.len() == 0,
        r.members is None,
{
    let member_funcs: Vec<(String, ObjectRef)> = Vec::new();
    ObjectMetadata { name, size: 0, member_funcs, members: None }
}

/// The built-in object types, at their type numbers: `Function` (0), `String` (1) and
/// `Array` (2), each without fields or member functions.
pub fn get_builtin_metadata() -> (r: Vec<ObjectMetadata>)
    ensures
        r@.len() == 3,
        r@[0].name@ == seq!['F', 'u', 'n', 'c', 't', 'i', 'o', 'n'],
        r@[1].name@ == seq!['S', 't', 'r', 'i', 'n', 'g'],
        r@[2].name@ == seq!['A', 'r', 'r', 'a', 'y'],
        forall|i: int|
            0 <= i < 3 ==> (#[trigger] r@[i]).size == 0 && r@[i].member_funcs@.len() == 0
                && r@[i].members is None,
{
    let mut r: Vec<ObjectMetadata> = Vec::new();
    r.push(builtin_type(crate::text::string_from_chars(&vec!['F', 'u', 'n', 'c', 't', 'i', 'o', 'n'])));
    r.push(builtin_type(crate::text::string_from_chars(&vec!['S', 't', 'r', 'i', 'n', 'g'])));
    r.push(builtin_type(crate::text::string_from_chars(&vec!['A', 'r', 'r', 'a', 'y'])));
    r
}

} // verus!
