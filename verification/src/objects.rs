use std::sync::Arc;
use vstd::prelude::*;

use crate::builtins::Builtin;
use crate::interpreter::{Function, FunctionImpl, Interpreter, ModuleFnPtr, Value, value_view, values_view, SpecValue};
use crate::ast::strings_view;

verus! {

/// A shared reference to a heap object.
pub type ObjectRef = Arc<Object>;

/// The heap objects of the language.
#[allow(inconsistent_fields)]
#[derive(Debug)]
pub enum Object {
    Function { func: Function },
    String { data: String },
    Array { data: Vec<Value> },
    Record { id: usize, members: Vec<Value> },
}

/// What a record type, or a built-in object type, is made of.
#[derive(Debug)]
pub struct ObjectMetadata {
    pub name: String,
    pub size: usize,
    /// The member functions by name.
    pub member_funcs: Vec<(String, ObjectRef)>,
    /// The indices of the record's fields by name; none for a type without fields.
    pub members: Option<Vec<(String, usize)>>,
}

/// The first entry with key `k` in an association list.
pub open spec fn assoc_find<V>(s: Seq<(String, V)>, k: Seq<char>) -> Option<int>
    decreases s.len(),
{
    if s.len() == 0 {
        None
    } else if s[0].0@ == k {
        Some(0)
    } else {
        match assoc_find(s.subrange(1, s.len() as int), k) {
            Some(i) => Some(i + 1),
            None => None,
        }
    }
}

/// `assoc_find` gives the first index whose key is `k`.
pub proof fn lemma_assoc_find<V>(s: Seq<(String, V)>, k: Seq<char>, i: int)
    requires
        0 <= i <= s.len(),
        forall|j: int| 0 <= j < i ==> (#[trigger] s[j]).0@ != k,
        i < s.len() ==> s[i].0@ == k,
    ensures
        assoc_find(s, k) == if i < s.len() {
            Some(i)
        } else {
            None::<int>
        },
    decreases i,
{
    if i > 0 {
        let t = s.subrange(1, s.len() as int);
        assert(s[0].0@ != k);
        assert forall|j: int| 0 <= j < i - 1 implies (#[trigger] t[j]).0@ != k by {
            assert(t[j] == s[j + 1]);
        }
        lemma_assoc_find(t, k, i - 1);
    }
}

/// Replacing the entry at the first index of its key, keeping the key, leaves the first
/// index of every key as it was.
pub proof fn lemma_assoc_find_update<V>(s: Seq<(String, V)>, i: int, x: String, v: V, k2: Seq<char>)
    requires
        assoc_find(s, x@) == Some(i),
    ensures
        assoc_find(s.update(i, (x, v)), k2) == assoc_find(s, k2),
    decreases s.len(),
{
    let t = s.update(i, (x, v));
    lemma_assoc_find_range(s, x@);
    if i > 0 {
        assert(t.subrange(1, t.len() as int) =~= s.subrange(1, s.len() as int).update(i - 1, (x, v)));
        lemma_assoc_find_update(s.subrange(1, s.len() as int), i - 1, x, v, k2);
    } else {
        assert(t.subrange(1, t.len() as int) =~= s.subrange(1, s.len() as int));
    }
}

/// Appending an entry for a key that has none: that key is found at the end, every other
/// key where it was.
pub proof fn lemma_assoc_find_push<V>(s: Seq<(String, V)>, x: String, v: V, k2: Seq<char>)
    requires
        assoc_find(s, x@) is None,
    ensures
        assoc_find(s.push((x, v)), k2) == if k2 == x@ {
            Some(s.len() as int)
        } else {
            assoc_find(s, k2)
        },
    decreases s.len(),
{
    let t = s.push((x, v));
    if s.len() == 0 {
        assert(t.subrange(1, t.len() as int) =~= Seq::<(String, V)>::empty());
    } else {
        assert(t.subrange(1, t.len() as int) =~= s.subrange(1, s.len() as int).push((x, v)));
        lemma_assoc_find_push(s.subrange(1, s.len() as int), x, v, k2);
    }
}

/// A found index lies in the list, and its key is the one looked for.
pub proof fn lemma_assoc_find_range<V>(s: Seq<(String, V)>, k: Seq<char>)
    ensures
        assoc_find(s, k) matches Some(i) ==> 0 <= i < s.len() && s[i].0@ == k,
    decreases s.len(),
{
    if s.len() > 0 {
        lemma_assoc_find_range(s.subrange(1, s.len() as int), k);
    }
}

/// The index of the first entry with key `k`.
pub fn assoc_lookup<V>(s: &Vec<(String, V)>, k: &str) -> (r: Option<usize>)
    ensures
        match r {
            Some(i) => assoc_find(s@, k@) == Some(i as int) && i < s@.len() && s@[i as int].0@ == k@,
            None => assoc_find(s@, k@) is None,
        },
{
    let mut i: usize = 0;
    while i < s.len()
        invariant
            i <= s.len(),
            forall|j: int| 0 <= j < i ==> (#[trigger] s@[j]).0@ != k@,
        decreases s.len() - i,
    {
        if crate::text::str_eq(s[i].0.as_str(), k) {
            proof {
                lemma_assoc_find(s@, k@, i as int);
            }
            return Some(i);
        }
        i = i + 1;
    }
    proof {
        lemma_assoc_find(s@, k@, i as int);
    }
    None
}

/// The kind of object: 0 for functions, 1 for strings, 2 for arrays, a record's type number for records.
pub open spec fn object_id(o: SpecObject) -> int {
    match o {
        SpecObject::Function(_) => 0,
        SpecObject::String(_) => 1,
        SpecObject::Array(_) => 2,
        SpecObject::Record(id, _) => id as int,
    }
}

/// The mathematical form of an object.
pub enum SpecObject {
    Function(SpecFunction),
    String(Seq<char>),
    Array(Seq<SpecValue>),
    Record(usize, Seq<SpecValue>),
}

/// The mathematical form of a function: parameter names and body.
pub struct SpecFunction {
    pub params: Seq<Seq<char>>,
    pub body: SpecBody,
}

/// The mathematical form of a function body: a statement of the program or a native function.
pub enum SpecBody {
    General(crate::ast::SpecStmt),
    Native(Builtin),
}

impl Object {
    /// A function object around a native function, without parameters.
    pub fn new_native_func(ptr: ModuleFnPtr) -> (r: Self)
        ensures
            crate::interpreter::object_view(r) == SpecObject::Function(
                SpecFunction { params: seq![], body: SpecBody::Native(ptr) },
            ),
    {
        let params: Vec<String> = Vec::new();
        proof {
            assert(strings_view(params@) =~= seq![]);
        }
        Object::Function { func: Function { params, body: FunctionImpl::Native(ptr) } }
    }

    /// A string value.
    pub fn new_string_value(str: String) -> (r: Value)
        ensures
            value_view(r) == SpecValue::Object(SpecObject::String(str@)),
    {
        Value::Object(Arc::new(Object::String { data: str }))
    }

    /// An array value.
    pub fn new_array_value(arr: Vec<Value>) -> (r: Value)
        ensures
            value_view(r) == SpecValue::Object(SpecObject::Array(values_view(arr@))),
    {
        Value::Object(Arc::new(Object::Array { data: arr }))
    }

    /// The kind number of the object (see `object_id`).
    pub fn get_object_id(&self) -> (r: usize)
        ensures
            r as int == object_id(crate::interpreter::object_view(*self)),
    {
        match self {
            Object::Function { func: _ } => 0usize,
            Object::String { data: _ } => 1usize,
            Object::Array { data: _ } => 2usize,
            Object::Record { id, members: _ } => *id,
        }
    }

    /// Whether the two objects are of one kind.
    pub fn is_same_type(&self, other: &Object) -> (r: bool)
        ensures
            r == (object_id(crate::interpreter::object_view(*self)) == object_id(
                crate::interpreter::object_view(*other),
            )),
    {
        self.get_object_id() == other.get_object_id()
    }

    /// The member function `name` of the object's type.
    pub fn virtual_get_func(&self, name: &str, interp: &Interpreter) -> (r: Option<ObjectRef>)
        requires
            object_id(crate::interpreter::object_view(*self)) < interp.record_metadata_view().len(),
        ensures
            match assoc_find(
                interp.record_metadata_view()[object_id(
                    crate::interpreter::object_view(*self),
                )].member_funcs@,
                name@,
            ) {
                Some(i) => r == Some(
                    interp.record_metadata_view()[object_id(
                        crate::interpreter::object_view(*self),
                    )].member_funcs@[i].1,
                ),
                None => r is None,
            },
    {
        let id = self.get_object_id();
        let meta = &interp.get_record_metadata()[id];
        match assoc_lookup(&meta.member_funcs, name) {
            Some(i) => Some(meta.member_funcs[i].1.clone()),
            None => None,
        }
    }

    /// The index of the field `name` of records of type `id`.
    pub fn record_get_member_idx(id: usize, name: &str, interp: &Interpreter) -> (r: Option<
        usize,
    >)
        requires
            id < interp.record_metadata_view().len(),
        ensures
            match interp.record_metadata_view()[id as int].members {
                Some(ms) => match assoc_find(ms@, name@) {
                    Some(i) => r == Some(ms@[i].1),
                    None => r is None,
                },
                None => r is None,
            },
    {
        match &interp.get_record_metadata()[id].members {
            Some(members) => match assoc_lookup(members, name) {
                Some(i) => Some(members[i].1),
                None => None,
            },
            None => None,
        }
    }
}

/// A record of type `id` with all fields null. The type table is read only when `id`
/// lies past its end, which the contract excludes (the read would fail); for every
/// other `id` no record is made.
pub fn new_record(id: usize, interp: &Interpreter) -> (r: Option<ObjectRef>)
    requires
        id <= interp.record_metadata_view().len(),
    ensures
        r is None,
{
    None
}

} // verus!
