//! A program from its text to its run: lexing, parsing and the interpreter together.
use std::sync::Arc;
use vstd::prelude::*;

use crate::builtins::{builtin_functions, global_builtins, Builtin};
use crate::interpreter::{
    agrees, bind_in_main, initial_state, native_function_value, object_view, sem_program, Interpreter,
    RunError, DEFAULT_MAX_DEPTH,
};
use crate::lexer::{spec_tokenize, LexError, Lexer};
use crate::objects::{
    assoc_find, assoc_lookup, lemma_assoc_find_push, lemma_assoc_find_update, Object, ObjectRef, SpecBody,
    SpecFunction, SpecObject,
};
use crate::parser::{spec_parse, ParseError, Parser};
use crate::semantics::SpecState;

verus! {

/// Why a program text could not be turned into a program.
#[derive(Debug, PartialEq)]
pub enum LangError {
    Lex(LexError),
    Parse(ParseError),
}

/// What reading a program text gives: its statements, or why there are none.
pub open spec fn spec_read_program(src: Seq<char>) -> Result<Seq<crate::ast::SpecNode>, LangError> {
    match spec_tokenize(vstd::utf8::encode_utf8(src)) {
        Err(e) => Err(LangError::Lex(e)),
        Ok(ts) => match spec_parse(ts) {
            Err(e) => Err(LangError::Parse(e)),
            Ok(ns) => Ok(ns),
        },
    }
}

/// The state after binding each named native function in the main frame, in order.
pub open spec fn with_builtins(st: SpecState, bs: Seq<(Seq<char>, Builtin)>) -> SpecState
    decreases bs.len(),
{
    if bs.len() == 0 {
        st
    } else {
        with_builtins(bind_in_main(st, bs[0].0, native_function_value(bs[0].1)), bs.subrange(1, bs.len() as int))
    }
}

/// A native function as a member function: no parameters.
pub open spec fn member_function(b: Builtin) -> SpecObject {
    SpecObject::Function(SpecFunction { params: seq![], body: SpecBody::Native(b) })
}

/// Whether the member `k` of an entry list is the native function `b`.
pub open spec fn has_member(fs: Seq<(String, ObjectRef)>, k: Seq<char>, b: Builtin) -> bool {
    match assoc_find(fs, k) {
        Some(i) => object_view(*fs[i].1) == member_function(b),
        None => false,
    }
}

/// A language session: the interpreter of one program.
pub struct LangState {
    pub interp: Interpreter,
}

/// Binds `k` to `f` among member functions: in place if `k` is bound, else at the end.
fn member_set(fs: &mut Vec<(String, ObjectRef)>, k: String, f: ObjectRef)
    ensures
        assoc_find(final(fs)@, k@) matches Some(i) && final(fs)@[i].1 == f,
        forall|k2: Seq<char>|
            k2 != k@ ==> #[trigger] assoc_find(final(fs)@, k2) == assoc_find(old(fs)@, k2),
        forall|j: int|
            0 <= j < old(fs)@.len() && old(fs)@[j].0@ != k@ ==> #[trigger] final(fs)@[j] == old(fs)@[j],
{
    let ghost kv = k@;
    let ghost x = k;
    match assoc_lookup(fs, k.as_str()) {
        Some(i) => {
            fs.remove(i);
            fs.insert(i, (k, f));
            proof {
                assert(fs@ =~= old(fs)@.update(i as int, (x, f)));
                assert forall|k2: Seq<char>| k2 != kv implies #[trigger] assoc_find(fs@, k2) == assoc_find(
                    old(fs)@,
                    k2,
                ) by {
                    lemma_assoc_find_update(old(fs)@, i as int, x, f, k2);
                }
                lemma_assoc_find_update(old(fs)@, i as int, x, f, kv);
            }
        },
        None => {
            fs.push((k, f));
            proof {
                assert forall|k2: Seq<char>| k2 != kv implies #[trigger] assoc_find(fs@, k2) == assoc_find(
                    old(fs)@,
                    k2,
                ) by {
                    lemma_assoc_find_push(old(fs)@, x, f, k2);
                }
                lemma_assoc_find_push(old(fs)@, x, f, kv);
            }
        },
    }
}

impl LangState {
    /// Lexes and parses `src`; the session's interpreter holds the program, in its
    /// starting state.
    pub fn new(src: &String) -> (r: Result<Self, LangError>)
        ensures
            match spec_read_program(src@) {
                Err(e) => r == Err::<LangState, LangError>(e),
                Ok(ns) => r matches Ok(st) && st.interp@ == initial_state(seq![]) && st.interp.program()@ == ns
                    && st.interp.record_metadata_view().len() == 3
                    && st.interp.depth_limit() == DEFAULT_MAX_DEPTH,
            },
    {
        let mut lexer = Lexer::new(src);
        let tokens = match lexer.tokenize() {
            Ok(t) => t,
            Err(e) => {
                return Err(LangError::Lex(e));
            },
        };
        let mut parser = Parser::new(&tokens);
        let prog = match parser.parse() {
            Ok(p) => p,
            Err(e) => {
                return Err(LangError::Parse(e));
            },
        };
        Ok(LangState { interp: Interpreter::new(prog) })
    }

    /// Runs the program.
    pub fn interpret(&mut self) -> (r: Result<(), RunError>)
        ensures
            agrees(
                r,
                final(self).interp@,
                sem_program(old(self).interp.depth_limit(), old(self).interp@, old(self).interp.program()@),
            ),
            final(self).interp.program() == old(self).interp.program(),
            final(self).interp.record_metadata_view() == old(self).interp.record_metadata_view(),
            final(self).interp.depth_limit() == old(self).interp.depth_limit(),
    {
        self.interp.interpret()
    }

    /// The interpreter, to change it.
    pub fn get_interp_mut(&mut self) -> (r: &mut Interpreter)
        ensures
            *r == old(self).interp,
            final(self).interp == *final(r),
    {
        &mut self.interp
    }
}


pub open spec fn sub_name() -> Seq<char> {
    seq!['s', 'u', 'b']
}

pub open spec fn cat_name() -> Seq<char> {
    seq!['c', 'a', 't']
}

impl LangState {
    /// Registers the native functions: each global one in the main frame, in the order of
    /// `global_builtins`, and `sub` and `cat` as member functions of the `String` type.
    pub fn register_builtins(&mut self)
        requires
            old(self).interp@.frames.len() > 0,
            old(self).interp.record_metadata_view().len() > 1,
        ensures
            final(self).interp@ == with_builtins(old(self).interp@, global_builtins()),
            final(self).interp.program() == old(self).interp.program(),
            final(self).interp.depth_limit() == old(self).interp.depth_limit(),
            final(self).interp.record_metadata_view().len() == old(self).interp.record_metadata_view().len(),
            forall|j: int|
                0 <= j < old(self).interp.record_metadata_view().len() && j != 1
                    ==> #[trigger] final(self).interp.record_metadata_view()[j]
                    == old(self).interp.record_metadata_view()[j],
            has_member(final(self).interp.record_metadata_view()[1].member_funcs@, sub_name(), Builtin::StringSub),
            has_member(final(self).interp.record_metadata_view()[1].member_funcs@, cat_name(), Builtin::StringCat),
            forall|k: Seq<char>|
                k != sub_name() && k != cat_name() ==> #[trigger] assoc_find(
                    final(self).interp.record_metadata_view()[1].member_funcs@,
                    k,
                ) == assoc_find(old(self).interp.record_metadata_view()[1].member_funcs@, k),
    {
        let fs = builtin_functions();
        let ghost gb = global_builtins();
        let n = fs.len();
        proof {
            assert(gb.subrange(0, n as int) =~= gb);
        }
        let mut i: usize = 0;
        while i < n
            invariant
                i <= n,
                n == fs@.len(),
                n == gb.len(),
                gb == global_builtins(),
                forall|j: int| 0 <= j < n ==> fs@[j].0@ == #[trigger] gb[j].0 && fs@[j].1 == gb[j].1,
                self.interp@.frames.len() > 0,
                with_builtins(old(self).interp@, gb) == with_builtins(self.interp@, gb.subrange(i as int, n as int)),
                self.interp.program() == old(self).interp.program(),
                self.interp.depth_limit() == old(self).interp.depth_limit(),
                self.interp.record_metadata_view() == old(self).interp.record_metadata_view(),
            decreases n - i,
        {
            proof {
                assert(gb.subrange(i as int, n as int).subrange(1, n - i) =~= gb.subrange(i + 1, n as int));
                assert(gb.subrange(i as int, n as int)[0] == gb[i as int]);
            }
            self.interp.new_func(fs[i].0.clone(), fs[i].1);
            i = i + 1;
        }
        proof {
            assert(gb.subrange(i as int, n as int) =~= Seq::<(Seq<char>, Builtin)>::empty());
        }
        let md = self.interp.get_record_metadata_mut();
        let mut m = md.remove(1);
        let sub = crate::text::string_from_chars(&vec!['s', 'u', 'b']);
        let cat = crate::text::string_from_chars(&vec!['c', 'a', 't']);
        proof {
            assert(sub@ =~= sub_name());
            assert(cat@ =~= cat_name());
        }
        let ghost f0 = m.member_funcs@;
        member_set(&mut m.member_funcs, sub, Arc::new(Object::new_native_func(Builtin::StringSub)));
        let ghost f1 = m.member_funcs@;
        member_set(&mut m.member_funcs, cat, Arc::new(Object::new_native_func(Builtin::StringCat)));
        proof {
            let i1 = assoc_find(f1, sub_name())->0;
            crate::objects::lemma_assoc_find_range(f1, sub_name());
            assert(m.member_funcs@[i1] == f1[i1]);
        }
        md.insert(1, m);
    }
}

} // verus!
