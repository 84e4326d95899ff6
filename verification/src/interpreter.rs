use std::sync::Arc;
use vstd::prelude::*;

use crate::ast::{
    clone_nodes, clone_expr, clone_stmt, clone_strings, exprs_view, lemma_exprs_view_index, lemma_exprs_view_len,
    lemma_nodes_view_index, lemma_nodes_view_len, nodes_view, strings_view, Expr, Node, Program, SpecNode,
    SpecStmt, Stmt,
};
use crate::builtins::Builtin;
use crate::number::{Rat, Ratio};
use crate::objects::{Object, ObjectMetadata, ObjectRef, SpecFunction, SpecBody, SpecObject};
use crate::semantics::{
    display, displays, value_text, dot_index, with_frames, vars_get, find_key, frame_with_vars, insert_var_last, is_op1, is_op2, lambda_name,
    main_text, pop, pop_discard, pow10, print_all, push, spec_parse_float, vars_insert, with_output,
    arith, call_builtin, op_and, sem_args, sem_bind, sem_block, sem_call, sem_expr, sem_let_value, sem_stmt, RunErrorKind,
    Sem,
    SpecOutput, SpecRunError, SpecState,
};
use crate::number::{
    abs, decimal, frac_digits, float_text, limbs_value, rat_add_exec, rat_div_exec, rat_eq_exec,
    rat_from_i64, rat_le, rat_le_exec, rat_lt_exec, rat_mul_exec, rat_neg_exec, rat_of_int, rat_pow_exec, rat_sub_exec,
    rat_trunc, rat_trunc_to_i32, ratio_text,
};

verus! {

/// A native function, named by the operation it performs.
pub type ModuleFnPtr = Builtin;

/// A value of the language.
#[derive(Debug)]
pub enum Value {
    Number(Ratio),
    Object(ObjectRef),
    Null,
    Bool(bool),
}

/// The mathematical form of a value.
pub enum SpecValue {
    Number(Rat),
    Object(SpecObject),
    Null,
    Bool(bool),
}

pub const VALUE_NUMBER: usize = 0;

pub const VALUE_OBJECT: usize = 1;

pub const VALUE_NULL: usize = 2;

pub const VALUE_BOOL: usize = 3;

/// The mathematical form of a value.
pub open spec fn value_view(v: Value) -> SpecValue
    decreases v,
{
    match v {
        Value::Number(r) => SpecValue::Number(r@),
        Value::Object(o) => SpecValue::Object(object_view(*o)),
        Value::Null => SpecValue::Null,
        Value::Bool(b) => SpecValue::Bool(b),
    }
}

/// The mathematical form of an object.
pub open spec fn object_view(o: Object) -> SpecObject
    decreases o,
{
    match o {
        Object::Function { func } => SpecObject::Function(function_view(func)),
        Object::String { data } => SpecObject::String(data@),
        Object::Array { data } => SpecObject::Array(values_view(data@)),
        Object::Record { id, members } => SpecObject::Record(id, values_view(members@)),
    }
}

/// The mathematical form of a sequence of values.
pub open spec fn values_view(s: Seq<Value>) -> Seq<SpecValue>
    decreases s,
{
    if s.len() == 0 {
        seq![]
    } else {
        values_view(s.subrange(0, s.len() - 1)).push(value_view(s[s.len() - 1]))
    }
}

/// The mathematical form of a function body.
pub open spec fn impl_view(b: FunctionImpl) -> SpecBody {
    match b {
        FunctionImpl::General(s) => SpecBody::General(s@),
        FunctionImpl::Native(p) => SpecBody::Native(p),
    }
}

/// The mathematical form of a function.
pub open spec fn function_view(f: Function) -> SpecFunction {
    SpecFunction { params: strings_view(f.params@), body: impl_view(f.body) }
}

impl View for Value {
    type V = SpecValue;

    open spec fn view(&self) -> SpecValue {
        value_view(*self)
    }
}

pub proof fn lemma_values_view_push(s: Seq<Value>, v: Value)
    ensures
        values_view(s.push(v)) == values_view(s).push(value_view(v)),
{
    assert(s.push(v).subrange(0, s.len() as int) =~= s);
}

pub proof fn lemma_values_view_len(s: Seq<Value>)
    ensures
        values_view(s).len() == s.len(),
    decreases s.len(),
{
    if s.len() > 0 {
        lemma_values_view_len(s.subrange(0, s.len() - 1));
    }
}

pub proof fn lemma_values_view_index(s: Seq<Value>, i: int)
    requires
        0 <= i < s.len(),
    ensures
        values_view(s).len() == s.len(),
        values_view(s)[i] == value_view(s[i]),
    decreases s.len(),
{
    lemma_values_view_len(s);
    if i < s.len() - 1 {
        lemma_values_view_index(s.subrange(0, s.len() - 1), i);
    }
}

pub proof fn lemma_values_view_drop_last(s: Seq<Value>)
    requires
        s.len() > 0,
    ensures
        values_view(s.subrange(0, s.len() - 1)) == values_view(s).subrange(
            0,
            values_view(s).len() - 1,
        ),
        values_view(s).len() == s.len(),
        values_view(s)[s.len() - 1] == value_view(s[s.len() - 1]),
{
    lemma_values_view_len(s);
    lemma_values_view_len(s.subrange(0, s.len() - 1));
    assert(values_view(s.subrange(0, s.len() - 1)) =~= values_view(s).subrange(
        0,
        values_view(s).len() - 1,
    ));
}

/// The name of the type of a value, as `type_info` gives it.
pub open spec fn value_type_name(v: SpecValue) -> Seq<char> {
    match v {
        SpecValue::Number(_) => seq!['N', 'u', 'm', 'b', 'e', 'r'],
        SpecValue::Bool(_) => seq!['B', 'o', 'o', 'l'],
        SpecValue::Null => seq!['N', 'u', 'l', 'l'],
        SpecValue::Object(_) => seq!['O', 'b', 'j', 'e', 'c', 't'],
    }
}

/// The type number of a value.
pub open spec fn type_id_of(v: SpecValue) -> usize {
    match v {
        SpecValue::Number(_) => VALUE_NUMBER,
        SpecValue::Bool(_) => VALUE_BOOL,
        SpecValue::Null => VALUE_NULL,
        SpecValue::Object(_) => VALUE_OBJECT,
    }
}

/// The name that `type_to_string` gives a type number (the numbers of `Bool` and
/// `Null` give each other's names).
pub open spec fn type_number_name(id: usize) -> Seq<char> {
    if id == VALUE_NUMBER {
        seq!['N', 'u', 'm', 'b', 'e', 'r']
    } else if id == VALUE_BOOL {
        seq!['N', 'u', 'l', 'l']
    } else if id == VALUE_NULL {
        seq!['B', 'o', 'o', 'l']
    } else {
        seq!['O', 'b', 'j', 'e', 'c', 't']
    }
}

/// A copy of a value; objects are shared, not copied.
pub fn copy_value(v: &Value) -> (r: Value)
    ensures
        r@ == v@,
{
    match v {
        Value::Number(n) => Value::Number(n.copy()),
        Value::Object(o) => Value::Object(o.clone()),
        Value::Null => Value::Null,
        Value::Bool(b) => Value::Bool(*b),
    }
}

/// A copy of a sequence of values.
pub fn copy_values(v: &Vec<Value>) -> (r: Vec<Value>)
    ensures
        values_view(r@) == values_view(v@),
{
    let mut r: Vec<Value> = Vec::new();
    let mut i: usize = 0;
    while i < v.len()
        invariant
            i <= v.len(),
            values_view(r@) == values_view(v@.subrange(0, i as int)),
        decreases v.len() - i,
    {
        let x = copy_value(&v[i]);
        proof {
            lemma_values_view_push(r@, x);
            lemma_values_view_push(v@.subrange(0, i as int), v@[i as int]);
            assert(v@.subrange(0, i as int).push(v@[i as int]) =~= v@.subrange(0, i + 1));
        }
        r.push(x);
        i = i + 1;
    }
    assert(v@.subrange(0, v.len() as int) =~= v@);
    r
}

impl Clone for Value {
    fn clone(&self) -> (r: Self)
        ensures
            r@ == self@,
    {
        copy_value(self)
    }
}

impl Value {
    /// Overwrites a number with a number or a boolean with a boolean; leaves any other
    /// pair unchanged. Gives nothing back in either case.
    pub fn set(&mut self, new_v: Value) -> (r: Option<&Value>)
        ensures
            r is None,
            match (old(self)@, new_v@) {
                (SpecValue::Number(_), SpecValue::Number(_)) => final(self)@ == new_v@,
                (SpecValue::Bool(_), SpecValue::Bool(_)) => final(self)@ == new_v@,
                _ => final(self)@ == old(self)@,
            },
    {
        let same = match (&*self, &new_v) {
            (Value::Number(_), Value::Number(_)) => true,
            (Value::Bool(_), Value::Bool(_)) => true,
            _ => false,
        };
        if same {
            *self = new_v;
        }
        None
    }

    /// The name of the value's type.
    pub fn type_info(&self) -> (r: String)
        ensures
            r@ == value_type_name(self@),
    {
        match self {
            Value::Number(_) => crate::text::string_from_chars(&vec!['N', 'u', 'm', 'b', 'e', 'r']),
            Value::Bool(_) => crate::text::string_from_chars(&vec!['B', 'o', 'o', 'l']),
            Value::Null => crate::text::string_from_chars(&vec!['N', 'u', 'l', 'l']),
            Value::Object(_) => crate::text::string_from_chars(&vec!['O', 'b', 'j', 'e', 'c', 't']),
        }
    }

    /// The name of a type number.
    pub fn type_to_string(id: usize) -> (r: String)
        ensures
            r@ == type_number_name(id),
    {
        if id == VALUE_NUMBER {
            crate::text::string_from_chars(&vec!['N', 'u', 'm', 'b', 'e', 'r'])
        } else if id == VALUE_BOOL {
            crate::text::string_from_chars(&vec!['N', 'u', 'l', 'l'])
        } else if id == VALUE_NULL {
            crate::text::string_from_chars(&vec!['B', 'o', 'o', 'l'])
        } else {
            crate::text::string_from_chars(&vec!['O', 'b', 'j', 'e', 'c', 't'])
        }
    }

    /// The value's type number.
    pub fn type_id(&self) -> (r: usize)
        ensures
            r == type_id_of(self@),
    {
        match self {
            Value::Number(_) => VALUE_NUMBER,
            Value::Bool(_) => VALUE_BOOL,
            Value::Null => VALUE_NULL,
            Value::Object(_) => VALUE_OBJECT,
        }
    }
}

/// The arguments handed to a native function.
pub struct ModuleFuncArgs {
    pub args: Vec<Value>,
}

impl ModuleFuncArgs {
    /// Arguments with the given values.
    pub fn new(args: Vec<Value>) -> (r: Self)
        ensures
            r.args == args,
    {
        ModuleFuncArgs { args }
    }

    /// Whether each argument has the type number given at its place (as far as both lists go).
    pub fn check_types(&self, args: &[usize]) -> (r: bool)
        ensures
            r == (forall|i: int|
                0 <= i < args@.len() && i < self.args@.len() ==> args@[i] == type_id_of(
                    #[trigger] value_view(self.args@[i]),
                )),
    {
        let mut i: usize = 0;
        while i < args.len() && i < self.args.len()
            invariant
                i <= args@.len(),
                forall|j: int|
                    0 <= j < i && j < self.args@.len() ==> args@[j] == type_id_of(
                        #[trigger] value_view(self.args@[j]),
                    ),
            decreases args.len() - i,
        {
            if args[i] != self.args[i].type_id() {
                return false;
            }
            i = i + 1;
        }
        true
    }
}

/// The body of a function: a statement of the program, or a native function.
#[derive(Debug)]
pub enum FunctionImpl {
    General(Stmt),
    Native(ModuleFnPtr),
}

/// A function: its parameter names and its body.
#[derive(Debug)]
pub struct Function {
    pub params: Vec<String>,
    pub body: FunctionImpl,
}

/// A copy of a function.
pub fn copy_function(f: &Function) -> (r: Function)
    ensures
        function_view(r) == function_view(*f),
{
    let body = match &f.body {
        FunctionImpl::General(s) => FunctionImpl::General(clone_stmt(s)),
        FunctionImpl::Native(p) => FunctionImpl::Native(*p),
    };
    Function { params: clone_strings(&f.params), body }
}

impl Clone for Function {
    fn clone(&self) -> (r: Self)
        ensures
            function_view(r) == function_view(*self),
    {
        copy_function(self)
    }
}

impl Function {
    /// A function with the given parameters and body.
    pub fn new(params: Vec<String>, body: FunctionImpl) -> (r: Self)
        ensures
            r.params == params,
            r.body == body,
    {
        Self { params, body }
    }

    /// Replaces the parameters and the body.
    pub fn reset(&mut self, params: Vec<String>, body: FunctionImpl)
        ensures
            final(self).params == params,
            final(self).body == body,
    {
        self.params = params;
        self.body = body;
    }
}

/// The variables of a frame, name and value, in the order of their first binding.
pub open spec fn vars_view(s: Seq<(String, Value)>) -> Seq<(Seq<char>, SpecValue)> {
    s.map_values(|p: (String, Value)| (p.0@, value_view(p.1)))
}

/// The frame of one function call: the function's name, its variables, the function.
#[derive(Debug)]
pub struct FunctionFrame {
    name: String,
    vars: Vec<(String, Value)>,
    func: Option<Function>,
    last_ret_idx: usize,
}

/// The mathematical form of a frame.
pub struct SpecFrame {
    pub name: Seq<char>,
    pub vars: Seq<(Seq<char>, SpecValue)>,
    pub func: Option<SpecFunction>,
    pub last_ret_idx: int,
}

pub open spec fn opt_function_view(f: Option<Function>) -> Option<SpecFunction> {
    match f {
        Some(g) => Some(function_view(g)),
        None => None,
    }
}

impl FunctionFrame {
    pub closed spec fn view_frame(&self) -> SpecFrame {
        SpecFrame {
            name: self.name@,
            vars: vars_view(self.vars@),
            func: opt_function_view(self.func),
            last_ret_idx: self.last_ret_idx as int,
        }
    }

    /// A frame with the given parts.
    pub fn new(name: String, vars: Vec<(String, Value)>, func: Option<Function>, last_ret_idx: usize) -> (r: Self)
        ensures
            r@ == (SpecFrame {
                name: name@,
                vars: vars_view(vars@),
                func: opt_function_view(func),
                last_ret_idx: last_ret_idx as int,
            }),
    {
        FunctionFrame { name, vars, func, last_ret_idx }
    }

    /// Replaces every part by a copy of the given one.
    pub fn reset(
        &mut self,
        name: &String,
        vars: &Vec<(String, Value)>,
        func: Option<&Function>,
        last_ret_idx: usize,
    )
        ensures
            final(self)@ == (SpecFrame {
                name: name@,
                vars: vars_view(vars@),
                func: match func {
                    Some(f) => Some(function_view(*f)),
                    None => None,
                },
                last_ret_idx: last_ret_idx as int,
            }),
    {
        self.name = name.clone();
        self.vars = copy_vars(vars);
        self.func = match func {
            Some(f) => Some(copy_function(f)),
            None => None,
        };
        self.last_ret_idx = last_ret_idx;
    }

    /// Becomes the given frame.
    pub fn reset_to(&mut self, other: FunctionFrame)
        ensures
            final(self)@ == other@,
    {
        self.name = other.name;
        self.vars = other.vars;
        self.func = other.func;
        self.last_ret_idx = other.last_ret_idx;
    }

    /// Replaces the variables.
    pub fn reset_vars(&mut self, vars: Vec<(String, Value)>)
        ensures
            final(self)@ == (SpecFrame { vars: vars_view(vars@), ..old(self)@ }),
    {
        self.vars = vars;
    }

    /// Empties the frame: no name, no variables, no function, return index 0.
    pub fn reinit(&mut self)
        ensures
            final(self)@ == (SpecFrame { name: seq![], vars: seq![], func: None, last_ret_idx: 0 }),
    {
        self.last_ret_idx = 0;
        self.func = None;
        self.vars = Vec::new();
        self.name = String::new();
        proof {
            assert(vars_view(self.vars@) =~= seq![]);
        }
    }
}

impl View for FunctionFrame {
    type V = SpecFrame;

    open spec fn view(&self) -> SpecFrame {
        self.view_frame()
    }
}

/// A copy of the variables of a frame.
pub fn copy_vars(v: &Vec<(String, Value)>) -> (r: Vec<(String, Value)>)
    ensures
        vars_view(r@) == vars_view(v@),
{
    let mut r: Vec<(String, Value)> = Vec::new();
    let mut i: usize = 0;
    while i < v.len()
        invariant
            i <= v.len(),
            vars_view(r@) == vars_view(v@.subrange(0, i as int)),
        decreases v.len() - i,
    {
        let x = (v[i].0.clone(), copy_value(&v[i].1));
        proof {
            assert(vars_view(r@.push(x)) =~= vars_view(r@).push((x.0@, value_view(x.1))));
            assert(vars_view(v@.subrange(0, i + 1)) =~= vars_view(v@.subrange(0, i as int)).push(
                (v@[i as int].0@, value_view(v@[i as int].1)),
            ));
        }
        r.push(x);
        i = i + 1;
    }
    assert(v@.subrange(0, v.len() as int) =~= v@);
    r
}

/// A copy of a frame.
pub fn copy_frame(f: &FunctionFrame) -> (r: FunctionFrame)
    ensures
        r@ == f@,
{
    FunctionFrame {
        name: f.name.clone(),
        vars: copy_vars(&f.vars),
        func: match &f.func {
            Some(g) => Some(copy_function(g)),
            None => None,
        },
        last_ret_idx: f.last_ret_idx,
    }
}


/// The mathematical form of a sequence of frames.
pub open spec fn frames_view(s: Seq<FunctionFrame>) -> Seq<SpecFrame> {
    s.map_values(|f: FunctionFrame| f@)
}

/// One piece of written output: text, or an object, which is written by its address.
#[derive(Debug)]
pub enum Output {
    Text(String),
    Object(ObjectRef),
}

/// The mathematical form of a piece of output.
pub open spec fn output_view(o: Output) -> SpecOutput {
    match o {
        Output::Text(s) => SpecOutput::Text(s@),
        Output::Object(r) => SpecOutput::Object(object_view(*r)),
    }
}

/// The mathematical form of a sequence of output pieces.
pub open spec fn outputs_view(s: Seq<Output>) -> Seq<SpecOutput> {
    s.map_values(|o: Output| output_view(o))
}

/// Why a run stopped, the name or text it concerns, and where.
#[derive(Debug)]
pub struct RunError {
    pub kind: RunErrorKind,
    pub detail: String,
    pub l: usize,
    pub c: usize,
}

impl View for RunError {
    type V = SpecRunError;

    open spec fn view(&self) -> SpecRunError {
        SpecRunError { kind: self.kind, detail: self.detail@, l: self.l as int, c: self.c as int }
    }
}

/// Whether an outcome of the interpreter, with the state it left, is what the semantics gives:
/// the new state on success, the error and the output written before it on failure.
pub open spec fn agrees(r: Result<(), RunError>, after: SpecState, s: Sem) -> bool {
    match s {
        Ok(st) => r is Ok && after == st,
        Err(f) => match r {
            Ok(_) => false,
            Err(e) => e@ == f.err && after.output == f.output,
        },
    }
}

/// The interpreter: the value stack, the call frames, the program, the record types,
/// the output written so far, the input lines and how many of them were read, and how
/// deep calls may nest.
pub struct Interpreter {
    stack: Vec<Value>,
    frames: Vec<FunctionFrame>,
    pub prog: Program,
    record_metadata: Vec<ObjectMetadata>,
    output: Vec<Output>,
    inputs: Vec<String>,
    input_pos: usize,
    max_depth: usize,
}

/// How deep calls may nest unless set otherwise.
pub const DEFAULT_MAX_DEPTH: usize = 1000;

/// The frame in which a run starts.
pub open spec fn main_frame() -> SpecFrame {
    SpecFrame {
        name: main_text(),
        vars: seq![],
        func: Some(SpecFunction { params: seq![], body: SpecBody::Native(Builtin::Main) }),
        last_ret_idx: usize::MAX as int,
    }
}

/// The state in which a run starts, with the given input lines.
pub open spec fn initial_state(inputs: Seq<Seq<char>>) -> SpecState {
    SpecState { stack: seq![], frames: seq![main_frame()], output: seq![], inputs, input_pos: 0 }
}

impl View for Interpreter {
    type V = SpecState;

    closed spec fn view(&self) -> SpecState {
        SpecState {
            stack: values_view(self.stack@),
            frames: frames_view(self.frames@),
            output: outputs_view(self.output@),
            inputs: strings_view(self.inputs@),
            input_pos: self.input_pos as int,
        }
    }
}

impl Interpreter {
    /// The record types, in the order of their type numbers.
    pub closed spec fn record_metadata_view(&self) -> Seq<ObjectMetadata> {
        self.record_metadata@
    }

    /// The program.
    pub closed spec fn program(&self) -> Program {
        self.prog
    }

    /// How deep calls may nest.
    pub closed spec fn depth_limit(&self) -> nat {
        self.max_depth as nat
    }

    /// An interpreter for `prog`: an empty stack, the main frame alone, the built-in
    /// object types, no output and no input.
    pub fn new(prog: Program) -> (r: Self)
        ensures
            r@ == initial_state(seq![]),
            r.program() == prog,
            r.record_metadata_view().len() == 3,
            r.record_metadata_view()[0].name@ == seq!['F', 'u', 'n', 'c', 't', 'i', 'o', 'n'],
            r.record_metadata_view()[1].name@ == seq!['S', 't', 'r', 'i', 'n', 'g'],
            r.record_metadata_view()[2].name@ == seq!['A', 'r', 'r', 'a', 'y'],
            forall|i: int|
                0 <= i < 3 ==> (#[trigger] r.record_metadata_view()[i]).size == 0
                    && r.record_metadata_view()[i].member_funcs@.len() == 0
                    && r.record_metadata_view()[i].members is None,
            r.depth_limit() == DEFAULT_MAX_DEPTH,
    {
        let params: Vec<String> = Vec::new();
        let main = Function { params, body: FunctionImpl::Native(Builtin::Main) };
        let frame = FunctionFrame {
            name: main_string(),
            vars: Vec::new(),
            func: Some(main),
            last_ret_idx: usize::MAX,
        };
        let mut frames: Vec<FunctionFrame> = Vec::new();
        frames.push(frame);
        let r = Interpreter {
            stack: Vec::new(),
            frames,
            prog,
            record_metadata: crate::builtins::metadata::get_builtin_metadata(),
            output: Vec::new(),
            inputs: Vec::new(),
            input_pos: 0,
            max_depth: DEFAULT_MAX_DEPTH,
        };
        proof {
            assert(strings_view(params@) =~= seq![]);
            assert(vars_view(r.frames@[0].vars@) =~= seq![]);
            assert(frames_view(r.frames@) =~= seq![main_frame()]);
            assert(values_view(r.stack@) =~= seq![]);
            assert(outputs_view(r.output@) =~= seq![]);
            assert(strings_view(r.inputs@) =~= seq![]);
        }
        r
    }

    /// The record types.
    pub fn get_record_metadata(&self) -> (r: &Vec<ObjectMetadata>)
        ensures
            r@ == self.record_metadata_view(),
    {
        &self.record_metadata
    }

    /// Gives the input lines that `input` reads, in order; none of them has been read yet.
    pub fn set_inputs(&mut self, inputs: Vec<String>)
        ensures
            final(self)@ == (SpecState { inputs: strings_view(inputs@), input_pos: 0, ..old(self)@ }),
            final(self).program() == old(self).program(),
            final(self).record_metadata_view() == old(self).record_metadata_view(),
            final(self).depth_limit() == old(self).depth_limit(),
    {
        self.inputs = inputs;
        self.input_pos = 0;
    }

    /// Sets how deep calls may nest.
    pub fn set_max_depth(&mut self, depth: usize)
        ensures
            final(self)@ == old(self)@,
            final(self).program() == old(self).program(),
            final(self).record_metadata_view() == old(self).record_metadata_view(),
            final(self).depth_limit() == depth,
    {
        self.max_depth = depth;
    }

    /// The output written so far.
    pub fn output(&self) -> (r: &Vec<Output>)
        ensures
            outputs_view(r@) == self@.output,
    {
        &self.output
    }
}


/// `find_key` gives the first index whose name is `k`.
pub proof fn lemma_find_key(vs: Seq<(Seq<char>, SpecValue)>, k: Seq<char>, i: int)
    requires
        0 <= i <= vs.len(),
        forall|j: int| 0 <= j < i ==> (#[trigger] vs[j]).0 != k,
        i < vs.len() ==> vs[i].0 == k,
    ensures
        find_key(vs, k) == if i < vs.len() {
            Some(i)
        } else {
            None::<int>
        },
    decreases i,
{
    if i > 0 {
        let t = vs.subrange(1, vs.len() as int);
        assert(vs[0].0 != k);
        assert forall|j: int| 0 <= j < i - 1 implies (#[trigger] t[j]).0 != k by {
            assert(t[j] == vs[j + 1]);
        }
        lemma_find_key(t, k, i - 1);
    }
}

/// The index of the first binding of `k` among the variables of a frame.
fn vars_find(vars: &Vec<(String, Value)>, k: &str) -> (r: Option<usize>)
    ensures
        match r {
            Some(i) => find_key(vars_view(vars@), k@) == Some(i as int) && i < vars@.len(),
            None => find_key(vars_view(vars@), k@) is None,
        },
{
    let ghost vs = vars_view(vars@);
    let mut i: usize = 0;
    while i < vars.len()
        invariant
            i <= vars.len(),
            vs == vars_view(vars@),
            forall|j: int| 0 <= j < i ==> (#[trigger] vs[j]).0 != k@,
        decreases vars.len() - i,
    {
        if crate::text::str_eq(vars[i].0.as_str(), k) {
            proof {
                lemma_find_key(vs, k@, i as int);
            }
            return Some(i);
        }
        i = i + 1;
    }
    proof {
        lemma_find_key(vs, k@, i as int);
    }
    None
}

/// Binds `k` to `v` among the variables of a frame: in place if `k` is bound, else at the end.
fn vars_set(vars: &mut Vec<(String, Value)>, k: String, v: Value)
    ensures
        vars_view(final(vars)@) == vars_insert(vars_view(old(vars)@), k@, v@),
{
    match vars_find(vars, k.as_str()) {
        Some(i) => {
            let ghost kv = k@;
            let ghost vv = v@;
            vars.remove(i);
            vars.insert(i, (k, v));
            proof {
                assert(vars_view(vars@) =~= vars_view(old(vars)@).update(i as int, (kv, vv)));
            }
        },
        None => {
            let ghost kv = k@;
            let ghost vv = v@;
            vars.push((k, v));
            proof {
                assert(vars_view(vars@) =~= vars_view(old(vars)@).push((kv, vv)));
            }
        },
    }
}

/// A value as `print` writes it.
pub fn display_value(v: &Value) -> (r: Output)
    ensures
        output_view(r) == display(v@),
{
    match v {
        Value::Number(n) => Output::Text(Interpreter::rbig_to_float_str(n, 10)),
        Value::Bool(b) => if *b {
            Output::Text(crate::text::string_from_chars(&vec!['t', 'r', 'u', 'e']))
        } else {
            Output::Text(crate::text::string_from_chars(&vec!['f', 'a', 'l', 's', 'e']))
        },
        Value::Null => Output::Text(crate::text::string_from_chars(&vec!['N', 'u', 'l', 'l'])),
        Value::Object(o) => match &**o {
            Object::String { data } => Output::Text(data.clone()),
            _ => Output::Object(o.clone()),
        },
    }
}

/// The text of a value, as `to_string` gives it.
pub fn value_to_text(v: &Value) -> (r: String)
    ensures
        r@ == value_text(v@),
{
    match v {
        Value::Number(n) => Interpreter::rbig_to_float_str(n, 10),
        Value::Bool(b) => if *b {
            crate::text::string_from_chars(&vec!['t', 'r', 'u', 'e'])
        } else {
            crate::text::string_from_chars(&vec!['f', 'a', 'l', 's', 'e'])
        },
        Value::Null => crate::text::string_from_chars(&vec!['N', 'u', 'l', 'l']),
        Value::Object(o) => match &**o {
            Object::String { data } => data.clone(),
            _ => crate::text::string_from_chars(&vec!['O', 'b', 'j', 'e', 'c', 't']),
        },
    }
}

/// The decimal digits of the fractional part `rem / d` after `k` steps: one step more
/// writes the next digit.
proof fn lemma_frac_step(rem: nat, d: nat, k: nat)
    requires
        k > 0,
        rem != 0,
        d != 0,
    ensures
        frac_digits(rem, d, k) == decimal((rem * 10) / d) + frac_digits((rem * 10) % d, d, (k - 1) as nat),
{
}

/// Ten to the power `k` grows with `k`.
proof fn lemma_pow10_mono(a: nat, b: nat)
    requires
        a <= b,
    ensures
        pow10(a) <= pow10(b),
    decreases b,
{
    if a < b {
        lemma_pow10_mono(a, (b - 1) as nat);
    }
}

/// Ten to the power `k`, for `k <= 18`.
fn pow10_exec(k: usize) -> (r: i64)
    requires
        k <= 18,
    ensures
        r == pow10(k as nat),
        r > 0,
{
    proof {
        reveal_with_fuel(pow10, 19);
        assert(pow10(18) == 1000000000000000000);
    }
    let mut p: i64 = 1;
    let mut i: usize = 0;
    while i < k
        invariant
            i <= k <= 18,
            p == pow10(i as nat),
            pow10(18) == 1000000000000000000,
        decreases k - i,
    {
        proof {
            lemma_pow10_mono((i + 1) as nat, 18);
        }
        p = p * 10;
        i = i + 1;
    }
    proof {
        lemma_pow10_mono(0, k as nat);
    }
    p
}

/// `dot_index` gives the first index of `.`.
proof fn lemma_dot_index(s: Seq<char>, i: int)
    requires
        0 <= i <= s.len(),
        forall|j: int| 0 <= j < i ==> s[j] != '.',
        i < s.len() ==> s[i] == '.',
    ensures
        dot_index(s) == i,
    decreases i,
{
    if i > 0 {
        let t = s.subrange(1, s.len() as int);
        assert forall|j: int| 0 <= j < i - 1 implies t[j] != '.' by {
            assert(t[j] == s[j + 1]);
        }
        lemma_dot_index(t, i - 1);
    }
}

/// The index of the first `.` in a text, or its length.
fn find_dot(s: &str) -> (r: usize)
    ensures
        r == dot_index(s@),
        r <= s@.len(),
{
    let n = s.unicode_len();
    let mut i: usize = 0;
    while i < n
        invariant
            n == s@.len(),
            i <= n,
            forall|j: int| 0 <= j < i ==> s@[j] != '.',
        decreases n - i,
    {
        if s.get_char(i) == '.' {
            proof {
                lemma_dot_index(s@, i as int);
            }
            return i;
        }
        i = i + 1;
    }
    proof {
        lemma_dot_index(s@, i as int);
    }
    i
}

/// A rational written as `rug` writes it: `n`, or `n/d` when the denominator is not 1.
pub fn ratio_to_string(r: &Ratio) -> (s: String)
    ensures
        s@ == ratio_text(r@),
{
    proof {
        use_type_invariant(r);
    }
    let mut s = String::new();
    if r.is_negative() {
        crate::text::push_char(&mut s, '-');
    }
    let n = crate::number::nat_to_decimal(&r.numer_abs());
    crate::text::push_str(&mut s, n.as_str());
    let den = r.denom_digits();
    let one: Vec<u32> = vec![1u32];
    let (q, m) = crate::number::nat_div_rem(&den, &one);
    let d = crate::number::nat_to_decimal(&den);
    if !(crate::number::limbs_are_zero(&m) && d.unicode_len() == 1 && d.get_char(0) == '1') {
        crate::text::push_char(&mut s, '/');
        crate::text::push_str(&mut s, d.as_str());
    }
    proof {
        assert(limbs_value(one@) == 1) by {
            reveal_with_fuel(limbs_value, 2);
        }
        reveal_with_fuel(decimal, 2);
        if r@.den != 1 {
            lemma_decimal_one(r@.den as nat);
        }
    }
    s
}

/// Only 1 is written as the text `1`.
proof fn lemma_decimal_one(n: nat)
    requires
        n != 1,
    ensures
        decimal(n) != seq!['1'],
    decreases n,
{
    reveal_with_fuel(decimal, 2);
    if n >= 10 {
        let a = decimal(n / 10);
        lemma_decimal_nonempty(n / 10);
        assert(decimal(n).len() >= 2);
    } else {
        assert(decimal(n)[0] != '1');
    }
}

proof fn lemma_decimal_nonempty(n: nat)
    ensures
        decimal(n).len() >= 1,
    decreases n,
{
    if n >= 10 {
        lemma_decimal_nonempty(n / 10);
    }
}

impl Interpreter {
    /// A number written in decimal: its sign, its integer part, and when the fraction is
    /// not 0, `.` and at most `max_frac` of its digits, cut.
    pub fn rbig_to_float_str(r: &Ratio, max_frac: usize) -> (s: String)
        ensures
            s@ == float_text(r@, max_frac as nat),
    {
        proof {
            use_type_invariant(r);
        }
        let num = r.numer_abs();
        let den = r.denom_digits();
        let ghost n = abs(r@.num);
        let ghost d = r@.den as nat;
        let (q, rem0) = crate::number::nat_div_rem(&num, &den);
        let mut rem = rem0;
        let mut frac = String::new();
        let mut i: usize = 0;
        while i < max_frac && !crate::number::limbs_are_zero(&rem)
            invariant
                i <= max_frac,
                d > 0,
                limbs_value(den@) == d,
                limbs_value(rem@) < d,
                frac@ + frac_digits(limbs_value(rem@), d, (max_frac - i) as nat) == frac_digits(
                    n % d,
                    d,
                    max_frac as nat,
                ),
            decreases max_frac - i,
        {
            let rem10 = crate::number::nat_mul_small(&rem, 10);
            let (digit, rem2) = crate::number::nat_div_rem(&rem10, &den);
            let ds = crate::number::nat_to_decimal(&digit);
            proof {
                lemma_frac_step(limbs_value(rem@), d, (max_frac - i) as nat);
                assert(frac@ + ds@ + frac_digits(limbs_value(rem2@), d, (max_frac - i - 1) as nat)
                    =~= frac@ + (ds@ + frac_digits(limbs_value(rem2@), d, (max_frac - i - 1) as nat)));
            }
            crate::text::push_str(&mut frac, ds.as_str());
            rem = rem2;
            i = i + 1;
        }
        proof {
            assert(frac_digits(limbs_value(rem@), d, (max_frac - i) as nat) =~= seq![]);
            assert(frac@ =~= frac_digits(n % d, d, max_frac as nat));
        }
        let mut s = String::new();
        if r.is_negative() {
            crate::text::push_char(&mut s, '-');
        }
        let ip = crate::number::nat_to_decimal(&q);
        crate::text::push_str(&mut s, ip.as_str());
        if frac.unicode_len() > 0 {
            crate::text::push_char(&mut s, '.');
            crate::text::push_str(&mut s, frac.as_str());
        }
        s
    }

    /// The value of a number literal with a fractional part, `int.frac`; nothing when
    /// either part does not read as an `i64` (digits with an optional sign) or the fraction
    /// has more than 18 digits.
    pub fn parse_float_string(s: &str) -> (r: Option<Ratio>)
        ensures
            match spec_parse_float(s@) {
                Some(v) => r matches Some(x) && x@ == v,
                None => r is None,
            },
    {
        let n = s.unicode_len();
        let i = find_dot(s);
        let ip = s.substring_char(0, i);
        let rest = if i < n {
            s.substring_char(i + 1, n)
        } else {
            ""
        };
        proof {
            if i >= n {
                reveal_strlit("");
                assert(rest@ =~= seq![]);
            }
        }
        let j = find_dot(rest);
        let fp = rest.substring_char(0, j);
        match crate::text::parse_i64(ip) {
            None => None,
            Some(a) => match crate::text::parse_i64(fp) {
                None => None,
                Some(b) => {
                    let len = fp.unicode_len();
                    if len <= 18 {
                        let p = pow10_exec(len);
                        let x = crate::number::rat_from_i64(a);
                        let y = crate::number::rat_from_ratio(b, p);
                        proof {
                            use_type_invariant(&x);
                            use_type_invariant(&y);
                        }
                        Some(crate::number::rat_add_exec(&x, &y))
                    } else {
                        None
                    }
                },
            },
        }
    }
}


/// The mathematical form of an optional value.
pub open spec fn opt_value_view(v: Option<Value>) -> Option<SpecValue> {
    match v {
        Some(x) => Some(x@),
        None => None,
    }
}

/// A run error with no position.
fn plain_error(kind: RunErrorKind) -> (e: RunError)
    ensures
        e@ == (SpecRunError { kind, detail: seq![], l: 0, c: 0 }),
{
    RunError { kind, detail: String::new(), l: 0, c: 0 }
}

/// A run error about `detail` at `l`, `c`.
fn error_at(kind: RunErrorKind, detail: String, l: usize, c: usize) -> (e: RunError)
    ensures
        e@ == (SpecRunError { kind, detail: detail@, l: l as int, c: c as int }),
{
    RunError { kind, detail, l, c }
}

/// All names but the first.
fn strings_tail(v: &Vec<String>) -> (r: Vec<String>)
    requires
        v.len() > 0,
    ensures
        strings_view(r@) == strings_view(v@).subrange(1, v@.len() as int),
{
    let mut r: Vec<String> = Vec::new();
    let mut i: usize = 1;
    while i < v.len()
        invariant
            1 <= i <= v.len(),
            r@ == v@.subrange(1, i as int),
        decreases v.len() - i,
    {
        r.push(v[i].clone());
        assert(v@.subrange(1, i as int).push(v@[i as int]) =~= v@.subrange(1, i + 1));
        i = i + 1;
    }
    assert(strings_view(r@) =~= strings_view(v@).subrange(1, v@.len() as int));
    r
}

/// `+`, `-` and the other one-character operators.
fn op_is1(op: &str, ch: char) -> (r: bool)
    ensures
        r == is_op1(op@, ch),
{
    if op.unicode_len() == 1 {
        let x = op.get_char(0);
        proof {
            if x == ch {
                assert(op@ =~= seq![ch]);
            }
        }
        x == ch
    } else {
        false
    }
}

/// `==`, `<=` and the other two-character operators.
fn op_is2(op: &str, c1: char, c2: char) -> (r: bool)
    ensures
        r == is_op2(op@, c1, c2),
{
    if op.unicode_len() == 2 {
        let x = op.get_char(0);
        let y = op.get_char(1);
        proof {
            if x == c1 && y == c2 {
                assert(op@ =~= seq![c1, c2]);
            }
        }
        x == c1 && y == c2
    } else {
        false
    }
}

/// The name under which a function value is called.
fn lambda_name_string() -> (r: String)
    ensures
        r@ == lambda_name(),
{
    crate::text::string_from_chars(&vec!['L', 'a', 'm', 'b', 'd', 'a', '<', '0', '>'])
}

impl Interpreter {
    /// The program, the record types and the depth limit are those of `other`.
    spec fn env_same(&self, other: &Interpreter) -> bool {
        &&& self.prog == other.prog
        &&& self.record_metadata@ == other.record_metadata@
        &&& self.max_depth == other.max_depth
    }

    fn push_value(&mut self, v: Value)
        ensures
            final(self)@ == push(old(self)@, v@),
            final(self).env_same(old(self)),
    {
        proof {
            lemma_values_view_push(self.stack@, v);
        }
        self.stack.push(v);
    }

    fn pop_value(&mut self) -> (r: Result<Value, RunError>)
        ensures
            match pop(old(self)@) {
                Ok((st, v)) => r matches Ok(x) && x@ == v && final(self)@ == st,
                Err(f) => r matches Err(e) && e@ == f.err && final(self)@ == old(self)@,
            },
            final(self).env_same(old(self)),
    {
        proof {
            lemma_values_view_len(self.stack@);
        }
        if self.stack.len() == 0 {
            return Err(plain_error(RunErrorKind::StackUnderflow));
        }
        proof {
            lemma_values_view_drop_last(self.stack@);
        }
        let v = self.stack.pop().unwrap();
        Ok(v)
    }

    fn write_output(&mut self, o: Output)
        ensures
            final(self)@ == with_output(old(self)@, old(self)@.output.push(output_view(o))),
            final(self).env_same(old(self)),
    {
        self.output.push(o);
        proof {
            assert(outputs_view(self.output@) =~= outputs_view(old(self).output@).push(output_view(o)));
        }
    }

    fn print_values(&mut self, vals: &Vec<Value>)
        ensures
            final(self)@ == print_all(old(self)@, values_view(vals@)),
            final(self).env_same(old(self)),
    {
        let ghost vv = values_view(vals@);
        proof {
            lemma_values_view_len(vals@);
        }
        let mut i: usize = 0;
        while i < vals.len()
            invariant
                i <= vals.len(),
                vv == values_view(vals@),
                vv.len() == vals@.len(),
                self@ == print_all(old(self)@, vv.subrange(0, i as int)),
                self.env_same(old(self)),
            decreases vals.len() - i,
        {
            let o = display_value(&vals[i]);
            proof {
                lemma_values_view_index(vals@, i as int);
            }
            self.write_output(o);
            proof {
                assert(displays(vv.subrange(0, i + 1)) =~= displays(vv.subrange(0, i as int)).push(
                    display(vv[i as int]),
                ));
                assert(old(self)@.output + displays(vv.subrange(0, i + 1)) =~= old(self)@.output
                    + displays(vv.subrange(0, i as int)) + seq![display(vv[i as int])]);
            }
            i = i + 1;
        }
        proof {
            assert(vv.subrange(0, i as int) =~= vv);
        }
    }

    /// Binds `k` to `v` in the current frame.
    fn insert_var(&mut self, k: String, v: Value) -> (r: Result<(), RunError>)
        ensures
            agrees(r, final(self)@, insert_var_last(old(self)@, k@, v@)),
            final(self).env_same(old(self)),
    {
        let n = self.frames.len();
        if n == 0 {
            return Err(plain_error(RunErrorKind::FrameUnderflow));
        }
        let ghost kv = k@;
        let ghost vv = v@;
        let mut f = self.frames.pop().unwrap();
        let ghost f0 = f@;
        vars_set(&mut f.vars, k, v);
        self.frames.push(f);
        proof {
            assert(frames_view(self.frames@) =~= frames_view(old(self).frames@).update(
                n - 1,
                frame_with_vars(f0, vars_insert(f0.vars, kv, vv)),
            ));
        }
        Ok(())
    }

    /// Looks a name up in the current frame, then in the caller's frame, then in the main
    /// frame.
    pub fn find_var(&self, name: &str) -> (r: Result<Option<Value>, RunError>)
        ensures
            match crate::semantics::find_var(self@, name@) {
                Err(f) => r matches Err(e) && e@ == f.err,
                Ok(o) => r matches Ok(x) && opt_value_view(x) == o,
            },
    {
        let n = self.frames.len();
        if n == 0 {
            return Err(plain_error(RunErrorKind::FrameUnderflow));
        }
        match vars_find(&self.frames[n - 1].vars, name) {
            Some(i) => {
                return Ok(Some(copy_value(&self.frames[n - 1].vars[i].1)));
            },
            None => {},
        }
        if n < 2 {
            let mut detail = String::new();
            crate::text::push_str(&mut detail, name);
            return Err(error_at(RunErrorKind::LookupUnderflow, detail, 0, 0));
        }
        match vars_find(&self.frames[n - 2].vars, name) {
            Some(i) => {
                return Ok(Some(copy_value(&self.frames[n - 2].vars[i].1)));
            },
            None => {},
        }
        match vars_find(&self.frames[0].vars, name) {
            Some(i) => Ok(Some(copy_value(&self.frames[0].vars[i].1))),
            None => Ok(None),
        }
    }
}


/// The left side of a `let`.
spec fn let_target(s: Stmt) -> Expr {
    match s {
        Stmt::Let(lhs, _) => *lhs,
        _ => Expr::Null,
    }
}

/// A line break.
fn newline_string() -> (r: String)
    ensures
        r@ == seq!['\n'],
{
    let r = crate::text::string_from_chars(&vec!['\n']);
    assert(r@ =~= seq!['\n']);
    r
}

/// The name of the main frame.
fn main_string() -> (r: String)
    ensures
        r@ == main_text(),
{
    let r = crate::text::string_from_chars(&vec!['<', 'm', 'a', 'i', 'n', '>']);
    assert(r@ =~= main_text());
    r
}

/// `and`.
fn is_and(op: &str) -> (r: bool)
    ensures
        r == (op@ == op_and()),
{
    if op.unicode_len() == 3 {
        let x = op.get_char(0);
        let y = op.get_char(1);
        let z = op.get_char(2);
        proof {
            if x == 'a' && y == 'n' && z == 'd' {
                assert(op@ =~= op_and());
            }
        }
        x == 'a' && y == 'n' && z == 'd'
    } else {
        false
    }
}

impl Interpreter {
    fn pop_discard(&mut self)
        ensures
            final(self)@ == pop_discard(old(self)@),
            final(self).env_same(old(self)),
    {
        proof {
            lemma_values_view_len(self.stack@);
        }
        if self.stack.len() > 0 {
            proof {
                lemma_values_view_drop_last(self.stack@);
            }
            let _ = self.stack.pop();
        }
    }

    /// A binary operator on two numbers.
    fn apply_binary(&mut self, op: &String, a: &Ratio, b: &Ratio, l: usize, c: usize) -> (r: Result<
        (),
        RunError,
    >)
        ensures
            agrees(r, final(self)@, arith(old(self)@, op@, a@, b@, l as int, c as int)),
            final(self).env_same(old(self)),
    {
        proof {
            use_type_invariant(a);
            use_type_invariant(b);
        }
        let o = op.as_str();
        if op_is1(o, '+') {
            self.push_value(Value::Number(rat_add_exec(a, b)));
        } else if op_is1(o, '-') {
            self.push_value(Value::Number(rat_sub_exec(a, b)));
        } else if op_is1(o, '*') {
            self.push_value(Value::Number(rat_mul_exec(a, b)));
        } else if op_is1(o, '/') {
            if b.is_zero() {
                return Err(error_at(RunErrorKind::DivisionByZero, String::new(), l, c));
            }
            self.push_value(Value::Number(rat_div_exec(a, b)));
        } else if op_is1(o, '%') {
            if b.is_zero() {
                return Err(error_at(RunErrorKind::DivisionByZero, String::new(), l, c));
            }
            let q = rat_div_exec(a, b);
            proof {
                use_type_invariant(&q);
            }
            let t = crate::number::rat_trunc_exec(&q);
            proof {
                use_type_invariant(&t);
            }
            let p = rat_mul_exec(b, &t);
            proof {
                use_type_invariant(&p);
            }
            self.push_value(Value::Number(rat_sub_exec(a, &p)));
        } else if op_is1(o, '^') {
            let max = rat_from_i64(2147483647);
            proof {
                use_type_invariant(&max);
            }
            if rat_le_exec(b, &max) {
                proof {
                    lemma_trunc_le_max(b@);
                }
                match rat_trunc_to_i32(b) {
                    None => {
                        return Err(error_at(RunErrorKind::ExponentOutOfRange, String::new(), l, c));
                    },
                    Some(t) => {
                        if t < 0 && a.is_zero() {
                            return Err(error_at(RunErrorKind::DivisionByZero, String::new(), l, c));
                        }
                        self.push_value(Value::Number(rat_pow_exec(a, t)));
                    },
                }
            } else {
                return Err(error_at(RunErrorKind::ExponentTooLarge, ratio_to_string(b), l, c));
            }
        } else if op_is2(o, '=', '=') {
            self.push_value(Value::Bool(rat_eq_exec(a, b)));
        } else if op_is2(o, '!', '=') {
            self.push_value(Value::Bool(!rat_eq_exec(a, b)));
        } else if op_is1(o, '>') {
            self.push_value(Value::Bool(rat_lt_exec(b, a)));
        } else if op_is1(o, '<') {
            self.push_value(Value::Bool(rat_lt_exec(a, b)));
        } else if op_is2(o, '>', '=') {
            self.push_value(Value::Bool(rat_le_exec(b, a)));
        } else if op_is2(o, '<', '=') {
            self.push_value(Value::Bool(rat_le_exec(a, b)));
        } else if op_is1(o, '=') {
        } else {
            return Err(error_at(RunErrorKind::UnknownOperator, op.clone(), l, c));
        }
        Ok(())
    }

    /// Calls a native function on argument values.
    fn call_native(&mut self, b: Builtin, vals: Vec<Value>, l: usize, c: usize) -> (r: Result<
        (),
        RunError,
    >)
        ensures
            agrees(r, final(self)@, call_builtin(old(self)@, b, values_view(vals@), l as int, c as int)),
            final(self).env_same(old(self)),
    {
        proof {
            lemma_values_view_len(vals@);
        }
        match b {
            Builtin::Print => {
                self.print_values(&vals);
                self.push_value(Value::Null);
                Ok(())
            },
            Builtin::Println => {
                self.print_values(&vals);
                self.write_output(Output::Text(newline_string()));
                self.push_value(Value::Null);
                Ok(())
            },
            Builtin::Input => {
                self.print_values(&vals);
                if self.input_pos < self.inputs.len() {
                    let line = self.inputs[self.input_pos].clone();
                    self.input_pos = self.input_pos + 1;
                    self.push_value(Object::new_string_value(line));
                        Ok(())
                } else {
                    Err(error_at(RunErrorKind::NeedInput, String::new(), l, c))
                }
            },
            Builtin::TypeInfo => {
                if vals.len() != 1 {
                    return Err(
                        error_at(
                            RunErrorKind::BuiltinArity,
                            crate::text::string_from_chars(
                                &vec!['t', 'y', 'p', 'e', '_', 'i', 'n', 'f', 'o'],
                            ),
                            0,
                            0,
                        ),
                    );
                }
                proof {
                    lemma_values_view_index(vals@, 0);
                }
                self.push_value(Object::new_string_value(vals[0].type_info()));
                Ok(())
            },
            Builtin::ToString => {
                if vals.len() != 1 {
                    return Err(
                        error_at(
                            RunErrorKind::BuiltinArity,
                            crate::text::string_from_chars(
                                &vec!['t', 'o', '_', 's', 't', 'r', 'i', 'n', 'g'],
                            ),
                            0,
                            0,
                        ),
                    );
                }
                proof {
                    lemma_values_view_index(vals@, 0);
                }
                self.push_value(Object::new_string_value(value_to_text(&vals[0])));
                Ok(())
            },
            Builtin::Main => {
                self.write_output(
                    Output::Text(main_string()),
                );
                self.write_output(Output::Text(newline_string()));
                self.push_value(Value::Null);
                Ok(())
            },
            Builtin::StringSub => match crate::builtins::string::try_sub(ModuleFuncArgs::new(vals)) {
                Ok(v) => {
                    self.push_value(v);
                    Ok(())
                },
                Err(e) => Err(e),
            },
            Builtin::StringCat => match crate::builtins::string::try_cat(ModuleFuncArgs::new(vals)) {
                Ok(v) => {
                    self.push_value(v);
                    Ok(())
                },
                Err(e) => Err(e),
            },
        }
    }
}

/// A number at most `i32::MAX` has an integer part at most `i32::MAX`.
proof fn lemma_trunc_le_max(b: Rat)
    requires
        b.den > 0,
        rat_le(b, rat_of_int(i32::MAX as int)),
    ensures
        rat_trunc(b) <= i32::MAX,
{
    if b.num >= 0 {
        assert(b.num <= i32::MAX * b.den);
        assert(b.num / b.den <= i32::MAX) by (nonlinear_arith)
            requires
                b.num <= i32::MAX * b.den,
                b.den > 0,
                b.num >= 0,
        ;
    } else {
        assert((-b.num) / b.den >= 0) by (nonlinear_arith)
            requires
                b.num < 0,
                b.den > 0,
        ;
    }
}


impl Interpreter {
    /// Evaluates an expression at depth budget `d`: its value, if it has one, goes on the
    /// value stack.
    fn eval_expr(&mut self, d: usize, e: &Expr, l: usize, c: usize) -> (r: Result<(), RunError>)
        ensures
            agrees(r, final(self)@, sem_expr(d as nat, old(self)@, e@, l as int, c as int)),
            final(self).env_same(old(self)),
        decreases d, e, 2nat,
    {
        match e {
            Expr::Number(n) => {
                self.push_value(Value::Number(rat_from_i64(*n)));
                Ok(())
            },
            Expr::Float(text) => match Interpreter::parse_float_string(text.as_str()) {
                Some(x) => {
                    self.push_value(Value::Number(x));
                    Ok(())
                },
                None => Err(error_at(RunErrorKind::InvalidFloat, text.clone(), l, c)),
            },
            Expr::String(text) => {
                self.push_value(Object::new_string_value(text.clone()));
                Ok(())
            },
            Expr::Ident(name) => match self.find_var(name.as_str()) {
                Err(err) => Err(err),
                Ok(Some(v)) => {
                    self.push_value(v);
                    Ok(())
                },
                Ok(None) => Err(error_at(RunErrorKind::UndefinedVariable, name.clone(), l, c)),
            },
            Expr::BinaryOp(_, _, _) => self.eval_binary(d, e, l, c),
            Expr::UnaryOp(_, _) => self.eval_unary(d, e, l, c),
            Expr::Assign(name, init) => {
                let r1 = self.eval_expr(d, init, l, c);
                if r1.is_err() {
                    return r1;
                }
                match self.pop_value() {
                    Err(err) => Err(err),
                    Ok(v) => self.insert_var(name.clone(), v),
                }
            },
            Expr::Block(_) => self.eval_block_expr(d, e, l, c),
            Expr::Call(_, _) => self.eval_named_call(d, e, l, c),
            Expr::DynCall(_, _) => self.eval_dyn_call(d, e, l, c),
            Expr::Lambda(ps, body) => {
                let func = Function {
                    params: clone_strings(ps),
                    body: FunctionImpl::General(Stmt::NotPopValueExpr(Box::new(clone_expr(body)))),
                };
                self.push_value(Value::Object(Arc::new(Object::Function { func })));
                Ok(())
            },
            Expr::Null => Ok(()),
            Expr::IdentList(_) => Err(error_at(RunErrorKind::Unreachable, String::new(), l, c)),
            Expr::If(_, _, _) => self.eval_if(d, e, l, c),
        }
    }

    fn eval_binary(&mut self, d: usize, e: &Expr, l: usize, c: usize) -> (r: Result<(), RunError>)
        requires
            e is BinaryOp,
        ensures
            agrees(r, final(self)@, sem_expr(d as nat, old(self)@, e@, l as int, c as int)),
            final(self).env_same(old(self)),
        decreases d, e, 1nat,
    {
        match e {
            Expr::BinaryOp(lhs, op, rhs) => {
                let r1 = self.eval_expr(d, lhs, l, c);
                if r1.is_err() {
                    return r1;
                }
                let lv = match self.pop_value() {
                    Err(err) => {
                        return Err(err);
                    },
                    Ok(v) => v,
                };
                match lv {
                    Value::Number(a) => {
                        let r3 = self.eval_expr(d, rhs, l, c);
                        if r3.is_err() {
                            return r3;
                        }
                        let rv = match self.pop_value() {
                            Err(err) => {
                                return Err(err);
                            },
                            Ok(v) => v,
                        };
                        match rv {
                            Value::Number(b) => self.apply_binary(op, &a, &b, l, c),
                            _ => Ok(()),
                        }
                    },
                    Value::Bool(a) => {
                        let and = is_and(op.as_str());
                        let or = op_is2(op.as_str(), 'o', 'r');
                        if !(and || or) {
                            return Err(error_at(RunErrorKind::BinaryTypeError, op.clone(), l, c));
                        }
                        let r3 = self.eval_expr(d, rhs, l, c);
                        if r3.is_err() {
                            return r3;
                        }
                        let rv = match self.pop_value() {
                            Err(err) => {
                                return Err(err);
                            },
                            Ok(v) => v,
                        };
                        match rv {
                            Value::Bool(b) => {
                                let x = if and {
                                    a && b
                                } else {
                                    a || b
                                };
                                self.push_value(Value::Bool(x));
                                Ok(())
                            },
                            _ => Err(error_at(RunErrorKind::BinaryTypeError, op.clone(), l, c)),
                        }
                    },
                    _ => Err(error_at(RunErrorKind::BinaryTypeError, op.clone(), l, c)),
                }
            },
            _ => Ok(()),
        }
    }

    fn eval_unary(&mut self, d: usize, e: &Expr, l: usize, c: usize) -> (r: Result<(), RunError>)
        requires
            e is UnaryOp,
        ensures
            agrees(r, final(self)@, sem_expr(d as nat, old(self)@, e@, l as int, c as int)),
            final(self).env_same(old(self)),
        decreases d, e, 1nat,
    {
        match e {
            Expr::UnaryOp(op, x) => {
                let r1 = self.eval_expr(d, x, l, c);
                if r1.is_err() {
                    return r1;
                }
                let v = match self.pop_value() {
                    Err(err) => {
                        return Err(err);
                    },
                    Ok(v) => v,
                };
                match v {
                    Value::Number(n) => if op_is1(op.as_str(), '-') {
                        proof {
                            use_type_invariant(&n);
                        }
                        self.push_value(Value::Number(rat_neg_exec(&n)));
                        Ok(())
                    } else {
                        Err(error_at(RunErrorKind::UnknownUnaryOperator, op.clone(), l, c))
                    },
                    Value::Bool(b) => if op_is1(op.as_str(), '!') {
                        self.push_value(Value::Bool(!b));
                        Ok(())
                    } else {
                        Err(error_at(RunErrorKind::UnknownUnaryOperator, op.clone(), l, c))
                    },
                    _ => Err(error_at(RunErrorKind::UnaryTypeError, op.clone(), l, c)),
                }
            },
            _ => Ok(()),
        }
    }

    fn eval_if(&mut self, d: usize, e: &Expr, l: usize, c: usize) -> (r: Result<(), RunError>)
        requires
            e is If,
        ensures
            agrees(r, final(self)@, sem_expr(d as nat, old(self)@, e@, l as int, c as int)),
            final(self).env_same(old(self)),
        decreases d, e, 1nat,
    {
        match e {
            Expr::If(cond, then, els) => {
                let r1 = self.eval_expr(d, cond, l, c);
                if r1.is_err() {
                    return r1;
                }
                let v = match self.pop_value() {
                    Err(err) => {
                        return Err(err);
                    },
                    Ok(v) => v,
                };
                match v {
                    Value::Bool(b) => if b {
                        self.eval_expr(d, then, l, c)
                    } else {
                        match els {
                            Some(x) => self.eval_expr(d, x, l, c),
                            None => {
                                self.push_value(Value::Null);
                                Ok(())
                            },
                        }
                    },
                    _ => Err(error_at(RunErrorKind::IfCondition, v.type_info(), l, c)),
                }
            },
            _ => Ok(()),
        }
    }

    fn eval_block_expr(&mut self, d: usize, e: &Expr, l: usize, c: usize) -> (r: Result<(), RunError>)
        requires
            e is Block,
        ensures
            agrees(r, final(self)@, sem_expr(d as nat, old(self)@, e@, l as int, c as int)),
            final(self).env_same(old(self)),
        decreases d, e, 1nat,
    {
        match e {
            Expr::Block(nodes) => {
                let n = self.frames.len();
                if n == 0 {
                    return Err(plain_error(RunErrorKind::FrameUnderflow));
                }
                let saved = copy_frame(&self.frames[n - 1]);
                let r1 = self.eval_block(d, nodes);
                if r1.is_err() {
                    return r1;
                }
                let m = self.frames.len();
                if m > 0 {
                    let ghost before = self.frames@;
                    let _ = self.frames.pop();
                    self.frames.push(saved);
                    proof {
                        assert(frames_view(self.frames@) =~= frames_view(before).update(m - 1, saved@));
                    }
                }
                Ok(())
            },
            _ => Ok(()),
        }
    }

    /// Runs statements in order.
    fn eval_block(&mut self, d: usize, nodes: &Vec<Node>) -> (r: Result<(), RunError>)
        ensures
            agrees(r, final(self)@, sem_block(d as nat, old(self)@, nodes_view(nodes@))),
            final(self).env_same(old(self)),
        decreases d, nodes, 1nat,
    {
        let ghost ss = nodes_view(nodes@);
        proof {
            lemma_nodes_view_len(nodes@);
        }
        let n = nodes.len();
        proof {
            assert(ss.subrange(0, n as int) =~= ss);
        }
        let mut i: usize = 0;
        while i < n
            invariant
                i <= n,
                n == nodes@.len(),
                ss == nodes_view(nodes@),
                ss.len() == n,
                self.env_same(old(self)),
                sem_block(d as nat, old(self)@, ss) == sem_block(d as nat, self@, ss.subrange(i as int, n as int)),
            decreases n - i,
        {
            proof {
                lemma_nodes_view_index(nodes@, i as int);
                assert(ss.subrange(i as int, n as int).subrange(1, n - i) =~= ss.subrange(i + 1, n as int));
            }
            let r1 = self.eval_stmt(d, &nodes[i].stmt, nodes[i].l, nodes[i].c);
            if r1.is_err() {
                return r1;
            }
            i = i + 1;
        }
        proof {
            assert(ss.subrange(i as int, n as int) =~= seq![]);
        }
        Ok(())
    }

    fn eval_named_call(&mut self, d: usize, e: &Expr, l: usize, c: usize) -> (r: Result<(), RunError>)
        requires
            e is Call,
        ensures
            agrees(r, final(self)@, sem_expr(d as nat, old(self)@, e@, l as int, c as int)),
            final(self).env_same(old(self)),
        decreases d, e, 1nat,
    {
        match e {
            Expr::Call(name, args) => match self.find_var(name.as_str()) {
                Err(err) => Err(err),
                Ok(Some(Value::Object(o))) => match &*o {
                    Object::Function { func } => {
                        let f = copy_function(func);
                        self.func_call_at(d, name, &f, args, l, c)
                    },
                    _ => Err(error_at(RunErrorKind::UndefinedFunction, name.clone(), l, c)),
                },
                Ok(_) => Err(error_at(RunErrorKind::UndefinedFunction, name.clone(), l, c)),
            },
            _ => Ok(()),
        }
    }

    fn eval_dyn_call(&mut self, d: usize, e: &Expr, l: usize, c: usize) -> (r: Result<(), RunError>)
        requires
            e is DynCall,
        ensures
            agrees(r, final(self)@, sem_expr(d as nat, old(self)@, e@, l as int, c as int)),
            final(self).env_same(old(self)),
        decreases d, e, 1nat,
    {
        match e {
            Expr::DynCall(fe, args) => {
                let r1 = self.eval_expr(d, fe, l, c);
                if r1.is_err() {
                    return r1;
                }
                proof {
                    lemma_values_view_len(self.stack@);
                }
                if self.stack.len() == 0 {
                    return Err(error_at(RunErrorKind::NoValue, String::new(), l, c));
                }
                proof {
                    lemma_values_view_drop_last(self.stack@);
                }
                let v = self.stack.pop().unwrap();
                match v {
                    Value::Object(o) => match &*o {
                        Object::Function { func } => {
                            let f = copy_function(func);
                            self.func_call_at(d, &lambda_name_string(), &f, args, l, c)
                        },
                        _ => Err(error_at(RunErrorKind::UndefinedFunction, lambda_name_string(), l, c)),
                    },
                    _ => Err(error_at(RunErrorKind::NotCallable, String::new(), l, c)),
                }
            },
            _ => Ok(()),
        }
    }

    /// Runs a statement at depth budget `d`.
    fn eval_stmt(&mut self, d: usize, s: &Stmt, l: usize, c: usize) -> (r: Result<(), RunError>)
        ensures
            agrees(r, final(self)@, sem_stmt(d as nat, old(self)@, s@, l as int, c as int)),
            final(self).env_same(old(self)),
        decreases d, s, 2nat,
    {
        match s {
            Stmt::TailReturn(e) => self.eval_expr(d, e, l, c),
            Stmt::Return(e) => if self.frames.len() == 1 {
                Err(error_at(RunErrorKind::CannotReturnFromMain, String::new(), l, c))
            } else {
                self.eval_expr(d, e, l, c)
            },
            Stmt::Expr(e) => {
                let r1 = self.eval_expr(d, e, l, c);
                if r1.is_err() {
                    return r1;
                }
                self.pop_discard();
                Ok(())
            },
            Stmt::NotPopValueExpr(e) => self.eval_expr(d, e, l, c),
            Stmt::Let(_, _) => self.eval_let(d, s, l, c),
        }
    }

    fn eval_let(&mut self, d: usize, s: &Stmt, l: usize, c: usize) -> (r: Result<(), RunError>)
        requires
            s is Let,
        ensures
            agrees(r, final(self)@, sem_stmt(d as nat, old(self)@, s@, l as int, c as int)),
            final(self).env_same(old(self)),
        decreases d, s, 1nat,
    {
        match s {
            Stmt::Let(lhs, rn) => match &**lhs {
                Expr::Ident(name) => match &rn.stmt {
                    Stmt::NotPopValueExpr(e) => {
                        proof {
                            assert(s@ == SpecStmt::Let(Box::new(lhs@), Box::new(rn@)));
                            assert(rn@ == SpecNode { stmt: rn.stmt@, l: rn.l as int, c: rn.c as int });
                            assert(rn.stmt@ == SpecStmt::NotPopValueExpr(Box::new(e@)));
                        }
                        self.eval_let_var(d, name, e, rn.l, rn.c)
                    },
                    _ => Err(error_at(RunErrorKind::LetTarget, String::new(), l, c)),
                },
                Expr::IdentList(_) => self.define_function(s, l, c),
                _ => Err(error_at(RunErrorKind::LetTarget, String::new(), l, c)),
            },
            _ => Ok(()),
        }
    }

    /// `let name = expr;`: binds `name` to the value of `e`, evaluated at `l`, `c`.
    fn eval_let_var(&mut self, d: usize, name: &String, e: &Expr, l: usize, c: usize) -> (r: Result<
        (),
        RunError,
    >)
        ensures
            agrees(r, final(self)@, sem_let_value(d as nat, old(self)@, name@, e@, l as int, c as int)),
            final(self).env_same(old(self)),
        decreases d, e, 3nat,
    {
        let r1 = self.eval_expr(d, e, l, c);
        if r1.is_err() {
            return r1;
        }
        match self.pop_value() {
            Err(err) => Err(err),
            Ok(v) => self.insert_var(name.clone(), v),
        }
    }

    /// `let name params = body;`: binds `name` to a function of the program.
    fn define_function(&mut self, s: &Stmt, l: usize, c: usize) -> (r: Result<(), RunError>)
        requires
            s is Let && let_target(*s) is IdentList,
        ensures
            forall|d: nat| agrees(r, final(self)@, #[trigger] sem_stmt(d, old(self)@, s@, l as int, c as int)),
            final(self).env_same(old(self)),
    {
        match s {
            Stmt::Let(lhs, rn) => match &**lhs {
                Expr::IdentList(ps) => if ps.len() == 0 {
                    Err(error_at(RunErrorKind::EmptyParamList, String::new(), l, c))
                } else {
                    let fname = ps[0].clone();
                    let func = Function {
                        params: strings_tail(ps),
                        body: FunctionImpl::General(clone_stmt(&rn.stmt)),
                    };
                    self.insert_var(fname, Value::Object(Arc::new(Object::Function { func })))
                },
                _ => Ok(()),
            },
            _ => Ok(()),
        }
    }

    /// Evaluates arguments into parameter bindings, pairwise, as far as both lists go.
    fn bind_args(
        &mut self,
        d: usize,
        params: &Vec<String>,
        args: &Vec<Expr>,
        l: usize,
        c: usize,
    ) -> (r: Result<Vec<(String, Value)>, RunError>)
        ensures
            match sem_bind(d as nat, old(self)@, strings_view(params@), exprs_view(args@), seq![], l as int, c as int) {
                Ok((st, vars)) => r matches Ok(v) && vars_view(v@) == vars && final(self)@ == st,
                Err(f) => r matches Err(e) && e@ == f.err && final(self)@.output == f.output,
            },
            final(self).env_same(old(self)),
        decreases d, args, 0nat,
    {
        let ghost as_ = exprs_view(args@);
        let ghost ps = strings_view(params@);
        proof {
            lemma_exprs_view_len(args@);
        }
        let na = args.len();
        let np = params.len();
        let mut vars: Vec<(String, Value)> = Vec::new();
        proof {
            assert(vars_view(vars@) =~= seq![]);
            assert(ps.subrange(0, np as int) =~= ps);
            assert(as_.subrange(0, na as int) =~= as_);
        }
        let mut i: usize = 0;
        while i < np && i < na
            invariant
                i <= np,
                i <= na,
                np == params@.len(),
                na == args@.len(),
                ps == strings_view(params@),
                as_ == exprs_view(args@),
                as_.len() == na,
                self.env_same(old(self)),
                sem_bind(d as nat, old(self)@, ps, as_, seq![], l as int, c as int) == sem_bind(
                    d as nat,
                    self@,
                    ps.subrange(i as int, np as int),
                    as_.subrange(i as int, na as int),
                    vars_view(vars@),
                    l as int,
                    c as int,
                ),
            decreases na - i,
        {
            proof {
                lemma_exprs_view_index(args@, i as int);
                assert(ps.subrange(i as int, np as int).subrange(1, np - i) =~= ps.subrange(i + 1, np as int));
                assert(as_.subrange(i as int, na as int).subrange(1, na - i) =~= as_.subrange(i + 1, na as int));
            }
            let r1 = self.eval_expr(d, &args[i], l, c);
            match r1 {
                Err(err) => {
                    return Err(err);
                },
                Ok(_) => {},
            }
            let v = match self.pop_value() {
                Err(err) => {
                    return Err(err);
                },
                Ok(v) => v,
            };
            vars_set(&mut vars, params[i].clone(), v);
            i = i + 1;
        }
        Ok(vars)
    }

    /// Evaluates all arguments into values.
    fn eval_args(&mut self, d: usize, args: &Vec<Expr>, l: usize, c: usize) -> (r: Result<
        Vec<Value>,
        RunError,
    >)
        ensures
            match sem_args(d as nat, old(self)@, exprs_view(args@), seq![], l as int, c as int) {
                Ok((st, vals)) => r matches Ok(v) && values_view(v@) == vals && final(self)@ == st,
                Err(f) => r matches Err(e) && e@ == f.err && final(self)@.output == f.output,
            },
            final(self).env_same(old(self)),
        decreases d, args, 0nat,
    {
        let ghost as_ = exprs_view(args@);
        proof {
            lemma_exprs_view_len(args@);
        }
        let na = args.len();
        let mut vals: Vec<Value> = Vec::new();
        proof {
            assert(values_view(vals@) =~= seq![]);
            assert(as_.subrange(0, na as int) =~= as_);
        }
        let mut i: usize = 0;
        while i < na
            invariant
                i <= na,
                na == args@.len(),
                as_ == exprs_view(args@),
                as_.len() == na,
                self.env_same(old(self)),
                sem_args(d as nat, old(self)@, as_, seq![], l as int, c as int) == sem_args(
                    d as nat,
                    self@,
                    as_.subrange(i as int, na as int),
                    values_view(vals@),
                    l as int,
                    c as int,
                ),
            decreases na - i,
        {
            proof {
                lemma_exprs_view_index(args@, i as int);
                assert(as_.subrange(i as int, na as int).subrange(1, na - i) =~= as_.subrange(i + 1, na as int));
            }
            let r1 = self.eval_expr(d, &args[i], l, c);
            match r1 {
                Err(err) => {
                    return Err(err);
                },
                Ok(_) => {},
            }
            let v = match self.pop_value() {
                Err(err) => {
                    return Err(err);
                },
                Ok(v) => v,
            };
            proof {
                lemma_values_view_push(vals@, v);
            }
            vals.push(v);
            i = i + 1;
        }
        proof {
            assert(as_.subrange(i as int, na as int) =~= seq![]);
        }
        Ok(vals)
    }

    /// Calls `f` under the name `name` on argument expressions at depth budget `d`.
    fn func_call_at(
        &mut self,
        d: usize,
        name: &String,
        f: &Function,
        args: &Vec<Expr>,
        l: usize,
        c: usize,
    ) -> (r: Result<(), RunError>)
        ensures
            agrees(
                r,
                final(self)@,
                sem_call(d as nat, old(self)@, name@, function_view(*f), exprs_view(args@), l as int, c as int),
            ),
            final(self).env_same(old(self)),
        decreases d, args, 1nat,
    {
        match &f.body {
            FunctionImpl::General(body) => {
                if d == 0 {
                    return Err(error_at(RunErrorKind::CallDepthExceeded, name.clone(), l, c));
                }
                let vars = match self.bind_args(d, &f.params, args, l, c) {
                    Err(err) => {
                        return Err(err);
                    },
                    Ok(vars) => vars,
                };
                let frame = FunctionFrame {
                    name: name.clone(),
                    vars,
                    func: Some(copy_function(f)),
                    last_ret_idx: 0,
                };
                let ghost before = self.frames@;
                self.frames.push(frame);
                proof {
                    assert(frames_view(self.frames@) =~= frames_view(before).push(frame@));
                }
                let r2 = self.eval_stmt(d - 1, body, l, c);
                if r2.is_err() {
                    return r2;
                }
                if self.frames.len() == 0 {
                    return Err(plain_error(RunErrorKind::FrameUnderflow));
                }
                let ghost before2 = self.frames@;
                let _ = self.frames.pop();
                proof {
                    assert(frames_view(self.frames@) =~= frames_view(before2).subrange(0, before2.len() - 1));
                }
                Ok(())
            },
            FunctionImpl::Native(b) => {
                let vals = match self.eval_args(d, args, l, c) {
                    Err(err) => {
                        return Err(err);
                    },
                    Ok(vals) => vals,
                };
                self.call_native(*b, vals, l, c)
            },
        }
    }
}


/// A module: functions and sub-modules.
pub struct Module {
    pub functions: Vec<Function>,
    pub sub_modules: Vec<Module>,
}

/// What running the program gives at depth budget `d` from state `st`: its statements run in order.
pub open spec fn sem_program(d: nat, st: SpecState, prog: Seq<SpecNode>) -> Sem {
    sem_block(d, st, prog)
}

/// The function value that `new_func` binds: one parameter, `@`, and a native body.
pub open spec fn native_function_value(b: Builtin) -> SpecValue {
    SpecValue::Object(
        SpecObject::Function(SpecFunction { params: seq![seq!['@']], body: SpecBody::Native(b) }),
    )
}

/// `st` with `k` bound to `v` in the main frame.
pub open spec fn bind_in_main(st: SpecState, k: Seq<char>, v: SpecValue) -> SpecState {
    with_frames(st, st.frames.update(0, frame_with_vars(st.frames[0], vars_insert(st.frames[0].vars, k, v))))
}

impl Interpreter {
    /// Runs the program's statements in order, at the interpreter's depth limit.
    pub fn interpret(&mut self) -> (r: Result<(), RunError>)
        ensures
            agrees(r, final(self)@, sem_program(old(self).depth_limit(), old(self)@, old(self).program()@)),
            final(self).program() == old(self).program(),
            final(self).record_metadata_view() == old(self).record_metadata_view(),
            final(self).depth_limit() == old(self).depth_limit(),
    {
        let nodes = clone_nodes(&self.prog.body);
        let d = self.max_depth;
        self.eval_block(d, &nodes)
    }

    /// Calls `func` under the name `name` on argument expressions, at the interpreter's
    /// depth limit.
    pub fn func_calling(&mut self, name: &String, func: Function, args: &Vec<Expr>, l: usize, c: usize) -> (r:
        Result<(), RunError>)
        ensures
            agrees(
                r,
                final(self)@,
                sem_call(
                    old(self).depth_limit(),
                    old(self)@,
                    name@,
                    function_view(func),
                    exprs_view(args@),
                    l as int,
                    c as int,
                ),
            ),
            final(self).program() == old(self).program(),
            final(self).record_metadata_view() == old(self).record_metadata_view(),
            final(self).depth_limit() == old(self).depth_limit(),
    {
        let d = self.max_depth;
        self.func_call_at(d, name, &func, args, l, c)
    }

    /// The current frame.
    pub fn cur_frame(&self) -> (r: &FunctionFrame)
        requires
            self@.frames.len() > 0,
        ensures
            r@ == self@.frames.last(),
    {
        &self.frames[self.frames.len() - 1]
    }

    /// The current frame, to change it.
    pub fn cur_frame_mut(&mut self) -> (r: &mut FunctionFrame)
        requires
            old(self)@.frames.len() > 0,
        ensures
            r@ == old(self)@.frames.last(),
            final(self)@ == with_frames(
                old(self)@,
                old(self)@.frames.update(old(self)@.frames.len() - 1, final(r)@),
            ),
            final(self).program() == old(self).program(),
            final(self).record_metadata_view() == old(self).record_metadata_view(),
            final(self).depth_limit() == old(self).depth_limit(),
    {
        let n = self.frames.len();
        let ghost before = self.frames@;
        let r = &mut self.frames[n - 1];
        proof {
            assert(frames_view(after_borrow(self.frames)@) =~= frames_view(before).update(n - 1, (*final(r))@));
        }
        r
    }

    /// Adds a record type: its name, member functions and field indices; its size is the
    /// number of fields.
    pub fn new_record_decl(
        &mut self,
        name: String,
        member_funcs: Vec<(String, ObjectRef)>,
        members: Option<Vec<(String, usize)>>,
    )
        ensures
            final(self)@ == old(self)@,
            final(self).program() == old(self).program(),
            final(self).depth_limit() == old(self).depth_limit(),
            final(self).record_metadata_view().len() == old(self).record_metadata_view().len() + 1,
            final(self).record_metadata_view().subrange(0, old(self).record_metadata_view().len() as int)
                == old(self).record_metadata_view(),
            final(self).record_metadata_view().last() == (ObjectMetadata {
                name,
                size: match members {
                    Some(m) => m@.len() as usize,
                    None => 0,
                },
                member_funcs,
                members,
            }),
    {
        let size = match &members {
            Some(m) => m.len(),
            None => 0,
        };
        self.record_metadata.push(ObjectMetadata { name, size, member_funcs, members });
        proof {
            assert(self.record_metadata@.subrange(0, old(self).record_metadata@.len() as int)
                =~= old(self).record_metadata@);
        }
    }

    /// The record types, to change them.
    pub fn get_record_metadata_mut(&mut self) -> (r: &mut Vec<ObjectMetadata>)
        ensures
            r@ == old(self).record_metadata_view(),
            final(self).record_metadata_view() == final(r)@,
            final(self)@ == old(self)@,
            final(self).program() == old(self).program(),
            final(self).depth_limit() == old(self).depth_limit(),
    {
        &mut self.record_metadata
    }

    /// Binds `name` in the main frame to a native function of one parameter, `@`.
    pub fn new_func(&mut self, name: String, func: ModuleFnPtr)
        requires
            old(self)@.frames.len() > 0,
        ensures
            final(self)@ == bind_in_main(old(self)@, name@, native_function_value(func)),
            final(self).program() == old(self).program(),
            final(self).record_metadata_view() == old(self).record_metadata_view(),
            final(self).depth_limit() == old(self).depth_limit(),
    {
        let mut params: Vec<String> = Vec::new();
        let at = crate::text::string_from_chars(&vec!['@']);
        assert(at@ =~= seq!['@']);
        params.push(at);
        proof {
            assert(strings_view(params@) =~= seq![seq!['@']]);
        }
        let v = Value::Object(Arc::new(Object::Function { func: Function { params, body: FunctionImpl::Native(func) } }));
        self.new_var(name, v);
    }

    /// Binds `name` to `var` in the main frame.
    pub fn new_var(&mut self, name: String, var: Value)
        requires
            old(self)@.frames.len() > 0,
        ensures
            final(self)@ == bind_in_main(old(self)@, name@, var@),
            final(self).program() == old(self).program(),
            final(self).record_metadata_view() == old(self).record_metadata_view(),
            final(self).depth_limit() == old(self).depth_limit(),
    {
        let ghost k = name@;
        let ghost v = var@;
        let ghost f0 = self.frames@[0]@;
        let mut f = self.frames.remove(0);
        vars_set(&mut f.vars, name, var);
        self.frames.insert(0, f);
        proof {
            assert(frames_view(self.frames@) =~= frames_view(old(self).frames@).update(
                0,
                frame_with_vars(f0, vars_insert(f0.vars, k, v)),
            ));
        }
    }
}


/// The value of `name` in the last frame that binds it.
pub open spec fn find_in_frames(frames: Seq<SpecFrame>, name: Seq<char>) -> Option<SpecValue>
    decreases frames.len(),
{
    if frames.len() == 0 {
        None
    } else {
        match vars_get(frames.last().vars, name) {
            Some(v) => Some(v),
            None => find_in_frames(frames.subrange(0, frames.len() - 1), name),
        }
    }
}

impl Interpreter {
    /// The number of frames.
    pub fn frame_count(&self) -> (r: usize)
        ensures
            r == self@.frames.len(),
    {
        self.frames.len()
    }

    /// The value on top of the value stack.
    pub fn stack_top(&self) -> (r: Option<Value>)
        ensures
            opt_value_view(r) == if self@.stack.len() > 0 {
                Some(self@.stack.last())
            } else {
                None::<SpecValue>
            },
    {
        proof {
            lemma_values_view_len(self.stack@);
        }
        if self.stack.len() == 0 {
            None
        } else {
            proof {
                lemma_values_view_index(self.stack@, self.stack@.len() - 1);
            }
            Some(copy_value(&self.stack[self.stack.len() - 1]))
        }
    }

    /// The value of `name` in the last frame that binds it, searching from the current
    /// frame down to the main frame.
    pub fn var_in_any_frame(&self, name: &str) -> (r: Option<Value>)
        ensures
            opt_value_view(r) == find_in_frames(self@.frames, name@),
    {
        let ghost fr = self@.frames;
        let mut i: usize = self.frames.len();
        proof {
            assert(fr.subrange(0, i as int) =~= fr);
        }
        while i > 0
            invariant
                i <= self.frames@.len(),
                fr == self@.frames,
                fr.len() == self.frames@.len(),
                find_in_frames(fr, name@) == find_in_frames(fr.subrange(0, i as int), name@),
            decreases i,
        {
            let ghost pre = fr.subrange(0, i as int);
            proof {
                assert(pre.subrange(0, pre.len() - 1) =~= fr.subrange(0, i - 1));
            }
            match vars_find(&self.frames[i - 1].vars, name) {
                Some(j) => {
                    return Some(copy_value(&self.frames[i - 1].vars[j].1));
                },
                None => {},
            }
            i = i - 1;
        }
        None
    }
}

} // verus!
