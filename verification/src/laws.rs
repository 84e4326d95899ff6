//! What holds of every run: the laws of the interpreter's semantics.
use vstd::prelude::*;

use crate::ast::{SpecExpr, SpecNode, SpecStmt};
use crate::builtins::Builtin;
use crate::interpreter::SpecValue;
use crate::objects::{SpecBody, SpecFunction, SpecObject};
use crate::interpreter::SpecFrame;
use crate::number::frac_digits;
use crate::semantics::{
    pow10,
    arith, call_builtin, insert_var_last, lambda_name, main_text, newline, pop, print_all, sem_args,
    sem_bind, sem_block, sem_call, sem_expr, sem_let_value, sem_stmt, vars_insert, with_frames,
    with_stack, find_key, vars_get, Failure, Sem, SpecOutput, SpecState,
};

verus! {

/// `a` is a prefix of `b`.
pub open spec fn prefix_of(a: Seq<SpecOutput>, b: Seq<SpecOutput>) -> bool {
    a.len() <= b.len() && forall|i: int| 0 <= i < a.len() ==> #[trigger] b[i] == a[i]
}

/// What a successful step keeps between its start `st` and its end `st1`: as many frames,
/// every frame but the current one unchanged,
/// the same input lines, a read position that only moves forward, and the output written
/// before.
pub open spec fn keeps(st: SpecState, st1: SpecState) -> bool {
    &&& st1.frames.len() == st.frames.len()
    &&& forall|i: int| 0 <= i < st.frames.len() - 1 ==> #[trigger] st1.frames[i] == st.frames[i]
    &&& st1.inputs == st.inputs
    &&& st.input_pos <= st1.input_pos
    &&& prefix_of(st.output, st1.output)
}

/// `keeps` for an outcome: on failure, the output written before is still a prefix.
pub open spec fn outcome_keeps(st: SpecState, r: Sem) -> bool {
    match r {
        Ok(st1) => keeps(st, st1),
        Err(f) => prefix_of(st.output, f.output),
    }
}

/// Taking the top of the value stack keeps the frames and the output.
pub proof fn lemma_pop_keeps(st: SpecState)
    ensures
        pop(st) matches Ok((st1, _)) ==> keeps(st, st1) && st1.frames == st.frames && st1.output == st.output,
        pop(st) matches Err(f) ==> f.output == st.output,
{
}

/// Binding a variable keeps what `keeps` names.
pub proof fn lemma_insert_keeps(st: SpecState, k: Seq<char>, v: SpecValue)
    ensures
        outcome_keeps(st, insert_var_last(st, k, v)),
{
}

/// A binary operation on numbers keeps what `keeps` names.
pub proof fn lemma_arith_keeps(st: SpecState, op: Seq<char>, a: crate::number::Rat, b: crate::number::Rat, l: int, c: int)
    ensures
        outcome_keeps(st, arith(st, op, a, b, l, c)),
{
}

proof fn lemma_print_keeps(st: SpecState, vals: Seq<SpecValue>)
    ensures
        keeps(st, print_all(st, vals)),
        print_all(st, vals).frames == st.frames,
{
}

/// A native function keeps what `keeps` names.
pub proof fn lemma_builtin_keeps(st: SpecState, b: Builtin, vals: Seq<SpecValue>, l: int, c: int)
    ensures
        outcome_keeps(st, call_builtin(st, b, vals, l, c)),
{
    lemma_print_keeps(st, vals);
    let st1 = print_all(st, vals);
    assert(prefix_of(st.output, st1.output.push(newline())));
    assert(prefix_of(st.output, st.output.push(SpecOutput::Text(main_text())).push(newline())));
}

proof fn lemma_find_var_keeps(st: SpecState, name: Seq<char>)
    ensures
        crate::semantics::find_var(st, name) matches Err(f) ==> f.output == st.output,
{
}

/// Every evaluation of an expression keeps what `keeps` names.
pub proof fn lemma_expr_keeps(d: nat, st: SpecState, e: SpecExpr, l: int, c: int)
    ensures
        outcome_keeps(st, sem_expr(d, st, e, l, c)),
    decreases d, e, 0nat,
{
    lemma_find_var_keeps(st, match e {
        SpecExpr::Ident(n) => n,
        SpecExpr::Call(n, _) => n,
        _ => seq![],
    });
    match e {
        SpecExpr::BinaryOp(lhs, op, rhs) => {
            lemma_expr_keeps(d, st, *lhs, l, c);
            match sem_expr(d, st, *lhs, l, c) {
                Ok(st1) => {
                    lemma_pop_keeps(st1);
                    match pop(st1) {
                        Ok((st2, _)) => {
                            lemma_expr_keeps(d, st2, *rhs, l, c);
                            match sem_expr(d, st2, *rhs, l, c) {
                                Ok(st3) => {
                                    lemma_pop_keeps(st3);
                                    match pop(st3) {
                                        Ok((st4, rv)) => {
                                            match rv {
                                                SpecValue::Number(b) => {
                                                    match pop(st1) {
                                                        Ok((_, SpecValue::Number(a))) => lemma_arith_keeps(st4, op, a, b, l, c),
                                                        _ => {},
                                                    }
                                                },
                                                _ => {},
                                            }
                                        },
                                        Err(_) => {},
                                    }
                                },
                                Err(_) => {},
                            }
                        },
                        Err(_) => {},
                    }
                },
                Err(_) => {},
            }
        },
        SpecExpr::UnaryOp(_, x) => {
            lemma_expr_keeps(d, st, *x, l, c);
            match sem_expr(d, st, *x, l, c) {
                Ok(st1) => lemma_pop_keeps(st1),
                Err(_) => {},
            }
        },
        SpecExpr::Assign(name, init) => {
            lemma_expr_keeps(d, st, *init, l, c);
            match sem_expr(d, st, *init, l, c) {
                Ok(st1) => {
                    lemma_pop_keeps(st1);
                    match pop(st1) {
                        Ok((st2, v)) => lemma_insert_keeps(st2, name, v),
                        Err(_) => {},
                    }
                },
                Err(_) => {},
            }
        },
        SpecExpr::Block(ss) => {
            lemma_block_keeps(d, st, ss);
        },
        SpecExpr::Call(name, args) => {
            match crate::semantics::find_var(st, name) {
                Ok(Some(SpecValue::Object(SpecObject::Function(f)))) => lemma_call_keeps(d, st, name, f, args, l, c),
                _ => {},
            }
        },
        SpecExpr::DynCall(fe, args) => {
            lemma_expr_keeps(d, st, *fe, l, c);
            match sem_expr(d, st, *fe, l, c) {
                Ok(st1) => {
                    if st1.stack.len() > 0 {
                        let st2 = with_stack(st1, st1.stack.subrange(0, st1.stack.len() - 1));
                        match st1.stack[st1.stack.len() - 1] {
                            SpecValue::Object(SpecObject::Function(f)) => lemma_call_keeps(d, st2, lambda_name(), f, args, l, c),
                            _ => {},
                        }
                    }
                },
                Err(_) => {},
            }
        },
        SpecExpr::If(cond, then, els) => {
            lemma_expr_keeps(d, st, *cond, l, c);
            match sem_expr(d, st, *cond, l, c) {
                Ok(st1) => {
                    lemma_pop_keeps(st1);
                    match pop(st1) {
                        Ok((st2, v)) => {
                            lemma_expr_keeps(d, st2, *then, l, c);
                            match els {
                                Some(x) => lemma_expr_keeps(d, st2, *x, l, c),
                                None => {},
                            }
                        },
                        Err(_) => {},
                    }
                },
                Err(_) => {},
            }
        },
        _ => {},
    }
}

/// Every run of a statement keeps what `keeps` names.
pub proof fn lemma_stmt_keeps(d: nat, st: SpecState, s: SpecStmt, l: int, c: int)
    ensures
        outcome_keeps(st, sem_stmt(d, st, s, l, c)),
    decreases d, s, 0nat,
{
    match s {
        SpecStmt::TailReturn(e) => lemma_expr_keeps(d, st, *e, l, c),
        SpecStmt::Return(e) => lemma_expr_keeps(d, st, *e, l, c),
        SpecStmt::Expr(e) => lemma_expr_keeps(d, st, *e, l, c),
        SpecStmt::NotPopValueExpr(e) => lemma_expr_keeps(d, st, *e, l, c),
        SpecStmt::Let(lhs, r) => {
            match *lhs {
                SpecExpr::Ident(name) => match r.stmt {
                    SpecStmt::NotPopValueExpr(e) => lemma_let_value_keeps(d, st, name, *e, r.l, r.c),
                    _ => {},
                },
                SpecExpr::IdentList(ps) => {
                    if ps.len() > 0 {
                        lemma_insert_keeps(
                            st,
                            ps[0],
                            SpecValue::Object(
                                SpecObject::Function(
                                    SpecFunction {
                                        params: ps.subrange(1, ps.len() as int),
                                        body: SpecBody::General(r.stmt),
                                    },
                                ),
                            ),
                        );
                    }
                },
                _ => {},
            }
        },
    }
}

/// `let name = e;` keeps what `keeps` names.
pub proof fn lemma_let_value_keeps(d: nat, st: SpecState, name: Seq<char>, e: SpecExpr, l: int, c: int)
    ensures
        outcome_keeps(st, sem_let_value(d, st, name, e, l, c)),
    decreases d, e, 1nat,
{
    lemma_expr_keeps(d, st, e, l, c);
    match sem_expr(d, st, e, l, c) {
        Ok(st1) => {
            lemma_pop_keeps(st1);
            match pop(st1) {
                Ok((st2, v)) => lemma_insert_keeps(st2, name, v),
                Err(_) => {},
            }
        },
        Err(_) => {},
    }
}

/// Every run of a sequence of statements keeps what `keeps` names.
pub proof fn lemma_block_keeps(d: nat, st: SpecState, ss: Seq<SpecNode>)
    ensures
        outcome_keeps(st, sem_block(d, st, ss)),
    decreases d, ss, 0nat,
{
    if ss.len() > 0 {
        lemma_stmt_keeps(d, st, ss[0].stmt, ss[0].l, ss[0].c);
        match sem_stmt(d, st, ss[0].stmt, ss[0].l, ss[0].c) {
            Ok(st1) => lemma_block_keeps(d, st1, ss.subrange(1, ss.len() as int)),
            Err(_) => {},
        }
    }
}

/// Every call keeps what `keeps` names: the callee's frame is gone when it returns.
pub proof fn lemma_call_keeps(
    d: nat,
    st: SpecState,
    name: Seq<char>,
    f: SpecFunction,
    args: Seq<SpecExpr>,
    l: int,
    c: int,
)
    ensures
        outcome_keeps(st, sem_call(d, st, name, f, args, l, c)),
    decreases d, args, 1nat,
{
    match f.body {
        SpecBody::General(body) => {
            if d > 0 {
                lemma_bind_keeps(d, st, f.params, args, seq![], l, c);
                match sem_bind(d, st, f.params, args, seq![], l, c) {
                    Ok((st1, vars)) => {
                        let st2 = with_frames(
                            st1,
                            st1.frames.push(SpecFrame { name, vars, func: Some(f), last_ret_idx: 0 }),
                        );
                        lemma_stmt_keeps((d - 1) as nat, st2, body, l, c);
                    },
                    Err(_) => {},
                }
            }
        },
        SpecBody::Native(b) => {
            lemma_args_keeps(d, st, args, seq![], l, c);
            match sem_args(d, st, args, seq![], l, c) {
                Ok((st1, vals)) => lemma_builtin_keeps(st1, b, vals, l, c),
                Err(_) => {},
            }
        },
    }
}

/// Binding arguments to parameters keeps what `keeps` names.
pub proof fn lemma_bind_keeps(
    d: nat,
    st: SpecState,
    params: Seq<Seq<char>>,
    args: Seq<SpecExpr>,
    vars: Seq<(Seq<char>, SpecValue)>,
    l: int,
    c: int,
)
    ensures
        match sem_bind(d, st, params, args, vars, l, c) {
            Ok((st1, _)) => keeps(st, st1),
            Err(f) => prefix_of(st.output, f.output),
        },
    decreases d, args, 0nat,
{
    if params.len() > 0 && args.len() > 0 {
        lemma_expr_keeps(d, st, args[0], l, c);
        match sem_expr(d, st, args[0], l, c) {
            Ok(st1) => {
                lemma_pop_keeps(st1);
                match pop(st1) {
                    Ok((st2, v)) => lemma_bind_keeps(
                        d,
                        st2,
                        params.subrange(1, params.len() as int),
                        args.subrange(1, args.len() as int),
                        vars_insert(vars, params[0], v),
                        l,
                        c,
                    ),
                    Err(_) => {},
                }
            },
            Err(_) => {},
        }
    }
}

/// Evaluating arguments keeps what `keeps` names.
pub proof fn lemma_args_keeps(
    d: nat,
    st: SpecState,
    args: Seq<SpecExpr>,
    vals: Seq<SpecValue>,
    l: int,
    c: int,
)
    ensures
        match sem_args(d, st, args, vals, l, c) {
            Ok((st1, _)) => keeps(st, st1),
            Err(f) => prefix_of(st.output, f.output),
        },
    decreases d, args, 0nat,
{
    if args.len() > 0 {
        lemma_expr_keeps(d, st, args[0], l, c);
        match sem_expr(d, st, args[0], l, c) {
            Ok(st1) => {
                lemma_pop_keeps(st1);
                match pop(st1) {
                    Ok((st2, v)) => lemma_args_keeps(
                        d,
                        st2,
                        args.subrange(1, args.len() as int),
                        vals.push(v),
                        l,
                        c,
                    ),
                    Err(_) => {},
                }
            },
            Err(_) => {},
        }
    }
}


/// The first index of `k` lies in range and holds `k`.
proof fn lemma_find_key_range(vs: Seq<(Seq<char>, SpecValue)>, k: Seq<char>)
    ensures
        find_key(vs, k) matches Some(i) ==> 0 <= i < vs.len() && vs[i].0 == k,
        find_key(vs, k) is None ==> forall|j: int| 0 <= j < vs.len() ==> #[trigger] vs[j].0 != k,
    decreases vs.len(),
{
    if vs.len() > 0 {
        let t = vs.subrange(1, vs.len() as int);
        lemma_find_key_range(t, k);
        if find_key(vs, k) is None {
            assert forall|j: int| 0 <= j < vs.len() implies #[trigger] vs[j].0 != k by {
                if j > 0 {
                    assert(vs[j] == t[j - 1]);
                }
            }
        }
    }
}

/// Replacing the binding at the first index of its name, keeping the name, leaves the
/// first index of every name as it was.
proof fn lemma_find_key_update(vs: Seq<(Seq<char>, SpecValue)>, i: int, k: Seq<char>, v: SpecValue, k2: Seq<char>)
    requires
        find_key(vs, k) == Some(i),
    ensures
        find_key(vs.update(i, (k, v)), k2) == find_key(vs, k2),
    decreases vs.len(),
{
    let t = vs.update(i, (k, v));
    lemma_find_key_range(vs, k);
    if i > 0 {
        assert(t.subrange(1, t.len() as int) =~= vs.subrange(1, vs.len() as int).update(i - 1, (k, v)));
        lemma_find_key_update(vs.subrange(1, vs.len() as int), i - 1, k, v, k2);
    } else {
        assert(t.subrange(1, t.len() as int) =~= vs.subrange(1, vs.len() as int));
    }
}

/// Appending a binding for a name that has none: the name is found at the end, every
/// other name where it was.
proof fn lemma_find_key_push(vs: Seq<(Seq<char>, SpecValue)>, k: Seq<char>, v: SpecValue, k2: Seq<char>)
    requires
        find_key(vs, k) is None,
    ensures
        find_key(vs.push((k, v)), k2) == if k2 == k {
            Some(vs.len() as int)
        } else {
            find_key(vs, k2)
        },
    decreases vs.len(),
{
    let t = vs.push((k, v));
    if vs.len() == 0 {
        assert(t.subrange(1, t.len() as int) =~= Seq::<(Seq<char>, SpecValue)>::empty());
        assert(t[0] == (k, v));
        assert(find_key(t.subrange(1, t.len() as int), k2) is None);
    } else {
        assert(t.subrange(1, t.len() as int) =~= vs.subrange(1, vs.len() as int).push((k, v)));
        assert(t[0] == vs[0]);
        lemma_find_key_push(vs.subrange(1, vs.len() as int), k, v, k2);
    }
}

/// Reading a variable gives back what was written: after binding `k` to `v`, `k` has
/// the value `v` and every other name keeps the value it had.
pub proof fn law_vars_read_after_write(vs: Seq<(Seq<char>, SpecValue)>, k: Seq<char>, v: SpecValue, k2: Seq<char>)
    ensures
        vars_get(vars_insert(vs, k, v), k2) == if k2 == k {
            Some(v)
        } else {
            vars_get(vs, k2)
        },
{
    lemma_find_key_range(vs, k);
    match find_key(vs, k) {
        Some(i) => {
            lemma_find_key_update(vs, i, k, v, k2);
            lemma_find_key_range(vs, k2);
            lemma_find_key_range(vs.update(i, (k, v)), k2);
        },
        None => {
            lemma_find_key_push(vs, k, v, k2);
            lemma_find_key_range(vs, k2);
        },
    }
}

/// `let name = e;` binds `name` in the current frame to the value of `e`: right after
/// it, looking `name` up gives that value.
pub proof fn law_let_then_lookup(d: nat, st: SpecState, name: Seq<char>, e: SpecExpr, l1: int, c1: int, l: int, c: int)
    requires
        sem_stmt(
            d,
            st,
            SpecStmt::Let(
                Box::new(SpecExpr::Ident(name)),
                Box::new(SpecNode { stmt: SpecStmt::NotPopValueExpr(Box::new(e)), l: l1, c: c1 }),
            ),
            l,
            c,
        ) is Ok,
    ensures
        sem_expr(d, st, e, l1, c1) matches Ok(st1) && st1.stack.len() > 0 && crate::semantics::find_var(
            sem_stmt(
                d,
                st,
                SpecStmt::Let(
                    Box::new(SpecExpr::Ident(name)),
                    Box::new(SpecNode { stmt: SpecStmt::NotPopValueExpr(Box::new(e)), l: l1, c: c1 }),
                ),
                l,
                c,
            )->Ok_0,
            name,
        ) == Ok::<Option<SpecValue>, Failure>(Some(st1.stack.last())),
{
    let st1 = sem_expr(d, st, e, l1, c1)->Ok_0;
    let (st2, v) = pop(st1)->Ok_0;
    let n = st2.frames.len() - 1;
    law_vars_read_after_write(st2.frames[n].vars, name, v, name);
}

/// The two ways of defining a function agree: `let f = fn ps -> body;` and
/// `let f ps = body;` bind `f` to the same function, from every state.
pub proof fn law_function_forms_agree(
    d: nat,
    st: SpecState,
    f: Seq<char>,
    ps: Seq<Seq<char>>,
    body: SpecExpr,
    l1: int,
    c1: int,
    l: int,
    c: int,
)
    ensures
        sem_stmt(
            d,
            st,
            SpecStmt::Let(
                Box::new(SpecExpr::Ident(f)),
                Box::new(
                    SpecNode {
                        stmt: SpecStmt::NotPopValueExpr(Box::new(SpecExpr::Lambda(ps, Box::new(body)))),
                        l: l1,
                        c: c1,
                    },
                ),
            ),
            l,
            c,
        ) == sem_stmt(
            d,
            st,
            SpecStmt::Let(
                Box::new(SpecExpr::IdentList(seq![f] + ps)),
                Box::new(SpecNode { stmt: SpecStmt::NotPopValueExpr(Box::new(body)), l: l1, c: c1 }),
            ),
            l,
            c,
        ),
{
    let all = seq![f] + ps;
    assert(all.subrange(1, all.len() as int) =~= ps);
    assert(all[0] == f);
    let v = SpecValue::Object(
        SpecObject::Function(
            SpecFunction { params: ps, body: SpecBody::General(SpecStmt::NotPopValueExpr(Box::new(body))) },
        ),
    );
    assert(st.stack.push(v).subrange(0, st.stack.len() as int) =~= st.stack);
}

/// A block leaves every frame as it found it: the bindings made inside it, and the
/// assignments made inside it, are gone when it ends.
pub proof fn law_block_restores_frames(d: nat, st: SpecState, ss: Seq<SpecNode>, l: int, c: int)
    requires
        st.frames.len() > 0,
        sem_expr(d, st, SpecExpr::Block(ss), l, c) is Ok,
    ensures
        sem_expr(d, st, SpecExpr::Block(ss), l, c)->Ok_0.frames == st.frames,
{
    lemma_block_keeps(d, st, ss);
    let st1 = sem_block(d, st, ss)->Ok_0;
    let r = sem_expr(d, st, SpecExpr::Block(ss), l, c)->Ok_0;
    assert(r.frames =~= st.frames);
}

/// A call of a function of the program comes back to the frames that the evaluation of
/// its arguments left: the callee's frame is gone and no frame below it has changed.
pub proof fn law_call_returns_to_caller(
    d: nat,
    st: SpecState,
    name: Seq<char>,
    f: SpecFunction,
    args: Seq<SpecExpr>,
    l: int,
    c: int,
)
    requires
        f.body is General,
        sem_call(d, st, name, f, args, l, c) is Ok,
    ensures
        sem_bind(d, st, f.params, args, seq![], l, c) matches Ok((st1, _)) && sem_call(
            d,
            st,
            name,
            f,
            args,
            l,
            c,
        )->Ok_0.frames == st1.frames,
{
    let (st1, vars) = sem_bind(d, st, f.params, args, seq![], l, c)->Ok_0;
    let st2 = with_frames(st1, st1.frames.push(SpecFrame { name, vars, func: Some(f), last_ret_idx: 0 }));
    let body = f.body->General_0;
    lemma_stmt_keeps((d - 1) as nat, st2, body, l, c);
    let r = sem_call(d, st, name, f, args, l, c)->Ok_0;
    assert(r.frames =~= st1.frames);
}

/// Running a program only adds to what it has written: the output written before any
/// statement stays written, whether the run goes on or stops, the number of frames is
/// what it was, and the input lines are only read, in order.
pub proof fn law_run_keeps(d: nat, st: SpecState, prog: Seq<SpecNode>)
    ensures
        outcome_keeps(st, sem_block(d, st, prog)),
{
    lemma_block_keeps(d, st, prog);
}


/// The expression `x op y` on two integer literals.
pub open spec fn int_binop(x: i64, op: Seq<char>, y: i64) -> SpecExpr {
    SpecExpr::BinaryOp(Box::new(SpecExpr::Number(x)), op, Box::new(SpecExpr::Number(y)))
}

/// Taking back the value just pushed gives the state before the push.
proof fn lemma_pop_push(st: SpecState, v: SpecValue)
    ensures
        pop(crate::semantics::push(st, v)) == Ok::<(SpecState, SpecValue), Failure>((st, v)),
{
    assert(st.stack.push(v).subrange(0, st.stack.len() as int) =~= st.stack);
}

proof fn lemma_gcd_one(n: nat)
    ensures
        crate::number::gcd(n, 1) == 1,
{
    reveal_with_fuel(crate::number::gcd, 3);
}

/// Arithmetic and comparison on integers: from any state, `x op y` on two integer
/// literals leaves the integer sum, difference or product, the exact quotient (for
/// `y != 0`), or the truth of the comparison.
pub proof fn law_integer_arithmetic(d: nat, st: SpecState, x: i64, y: i64, l: int, c: int)
    ensures
        sem_expr(d, st, int_binop(x, seq!['+'], y), l, c) == Ok::<SpecState, Failure>(
            crate::semantics::push(st, SpecValue::Number(crate::number::rat_of_int(x + y))),
        ),
        sem_expr(d, st, int_binop(x, seq!['-'], y), l, c) == Ok::<SpecState, Failure>(
            crate::semantics::push(st, SpecValue::Number(crate::number::rat_of_int(x - y))),
        ),
        sem_expr(d, st, int_binop(x, seq!['*'], y), l, c) == Ok::<SpecState, Failure>(
            crate::semantics::push(st, SpecValue::Number(crate::number::rat_of_int(x * y))),
        ),
        y != 0 ==> sem_expr(d, st, int_binop(x, seq!['/'], y), l, c) == Ok::<SpecState, Failure>(
            crate::semantics::push(st, SpecValue::Number(crate::number::canon(x as int, y as int))),
        ),
        sem_expr(d, st, int_binop(x, seq!['<'], y), l, c) == Ok::<SpecState, Failure>(
            crate::semantics::push(st, SpecValue::Bool(x < y)),
        ),
        sem_expr(d, st, int_binop(x, seq!['>'], y), l, c) == Ok::<SpecState, Failure>(
            crate::semantics::push(st, SpecValue::Bool(x > y)),
        ),
        sem_expr(d, st, int_binop(x, seq!['<', '='], y), l, c) == Ok::<SpecState, Failure>(
            crate::semantics::push(st, SpecValue::Bool(x <= y)),
        ),
        sem_expr(d, st, int_binop(x, seq!['>', '='], y), l, c) == Ok::<SpecState, Failure>(
            crate::semantics::push(st, SpecValue::Bool(x >= y)),
        ),
        sem_expr(d, st, int_binop(x, seq!['=', '='], y), l, c) == Ok::<SpecState, Failure>(
            crate::semantics::push(st, SpecValue::Bool(x == y)),
        ),
        sem_expr(d, st, int_binop(x, seq!['!', '='], y), l, c) == Ok::<SpecState, Failure>(
            crate::semantics::push(st, SpecValue::Bool(x != y)),
        ),
{
    let vx = SpecValue::Number(crate::number::rat_of_int(x as int));
    let vy = SpecValue::Number(crate::number::rat_of_int(y as int));
    lemma_pop_push(st, vx);
    lemma_pop_push(st, vy);
    assert(sem_expr(d, st, SpecExpr::Number(x), l, c) == Ok::<SpecState, Failure>(crate::semantics::push(st, vx)));
    assert(sem_expr(d, st, SpecExpr::Number(y), l, c) == Ok::<SpecState, Failure>(crate::semantics::push(st, vy)));
    let rx = crate::number::rat_of_int(x as int);
    let ry = crate::number::rat_of_int(y as int);
    assert(x * 1 + y * 1 == x + y && x * 1 - y * 1 == x - y && x * y == x * y && 1 * 1 == 1);
    assert(x * 1 == x && 1 * y == y);
    lemma_gcd_one(crate::number::abs(x + y));
    lemma_gcd_one(crate::number::abs(x - y));
    lemma_gcd_one(crate::number::abs(x * y));
    assert(crate::number::abs(1int) == 1);
    assert(crate::number::gcd(crate::number::abs(x * 1 + y * 1), crate::number::abs(1int)) == 1);
    assert(crate::number::rat_add(rx, ry) == crate::number::rat_of_int(x + y));
    assert(crate::number::rat_sub(rx, ry) == crate::number::rat_of_int(x - y));
    assert(crate::number::rat_mul(rx, ry) == crate::number::rat_of_int(x * y));
    assert(crate::number::rat_div(rx, ry) == crate::number::canon(x as int, y as int));
    assert(crate::number::rat_lt(rx, ry) == (x < y));
    assert(crate::number::rat_lt(ry, rx) == (y < x));
    assert(crate::number::rat_le(rx, ry) == (x <= y));
    assert(crate::number::rat_le(ry, rx) == (y <= x));
    assert(rx == ry <==> x == y);
    let ops = seq![seq!['+'], seq!['-'], seq!['*'], seq!['/'], seq!['%'], seq!['^'], seq!['<'], seq!['>'], seq!['=']];
    assert(ops[0][0] == '+' && ops[1][0] == '-' && ops[2][0] == '*' && ops[3][0] == '/' && ops[4][0] == '%'
        && ops[5][0] == '^' && ops[6][0] == '<' && ops[7][0] == '>' && ops[8][0] == '=');
    assert(seq!['<', '='][0] == '<' && seq!['>', '='][0] == '>' && seq!['=', '='][0] == '=' && seq!['!', '='][0] == '!');
    assert(seq!['<', '='] != seq!['=', '='] && seq!['<', '='] != seq!['!', '='] && seq!['<', '='] != seq!['>', '=']);
    assert(seq!['>', '='] != seq!['=', '='] && seq!['>', '='] != seq!['!', '=']);
    assert(seq!['<', '='].len() == 2 && seq!['>', '='].len() == 2 && seq!['<'].len() == 1 && seq!['>'].len() == 1);
    assert(seq!['<', '='] != seq!['<'] && seq!['<', '='] != seq!['>'] && seq!['>', '='] != seq!['<'] && seq!['>', '='] != seq!['>']);
}

/// `and` and `or` on booleans: for two expressions that each leave a boolean and change
/// nothing else, `a and b` leaves `a && b` and `a or b` leaves `a || b`.
pub proof fn law_boolean_logic(d: nat, st: SpecState, e1: SpecExpr, e2: SpecExpr, a: bool, b: bool, l: int, c: int)
    requires
        sem_expr(d, st, e1, l, c) == Ok::<SpecState, Failure>(crate::semantics::push(st, SpecValue::Bool(a))),
        sem_expr(d, st, e2, l, c) == Ok::<SpecState, Failure>(crate::semantics::push(st, SpecValue::Bool(b))),
    ensures
        sem_expr(d, st, SpecExpr::BinaryOp(Box::new(e1), seq!['a', 'n', 'd'], Box::new(e2)), l, c)
            == Ok::<SpecState, Failure>(crate::semantics::push(st, SpecValue::Bool(a && b))),
        sem_expr(d, st, SpecExpr::BinaryOp(Box::new(e1), seq!['o', 'r'], Box::new(e2)), l, c)
            == Ok::<SpecState, Failure>(crate::semantics::push(st, SpecValue::Bool(a || b))),
{
    lemma_pop_push(st, SpecValue::Bool(a));
    lemma_pop_push(st, SpecValue::Bool(b));
    assert(seq!['a', 'n', 'd'] == crate::semantics::op_and());
    assert(seq!['o', 'r'] == crate::semantics::op_or());
}

/// A native call evaluates its arguments from left to right, each once and from the
/// state the one before left, and hands their values to the native function, whose
/// outcome is the call's.
pub proof fn law_native_call(
    d: nat,
    st: SpecState,
    name: Seq<char>,
    b: Builtin,
    args: Seq<SpecExpr>,
    vs: Seq<SpecValue>,
    l: int,
    c: int,
)
    requires
        args.len() == vs.len(),
        forall|i: int, s: SpecState|
            0 <= i < args.len() ==> #[trigger] sem_expr(d, s, args[i], l, c) == Ok::<SpecState, Failure>(
                crate::semantics::push(s, vs[i]),
            ),
    ensures
        sem_args(d, st, args, seq![], l, c) == Ok::<(SpecState, Seq<SpecValue>), Failure>((st, vs)),
        sem_call(d, st, name, SpecFunction { params: seq![], body: SpecBody::Native(b) }, args, l, c)
            == call_builtin(st, b, vs, l, c),
{
    lemma_args_values(d, st, args, vs, seq![], l, c);
    assert(Seq::<SpecValue>::empty() + vs =~= vs);
}

proof fn lemma_args_values(
    d: nat,
    st: SpecState,
    args: Seq<SpecExpr>,
    vs: Seq<SpecValue>,
    vals: Seq<SpecValue>,
    l: int,
    c: int,
)
    requires
        args.len() == vs.len(),
        forall|i: int, s: SpecState|
            0 <= i < args.len() ==> #[trigger] sem_expr(d, s, args[i], l, c) == Ok::<SpecState, Failure>(
                crate::semantics::push(s, vs[i]),
            ),
    ensures
        sem_args(d, st, args, vals, l, c) == Ok::<(SpecState, Seq<SpecValue>), Failure>((st, vals + vs)),
    decreases args.len(),
{
    if args.len() == 0 {
        assert(vals + vs =~= vals);
    } else {
        assert(sem_expr(d, st, args[0], l, c) == Ok::<SpecState, Failure>(crate::semantics::push(st, vs[0])));
        lemma_pop_push(st, vs[0]);
        let rest = args.subrange(1, args.len() as int);
        let vrest = vs.subrange(1, vs.len() as int);
        assert forall|i: int, s: SpecState|
            0 <= i < rest.len() implies #[trigger] sem_expr(d, s, rest[i], l, c) == Ok::<SpecState, Failure>(
                crate::semantics::push(s, vrest[i]),
            ) by {
            assert(rest[i] == args[i + 1]);
            assert(sem_expr(d, s, args[i + 1], l, c) == Ok::<SpecState, Failure>(crate::semantics::push(s, vs[i + 1])));
        }
        lemma_args_values(d, st, rest, vrest, vals.push(vs[0]), l, c);
        assert(vals.push(vs[0]) + vrest =~= vals + vs);
    }
}

/// Whether no name is bound twice.
pub open spec fn names_unique(vs: Seq<(Seq<char>, SpecValue)>) -> bool {
    forall|i: int, j: int| 0 <= i < j < vs.len() ==> #[trigger] vs[i].0 != #[trigger] vs[j].0
}

/// Binding a variable never binds a name twice: variables, which only `vars_insert`
/// binds, hold each name at most once.
pub proof fn law_names_stay_unique(vs: Seq<(Seq<char>, SpecValue)>, k: Seq<char>, v: SpecValue)
    requires
        names_unique(vs),
    ensures
        names_unique(vars_insert(vs, k, v)),
{
    lemma_find_key_range(vs, k);
}

/// A statement is read at the position of its first token: a `let` statement, whose bound
/// expression keeps that position, when it starts with `let`, else an expression
/// statement; and reading it never moves back.
pub proof fn law_statement_position(ts: Seq<crate::lexer::SpecToken>, pos: int)
    requires
        crate::parser::spec_parse_stmt(ts, pos) is Ok,
    ensures
        ({
            let (n, p) = crate::parser::spec_parse_stmt(ts, pos)->Ok_0;
            &&& 0 <= pos < ts.len()
            &&& n.l == ts[pos].l
            &&& n.c == ts[pos].c
            &&& ts[pos].t == crate::lexer::TokenType::KWLet ==> (n.stmt matches SpecStmt::Let(_, r) && r.l
                == ts[pos].l && r.c == ts[pos].c && r.stmt is NotPopValueExpr)
            &&& ts[pos].t != crate::lexer::TokenType::KWLet ==> n.stmt is Expr
        }),
{
}


/// The value of a digit string is its first digit times ten to the number of the rest, plus
/// the value of the rest.
proof fn lemma_digits_value_prepend(ch: char, t: Seq<char>)
    ensures
        crate::text::digits_value(seq![ch] + t) == (ch as int - 48) * (pow10(t.len()) as int)
            + crate::text::digits_value(t),
    decreases t.len(),
{
    let s = seq![ch] + t;
    if t.len() == 0 {
        assert(s.subrange(0, 0) =~= Seq::<char>::empty());
        assert(s.len() == 1 && s[0] == ch);
        assert(crate::text::digits_value(Seq::<char>::empty()) == 0);
        assert(crate::text::digits_value(s) == crate::text::digits_value(s.subrange(0, 0)) * 10 + (ch as int - 48));
        assert(pow10(0) == 1);
        assert(t =~= Seq::<char>::empty());
    } else {
        let t0 = t.subrange(0, t.len() - 1);
        lemma_digits_value_prepend(ch, t0);
        assert(s.subrange(0, s.len() - 1) =~= seq![ch] + t0);
        assert(s[s.len() - 1] == t[t.len() - 1]);
        let a = ch as int - 48;
        let p = pow10(t0.len()) as int;
        assert(pow10(t.len()) == 10 * pow10(t0.len()));
        assert(crate::text::digits_value(s) == crate::text::digits_value(s.subrange(0, s.len() - 1)) * 10
            + (s[s.len() - 1] as int - 48));
        assert(crate::text::digits_value(t) == crate::text::digits_value(t0) * 10 + (t[t.len() - 1] as int - 48));
        assert((a * p + crate::text::digits_value(t0)) * 10 + (t[t.len() - 1] as int - 48) == a * (10 * p)
            + (crate::text::digits_value(t0) * 10 + (t[t.len() - 1] as int - 48))) by (nonlinear_arith);
    }
}

proof fn lemma_digit_char_value(q: nat)
    requires
        q < 10,
    ensures
        crate::text::is_digit_char(crate::number::digit_char(q)),
        crate::number::digit_char(q) as int - 48 == q,
        crate::number::decimal(q) == seq![crate::number::digit_char(q)],
{
}

/// The digits that `frac_digits` writes for `rem / d` are the decimal expansion of
/// `rem / d` cut after them: read as a whole number they are `rem * 10^len / d`, there
/// are at most `k`, and fewer only when the expansion ends there.
pub proof fn law_fraction_digits(rem: nat, d: nat, k: nat)
    requires
        0 < d,
        rem < d,
    ensures
        ({
            let f = frac_digits(rem, d, k);
            &&& f.len() <= k
            &&& crate::text::all_digits(f)
            &&& crate::text::digits_value(f) == (rem * pow10(f.len())) as int / d as int
            &&& f.len() < k ==> (rem * pow10(f.len())) as int % d as int == 0
        }),
    decreases k,
{
    let f = frac_digits(rem, d, k);
    if k == 0 || rem == 0 {
        assert(f =~= Seq::<char>::empty());
        assert(crate::text::digits_value(f) == 0);
        assert(pow10(0) == 1);
        assert((rem * 1) as int / d as int == 0) by (nonlinear_arith)
            requires
                rem < d,
                0 < d,
        ;
        if rem == 0 {
            assert((rem * 1) as int % d as int == 0) by (nonlinear_arith)
                requires
                    rem == 0,
                    0 < d,
            ;
        }
    } else {
        let x = (rem * 10) as int;
        let q = x / d as int;
        let r2 = x % d as int;
        vstd::arithmetic::div_mod::lemma_fundamental_div_mod(x, d as int);
        assert(0 <= r2 < d);
        assert(0 <= q < 10) by (nonlinear_arith)
            requires
                x == d * q + r2,
                0 <= r2 < d,
                x == rem * 10,
                rem < d,
                0 <= x,
        ;
        lemma_digit_char_value(q as nat);
        law_fraction_digits(r2 as nat, d, (k - 1) as nat);
        let g = frac_digits(r2 as nat, d, (k - 1) as nat);
        assert(f == crate::number::decimal(q as nat) + g);
        assert(f =~= seq![crate::number::digit_char(q as nat)] + g);
        lemma_digits_value_prepend(crate::number::digit_char(q as nat), g);
        assert forall|i: int| 0 <= i < f.len() implies crate::text::is_digit_char(#[trigger] f[i]) by {
            if i > 0 {
                assert(f[i] == g[i - 1]);
            }
        }
        let p = pow10(g.len()) as int;
        assert(pow10(f.len()) == 10 * pow10(g.len()));
        let y = r2 * p;
        let qy = y / d as int;
        let ry = y % d as int;
        vstd::arithmetic::div_mod::lemma_fundamental_div_mod(y, d as int);
        assert(p >= 1) by {
            lemma_pow10_pos(g.len());
        }
        assert(rem * pow10(f.len()) == (q * p + qy) * d + ry) by (nonlinear_arith)
            requires
                x == d * q + r2,
                x == rem * 10,
                y == r2 * p,
                y == d * qy + ry,
                pow10(f.len()) == 10 * p,
        ;
        vstd::arithmetic::div_mod::lemma_fundamental_div_mod_converse(
            (rem * pow10(f.len())) as int,
            d as int,
            q * p + qy,
            ry,
        );
    }
}

proof fn lemma_pow10_pos(k: nat)
    ensures
        pow10(k) >= 1,
    decreases k,
{
    if k > 0 {
        lemma_pow10_pos((k - 1) as nat);
    }
}


/// One to any power is one.
proof fn lemma_pow_of_one(e: nat)
    ensures
        vstd::arithmetic::power::pow(1, e) == 1,
    decreases e,
{
    reveal(vstd::arithmetic::power::pow);
    if e > 0 {
        lemma_pow_of_one((e - 1) as nat);
    }
}

/// An odd power of a negative integer is negative.
proof fn lemma_odd_power_negative(x: int, k: nat)
    requires
        x < 0,
    ensures
        vstd::arithmetic::power::pow(x, 2 * k + 1) < 0,
    decreases k,
{
    reveal(vstd::arithmetic::power::pow);
    if k == 0 {
        assert(vstd::arithmetic::power::pow(x, 0) == 1);
        assert(vstd::arithmetic::power::pow(x, 1) == x * vstd::arithmetic::power::pow(x, 0));
    } else {
        let k1 = (k - 1) as nat;
        lemma_odd_power_negative(x, k1);
        let p = vstd::arithmetic::power::pow(x, 2 * k1 + 1);
        assert(vstd::arithmetic::power::pow(x, 2 * k1 + 2) == x * p);
        assert(vstd::arithmetic::power::pow(x, 2 * k + 1) == x * vstd::arithmetic::power::pow(x, 2 * k1 + 2));
        assert(x * (x * p) < 0) by (nonlinear_arith)
            requires
                x < 0,
                p < 0,
        ;
    }
}

/// Powers of integers: from any state, `x ^ n` on two integer literals with
/// `0 <= n <= i32::MAX` leaves the integer `x` to the power `n`, sign included: an odd
/// power of a negative base leaves a negative number.
pub proof fn law_integer_power(d: nat, st: SpecState, x: i64, n: i64, l: int, c: int)
    requires
        0 <= n <= i32::MAX,
    ensures
        sem_expr(d, st, int_binop(x, seq!['^'], n), l, c) == Ok::<SpecState, Failure>(
            crate::semantics::push(
                st,
                SpecValue::Number(crate::number::rat_of_int(vstd::arithmetic::power::pow(x as int, n as nat))),
            ),
        ),
        x < 0 && n % 2 == 1 ==> vstd::arithmetic::power::pow(x as int, n as nat) < 0,
{
    if x < 0 && n % 2 == 1 {
        lemma_odd_power_negative(x as int, (n / 2) as nat);
        assert(2 * ((n / 2) as nat) + 1 == n as nat);
    }
    let vx = SpecValue::Number(crate::number::rat_of_int(x as int));
    let vn = SpecValue::Number(crate::number::rat_of_int(n as int));
    lemma_pop_push(st, vx);
    lemma_pop_push(st, vn);
    assert(sem_expr(d, st, SpecExpr::Number(x), l, c) == Ok::<SpecState, Failure>(crate::semantics::push(st, vx)));
    assert(sem_expr(d, st, SpecExpr::Number(n), l, c) == Ok::<SpecState, Failure>(crate::semantics::push(st, vn)));
    let rx = crate::number::rat_of_int(x as int);
    let rn = crate::number::rat_of_int(n as int);
    let p = vstd::arithmetic::power::pow(x as int, n as nat);
    assert(n * 1 == n && (i32::MAX as int) * 1 == i32::MAX as int);
    assert(crate::number::rat_le(rn, crate::number::rat_of_int(i32::MAX as int)));
    assert(crate::number::rat_trunc(rn) == n as int);
    lemma_pow_of_one(n as nat);
    lemma_gcd_one(crate::number::abs(p));
    assert(crate::number::abs(1int) == 1);
    assert(crate::number::rat_pow(rx, n as int) == crate::number::canon(p, 1));
    assert(crate::number::rat_pow(rx, n as int) == crate::number::rat_of_int(p));
    let ops = seq![seq!['+'], seq!['-'], seq!['*'], seq!['/'], seq!['%'], seq!['^']];
    assert(ops[0][0] == '+' && ops[1][0] == '-' && ops[2][0] == '*' && ops[3][0] == '/' && ops[4][0] == '%'
        && ops[5][0] == '^');
    assert(seq!['^'] != seq!['+'] && seq!['^'] != seq!['-'] && seq!['^'] != seq!['*'] && seq!['^'] != seq!['/']
        && seq!['^'] != seq!['%']);
}

/// Subtracting an integer literal from an expression that leaves the integer `a`.
proof fn lemma_sub_literal(d: nat, st: SpecState, e: SpecExpr, a: int, z: i64, l: int, c: int)
    requires
        sem_expr(d, st, e, l, c) == Ok::<SpecState, Failure>(
            crate::semantics::push(st, SpecValue::Number(crate::number::rat_of_int(a))),
        ),
    ensures
        sem_expr(d, st, SpecExpr::BinaryOp(Box::new(e), seq!['-'], Box::new(SpecExpr::Number(z))), l, c)
            == Ok::<SpecState, Failure>(
            crate::semantics::push(st, SpecValue::Number(crate::number::rat_of_int(a - z))),
        ),
{
    let va = SpecValue::Number(crate::number::rat_of_int(a));
    let vz = SpecValue::Number(crate::number::rat_of_int(z as int));
    lemma_pop_push(st, va);
    lemma_pop_push(st, vz);
    assert(sem_expr(d, st, SpecExpr::Number(z), l, c) == Ok::<SpecState, Failure>(crate::semantics::push(st, vz)));
    let ra = crate::number::rat_of_int(a);
    let rz = crate::number::rat_of_int(z as int);
    assert(a * 1 - z * 1 == a - z);
    lemma_gcd_one(crate::number::abs(a - z));
    assert(crate::number::abs(1int) == 1);
    assert(1int * 1 == 1);
    assert(crate::number::gcd(crate::number::abs(a * 1 - z * 1), crate::number::abs(1int)) == 1);
    assert((a - z) / 1 == a - z && 1int / 1 == 1);
    assert(crate::number::canon(a - z, 1) == crate::number::rat_of_int(a - z));
    assert(crate::number::rat_sub(ra, rz) == crate::number::rat_of_int(a - z));
    assert(seq!['-'][0] == '-' && seq!['+'][0] == '+');
    assert(seq!['-'] != seq!['+']);
}

/// Subtraction groups to the left when evaluated: `(x - y) - z` on integer literals
/// leaves the integer `x - y - z`.
pub proof fn law_subtraction_chain(d: nat, st: SpecState, x: i64, y: i64, z: i64, l: int, c: int)
    ensures
        sem_expr(
            d,
            st,
            SpecExpr::BinaryOp(Box::new(int_binop(x, seq!['-'], y)), seq!['-'], Box::new(SpecExpr::Number(z))),
            l,
            c,
        ) == Ok::<SpecState, Failure>(
            crate::semantics::push(st, SpecValue::Number(crate::number::rat_of_int(x - y - z))),
        ),
{
    assert(sem_expr(d, st, SpecExpr::Number(x), l, c) == Ok::<SpecState, Failure>(
        crate::semantics::push(st, SpecValue::Number(crate::number::rat_of_int(x as int))),
    ));
    lemma_sub_literal(d, st, SpecExpr::Number(x), x as int, y, l, c);
    lemma_sub_literal(d, st, int_binop(x, seq!['-'], y), x - y, z, l, c);
}

/// `gcd(0, b)` is `b`.
proof fn lemma_gcd_zero(b: nat)
    requires
        b > 0,
    ensures
        crate::number::gcd(0, b) == b,
{
    reveal_with_fuel(crate::number::gcd, 3);
}

/// `-(e)` as an expression.
pub open spec fn negation(e: SpecExpr) -> SpecExpr {
    SpecExpr::UnaryOp(seq!['-'], Box::new(e))
}

/// Unary minus negates every number: where `e` leaves the number `n` and changes nothing
/// else, `-(e)` leaves a number whose sum with `n` is zero, and `-(-(e))` leaves `n` again.
pub proof fn law_negation(d: nat, st: SpecState, e: SpecExpr, n: crate::number::Rat, l: int, c: int)
    requires
        n.den > 0,
        sem_expr(d, st, e, l, c) == Ok::<SpecState, Failure>(crate::semantics::push(st, SpecValue::Number(n))),
    ensures
        sem_expr(d, st, negation(e), l, c) matches Ok(s) && s == crate::semantics::push(st, s.stack.last())
            && (s.stack.last() matches SpecValue::Number(v) && crate::number::rat_add(v, n)
            == crate::number::rat_of_int(0)),
        sem_expr(d, st, negation(negation(e)), l, c) == Ok::<SpecState, Failure>(
            crate::semantics::push(st, SpecValue::Number(n)),
        ),
{
    let v = crate::number::rat_neg(n);
    lemma_pop_push(st, SpecValue::Number(n));
    lemma_pop_push(st, SpecValue::Number(v));
    assert(seq!['-'][0] == '-');
    assert(sem_expr(d, st, negation(e), l, c) == Ok::<SpecState, Failure>(
        crate::semantics::push(st, SpecValue::Number(v)),
    ));
    assert(crate::semantics::push(st, SpecValue::Number(v)).stack.last() == SpecValue::Number(v));
    assert(v.num * n.den + n.num * v.den == 0) by (nonlinear_arith)
        requires
            v.num == -n.num,
            v.den == n.den,
    ;
    assert(v.den * n.den > 0) by (nonlinear_arith)
        requires
            v.den == n.den,
            n.den > 0,
    ;
    let dd = v.den * n.den;
    lemma_gcd_zero(dd as nat);
    assert(crate::number::abs(0) == 0);
    assert(crate::number::abs(dd) == dd);
    assert(dd / dd == 1 && 0int / dd == 0) by (nonlinear_arith)
        requires
            dd > 0,
    ;
    assert(crate::number::rat_add(v, n) == crate::number::canon(0, v.den * n.den));
    assert(crate::number::rat_neg(v) == n);
}

} // verus!
