//! Running a program again with more input lines: what the first run wrote is written
//! again, and a run that did not need the new lines ends as before.
use vstd::prelude::*;

use crate::ast::{SpecExpr, SpecNode, SpecStmt};
use crate::builtins::Builtin;
use crate::interpreter::{SpecFrame, SpecValue};
use crate::laws::{
    lemma_bind_keeps, lemma_block_keeps, lemma_call_keeps, lemma_expr_keeps, lemma_stmt_keeps,
    prefix_of,
};
use crate::objects::{SpecBody, SpecFunction, SpecObject};
use crate::semantics::{
    arith, call_builtin, insert_var_last, lambda_name, pop, sem_args, sem_bind, sem_block, sem_call,
    sem_expr, sem_let_value, sem_stmt, with_frames, with_stack, Failure, RunErrorKind, Sem, SpecOutput,
    SpecState,
};

verus! {

/// `st` with `more` input lines after its own.
pub open spec fn more_input(st: SpecState, more: Seq<Seq<char>>) -> SpecState {
    SpecState {
        stack: st.stack,
        frames: st.frames,
        output: st.output,
        inputs: st.inputs + more,
        input_pos: st.input_pos,
    }
}

/// The output an outcome has written.
pub open spec fn output_of(r: Sem) -> Seq<SpecOutput> {
    match r {
        Ok(s) => s.output,
        Err(f) => f.output,
    }
}

/// How the outcome `r2` of a run with `more` input lines relates to the outcome `r` of the
/// same run without them: a success or a failure for another reason than missing input is
/// the same (with the extra lines kept); a run that stopped for want of input has its output
/// written again at the start of the other.
pub open spec fn replays(r: Sem, r2: Sem, more: Seq<Seq<char>>) -> bool {
    match r {
        Ok(s) => r2 == Ok::<SpecState, Failure>(more_input(s, more)),
        Err(f) => if f.err.kind == RunErrorKind::NeedInput {
            prefix_of(f.output, output_of(r2))
        } else {
            r2 == Err::<SpecState, Failure>(f)
        },
    }
}

/// `replays` for outcomes that carry a value along with the state.
pub open spec fn replays_with<T>(
    r: Result<(SpecState, T), Failure>,
    r2: Result<(SpecState, T), Failure>,
    more: Seq<Seq<char>>,
) -> bool {
    match r {
        Ok((s, x)) => r2 == Ok::<(SpecState, T), Failure>((more_input(s, more), x)),
        Err(f) => if f.err.kind == RunErrorKind::NeedInput {
            match r2 {
                Ok((s2, _)) => prefix_of(f.output, s2.output),
                Err(g) => prefix_of(f.output, g.output),
            }
        } else {
            r2 == Err::<(SpecState, T), Failure>(f)
        },
    }
}

proof fn lemma_pop_more(st: SpecState, more: Seq<Seq<char>>)
    ensures
        pop(more_input(st, more)) == match pop(st) {
            Ok((s, v)) => Ok::<(SpecState, SpecValue), Failure>((more_input(s, more), v)),
            Err(f) => Err(f),
        },
{
}

proof fn lemma_insert_more(st: SpecState, k: Seq<char>, v: SpecValue, more: Seq<Seq<char>>)
    ensures
        replays(insert_var_last(st, k, v), insert_var_last(more_input(st, more), k, v), more),
{
}

proof fn lemma_arith_more(
    st: SpecState,
    op: Seq<char>,
    a: crate::number::Rat,
    b: crate::number::Rat,
    l: int,
    c: int,
    more: Seq<Seq<char>>,
)
    ensures
        replays(arith(st, op, a, b, l, c), arith(more_input(st, more), op, a, b, l, c), more),
{
}

proof fn lemma_builtin_more(st: SpecState, b: Builtin, vals: Seq<SpecValue>, l: int, c: int, more: Seq<Seq<char>>)
    ensures
        replays(call_builtin(st, b, vals, l, c), call_builtin(more_input(st, more), b, vals, l, c), more),
{
    let st1 = crate::semantics::print_all(st, vals);
    assert(crate::semantics::print_all(more_input(st, more), vals) == more_input(st1, more));
    if b == Builtin::Input && 0 <= st1.input_pos < st1.inputs.len() {
        assert((st1.inputs + more)[st1.input_pos] == st1.inputs[st1.input_pos]);
    }
}

proof fn lemma_find_var_more(st: SpecState, name: Seq<char>, more: Seq<Seq<char>>)
    ensures
        crate::semantics::find_var(more_input(st, more), name) == crate::semantics::find_var(st, name),
{
}

/// What the rest of a binary operation keeps once its left operand is evaluated.
proof fn lemma_binop_rest_keeps(
    d: nat,
    st: SpecState,
    lhs: SpecExpr,
    op: Seq<char>,
    rhs: SpecExpr,
    l: int,
    c: int,
)
    requires
        sem_expr(d, st, lhs, l, c) is Ok,
    ensures
        prefix_of(
            sem_expr(d, st, lhs, l, c)->Ok_0.output,
            output_of(sem_expr(d, st, SpecExpr::BinaryOp(Box::new(lhs), op, Box::new(rhs)), l, c)),
        ),
{
    let s1 = sem_expr(d, st, lhs, l, c)->Ok_0;
    crate::laws::lemma_pop_keeps(s1);
    match pop(s1) {
        Ok((s2, lv)) => {
            lemma_expr_keeps(d, s2, rhs, l, c);
            match sem_expr(d, s2, rhs, l, c) {
                Ok(s3) => {
                    crate::laws::lemma_pop_keeps(s3);
                    match pop(s3) {
                        Ok((s4, rv)) => {
                            match (lv, rv) {
                                (SpecValue::Number(a), SpecValue::Number(b)) => crate::laws::lemma_arith_keeps(
                                    s4,
                                    op,
                                    a,
                                    b,
                                    l,
                                    c,
                                ),
                                _ => {},
                            }
                        },
                        Err(_) => {},
                    }
                },
                Err(_) => {},
            }
        },
        Err(_) => {},
    }
}

/// What the rest of an `if` keeps once its condition is evaluated.
proof fn lemma_if_rest_keeps(
    d: nat,
    st: SpecState,
    cond: SpecExpr,
    then: SpecExpr,
    els: Option<Box<SpecExpr>>,
    l: int,
    c: int,
)
    requires
        sem_expr(d, st, cond, l, c) is Ok,
    ensures
        prefix_of(
            sem_expr(d, st, cond, l, c)->Ok_0.output,
            output_of(sem_expr(d, st, SpecExpr::If(Box::new(cond), Box::new(then), els), l, c)),
        ),
{
    let s1 = sem_expr(d, st, cond, l, c)->Ok_0;
    crate::laws::lemma_pop_keeps(s1);
    match pop(s1) {
        Ok((s2, _)) => {
            lemma_expr_keeps(d, s2, then, l, c);
            match els {
                Some(x) => lemma_expr_keeps(d, s2, *x, l, c),
                None => {},
            }
        },
        Err(_) => {},
    }
}

/// What the rest of a call of a function value keeps once the function is evaluated.
proof fn lemma_dyncall_rest_keeps(d: nat, st: SpecState, fe: SpecExpr, args: Seq<SpecExpr>, l: int, c: int)
    requires
        sem_expr(d, st, fe, l, c) is Ok,
    ensures
        prefix_of(
            sem_expr(d, st, fe, l, c)->Ok_0.output,
            output_of(sem_expr(d, st, SpecExpr::DynCall(Box::new(fe), args), l, c)),
        ),
{
    let s1 = sem_expr(d, st, fe, l, c)->Ok_0;
    if s1.stack.len() > 0 {
        let s2 = with_stack(s1, s1.stack.subrange(0, s1.stack.len() - 1));
        match s1.stack[s1.stack.len() - 1] {
            SpecValue::Object(SpecObject::Function(f)) => lemma_call_keeps(d, s2, lambda_name(), f, args, l, c),
            _ => {},
        }
    }
}

/// An expression run with more input lines replays its run without them.
pub proof fn lemma_expr_replays(d: nat, st: SpecState, e: SpecExpr, l: int, c: int, more: Seq<Seq<char>>)
    ensures
        replays(sem_expr(d, st, e, l, c), sem_expr(d, more_input(st, more), e, l, c), more),
    decreases d, e, 0nat,
{
    let st2 = more_input(st, more);
    match e {
        SpecExpr::Ident(name) => lemma_find_var_more(st, name, more),
        SpecExpr::BinaryOp(lhs, op, rhs) => {
            lemma_expr_replays(d, st, *lhs, l, c, more);
            match sem_expr(d, st, *lhs, l, c) {
                Ok(s1) => {
                    lemma_pop_more(s1, more);
                    match pop(s1) {
                        Ok((s2, lv)) => {
                            lemma_expr_replays(d, s2, *rhs, l, c, more);
                            match sem_expr(d, s2, *rhs, l, c) {
                                Ok(s3) => {
                                    lemma_pop_more(s3, more);
                                    match pop(s3) {
                                        Ok((s4, rv)) => match (lv, rv) {
                                            (SpecValue::Number(a), SpecValue::Number(b)) => lemma_arith_more(
                                                s4,
                                                op,
                                                a,
                                                b,
                                                l,
                                                c,
                                                more,
                                            ),
                                            _ => {},
                                        },
                                        Err(_) => {},
                                    }
                                },
                                Err(f) => {
                                    if f.err.kind == RunErrorKind::NeedInput {
                                        match sem_expr(d, more_input(s2, more), *rhs, l, c) {
                                            Ok(s3) => {
                                                crate::laws::lemma_pop_keeps(s3);
                                                match pop(s3) {
                                                    Ok((s4, rv)) => match (lv, rv) {
                                                        (SpecValue::Number(a), SpecValue::Number(b)) => crate::laws::lemma_arith_keeps(
                                                            s4,
                                                            op,
                                                            a,
                                                            b,
                                                            l,
                                                            c,
                                                        ),
                                                        _ => {},
                                                    },
                                                    Err(_) => {},
                                                }
                                            },
                                            Err(_) => {},
                                        }
                                    }
                                },
                            }
                        },
                        Err(_) => {},
                    }
                },
                Err(f) => {
                    if f.err.kind == RunErrorKind::NeedInput {
                        if sem_expr(d, st2, *lhs, l, c) is Ok {
                            lemma_binop_rest_keeps(d, st2, *lhs, op, *rhs, l, c);
                        }
                    }
                },
            }
        },
        SpecExpr::UnaryOp(_, x) => {
            lemma_expr_replays(d, st, *x, l, c, more);
            match sem_expr(d, st, *x, l, c) {
                Ok(s1) => lemma_pop_more(s1, more),
                Err(f) => {
                    match sem_expr(d, st2, *x, l, c) {
                        Ok(s1) => crate::laws::lemma_pop_keeps(s1),
                        Err(_) => {},
                    }
                },
            }
        },
        SpecExpr::Assign(name, init) => {
            lemma_expr_replays(d, st, *init, l, c, more);
            match sem_expr(d, st, *init, l, c) {
                Ok(s1) => {
                    lemma_pop_more(s1, more);
                    match pop(s1) {
                        Ok((s2, v)) => lemma_insert_more(s2, name, v, more),
                        Err(_) => {},
                    }
                },
                Err(f) => {
                    match sem_expr(d, st2, *init, l, c) {
                        Ok(s1) => {
                            crate::laws::lemma_pop_keeps(s1);
                            match pop(s1) {
                                Ok((s2, v)) => crate::laws::lemma_insert_keeps(s2, name, v),
                                Err(_) => {},
                            }
                        },
                        Err(_) => {},
                    }
                },
            }
        },
        SpecExpr::Block(ss) => {
            lemma_block_replays(d, st, ss, more);
        },
        SpecExpr::Call(name, args) => {
            lemma_find_var_more(st, name, more);
            match crate::semantics::find_var(st, name) {
                Ok(Some(SpecValue::Object(SpecObject::Function(f)))) => lemma_call_replays(
                    d,
                    st,
                    name,
                    f,
                    args,
                    l,
                    c,
                    more,
                ),
                _ => {},
            }
        },
        SpecExpr::DynCall(fe, args) => {
            lemma_expr_replays(d, st, *fe, l, c, more);
            match sem_expr(d, st, *fe, l, c) {
                Ok(s1) => {
                    if s1.stack.len() > 0 {
                        let s2 = with_stack(s1, s1.stack.subrange(0, s1.stack.len() - 1));
                        assert(with_stack(more_input(s1, more), s1.stack.subrange(0, s1.stack.len() - 1))
                            == more_input(s2, more));
                        match s1.stack[s1.stack.len() - 1] {
                            SpecValue::Object(SpecObject::Function(f)) => lemma_call_replays(
                                d,
                                s2,
                                lambda_name(),
                                f,
                                args,
                                l,
                                c,
                                more,
                            ),
                            _ => {},
                        }
                    }
                },
                Err(f) => {
                    if sem_expr(d, st2, *fe, l, c) is Ok {
                        lemma_dyncall_rest_keeps(d, st2, *fe, args, l, c);
                    }
                },
            }
        },
        SpecExpr::If(cond, then, els) => {
            lemma_expr_replays(d, st, *cond, l, c, more);
            match sem_expr(d, st, *cond, l, c) {
                Ok(s1) => {
                    lemma_pop_more(s1, more);
                    match pop(s1) {
                        Ok((s2, _)) => {
                            lemma_expr_replays(d, s2, *then, l, c, more);
                            match els {
                                Some(x) => lemma_expr_replays(d, s2, *x, l, c, more),
                                None => {},
                            }
                        },
                        Err(_) => {},
                    }
                },
                Err(f) => {
                    if sem_expr(d, st2, *cond, l, c) is Ok {
                        lemma_if_rest_keeps(d, st2, *cond, *then, els, l, c);
                    }
                },
            }
        },
        _ => {},
    }
}

/// A statement run with more input lines replays its run without them.
pub proof fn lemma_stmt_replays(d: nat, st: SpecState, s: SpecStmt, l: int, c: int, more: Seq<Seq<char>>)
    ensures
        replays(sem_stmt(d, st, s, l, c), sem_stmt(d, more_input(st, more), s, l, c), more),
    decreases d, s, 0nat,
{
    match s {
        SpecStmt::TailReturn(e) => lemma_expr_replays(d, st, *e, l, c, more),
        SpecStmt::Return(e) => lemma_expr_replays(d, st, *e, l, c, more),
        SpecStmt::Expr(e) => lemma_expr_replays(d, st, *e, l, c, more),
        SpecStmt::NotPopValueExpr(e) => lemma_expr_replays(d, st, *e, l, c, more),
        SpecStmt::Let(lhs, r) => {
            match *lhs {
                SpecExpr::Ident(name) => match r.stmt {
                    SpecStmt::NotPopValueExpr(e) => lemma_let_value_replays(d, st, name, *e, r.l, r.c, more),
                    _ => {},
                },
                SpecExpr::IdentList(ps) => {
                    if ps.len() > 0 {
                        lemma_insert_more(
                            st,
                            ps[0],
                            SpecValue::Object(
                                SpecObject::Function(
                                    SpecFunction {
                                        params: ps.subrange(1, ps.len() as int),
                                        body: SpecBody::General(r.stmt),
                                    },
                                ),
                            ),
                            more,
                        );
                    }
                },
                _ => {},
            }
        },
    }
}

/// `let name = e;` run with more input lines replays its run without them.
pub proof fn lemma_let_value_replays(
    d: nat,
    st: SpecState,
    name: Seq<char>,
    e: SpecExpr,
    l: int,
    c: int,
    more: Seq<Seq<char>>,
)
    ensures
        replays(sem_let_value(d, st, name, e, l, c), sem_let_value(d, more_input(st, more), name, e, l, c), more),
    decreases d, e, 1nat,
{
    lemma_expr_replays(d, st, e, l, c, more);
    match sem_expr(d, st, e, l, c) {
        Ok(s1) => {
            lemma_pop_more(s1, more);
            match pop(s1) {
                Ok((s2, v)) => lemma_insert_more(s2, name, v, more),
                Err(_) => {},
            }
        },
        Err(_) => {
            match sem_expr(d, more_input(st, more), e, l, c) {
                Ok(s1) => {
                    crate::laws::lemma_pop_keeps(s1);
                    match pop(s1) {
                        Ok((s2, v)) => crate::laws::lemma_insert_keeps(s2, name, v),
                        Err(_) => {},
                    }
                },
                Err(_) => {},
            }
        },
    }
}

/// Statements run with more input lines replay their run without them.
pub proof fn lemma_block_replays(d: nat, st: SpecState, ss: Seq<SpecNode>, more: Seq<Seq<char>>)
    ensures
        replays(sem_block(d, st, ss), sem_block(d, more_input(st, more), ss), more),
    decreases d, ss, 0nat,
{
    if ss.len() > 0 {
        lemma_stmt_replays(d, st, ss[0].stmt, ss[0].l, ss[0].c, more);
        match sem_stmt(d, st, ss[0].stmt, ss[0].l, ss[0].c) {
            Ok(s1) => lemma_block_replays(d, s1, ss.subrange(1, ss.len() as int), more),
            Err(_) => {
                match sem_stmt(d, more_input(st, more), ss[0].stmt, ss[0].l, ss[0].c) {
                    Ok(s1) => lemma_block_keeps(d, s1, ss.subrange(1, ss.len() as int)),
                    Err(_) => {},
                }
            },
        }
    }
}

/// A call run with more input lines replays its run without them.
pub proof fn lemma_call_replays(
    d: nat,
    st: SpecState,
    name: Seq<char>,
    f: SpecFunction,
    args: Seq<SpecExpr>,
    l: int,
    c: int,
    more: Seq<Seq<char>>,
)
    ensures
        replays(sem_call(d, st, name, f, args, l, c), sem_call(d, more_input(st, more), name, f, args, l, c), more),
    decreases d, args, 1nat,
{
    let st2 = more_input(st, more);
    match f.body {
        SpecBody::General(body) => {
            if d > 0 {
                lemma_bind_replays(d, st, f.params, args, seq![], l, c, more);
                match sem_bind(d, st, f.params, args, seq![], l, c) {
                    Ok((s1, vars)) => {
                        let fr = SpecFrame { name, vars, func: Some(f), last_ret_idx: 0 };
                        let s2 = with_frames(s1, s1.frames.push(fr));
                        assert(with_frames(more_input(s1, more), s1.frames.push(fr)) == more_input(s2, more));
                        lemma_stmt_replays((d - 1) as nat, s2, body, l, c, more);
                        match sem_stmt((d - 1) as nat, s2, body, l, c) {
                            Ok(s3) => {
                                if s3.frames.len() > 0 {
                                    assert(with_frames(
                                        more_input(s3, more),
                                        s3.frames.subrange(0, s3.frames.len() - 1),
                                    ) == more_input(with_frames(s3, s3.frames.subrange(0, s3.frames.len() - 1)), more));
                                }
                            },
                            Err(_) => {},
                        }
                    },
                    Err(_) => {
                        match sem_bind(d, st2, f.params, args, seq![], l, c) {
                            Ok((s1, vars)) => {
                                let s2 = with_frames(
                                    s1,
                                    s1.frames.push(SpecFrame { name, vars, func: Some(f), last_ret_idx: 0 }),
                                );
                                lemma_stmt_keeps((d - 1) as nat, s2, body, l, c);
                            },
                            Err(_) => {},
                        }
                    },
                }
            }
        },
        SpecBody::Native(b) => {
            lemma_args_replays(d, st, args, seq![], l, c, more);
            match sem_args(d, st, args, seq![], l, c) {
                Ok((s1, vals)) => lemma_builtin_more(s1, b, vals, l, c, more),
                Err(_) => {
                    match sem_args(d, st2, args, seq![], l, c) {
                        Ok((s1, vals)) => crate::laws::lemma_builtin_keeps(s1, b, vals, l, c),
                        Err(_) => {},
                    }
                },
            }
        },
    }
}

/// Binding arguments with more input lines replays binding them without.
pub proof fn lemma_bind_replays(
    d: nat,
    st: SpecState,
    params: Seq<Seq<char>>,
    args: Seq<SpecExpr>,
    vars: Seq<(Seq<char>, SpecValue)>,
    l: int,
    c: int,
    more: Seq<Seq<char>>,
)
    ensures
        replays_with(
            sem_bind(d, st, params, args, vars, l, c),
            sem_bind(d, more_input(st, more), params, args, vars, l, c),
            more,
        ),
    decreases d, args, 0nat,
{
    if params.len() > 0 && args.len() > 0 {
        lemma_expr_replays(d, st, args[0], l, c, more);
        match sem_expr(d, st, args[0], l, c) {
            Ok(s1) => {
                lemma_pop_more(s1, more);
                match pop(s1) {
                    Ok((s2, v)) => lemma_bind_replays(
                        d,
                        s2,
                        params.subrange(1, params.len() as int),
                        args.subrange(1, args.len() as int),
                        crate::semantics::vars_insert(vars, params[0], v),
                        l,
                        c,
                        more,
                    ),
                    Err(_) => {},
                }
            },
            Err(_) => {
                match sem_expr(d, more_input(st, more), args[0], l, c) {
                    Ok(s1) => {
                        crate::laws::lemma_pop_keeps(s1);
                        match pop(s1) {
                            Ok((s2, v)) => lemma_bind_keeps(
                                d,
                                s2,
                                params.subrange(1, params.len() as int),
                                args.subrange(1, args.len() as int),
                                crate::semantics::vars_insert(vars, params[0], v),
                                l,
                                c,
                            ),
                            Err(_) => {},
                        }
                    },
                    Err(_) => {},
                }
            },
        }
    }
}

/// Evaluating arguments with more input lines replays evaluating them without.
pub proof fn lemma_args_replays(
    d: nat,
    st: SpecState,
    args: Seq<SpecExpr>,
    vals: Seq<SpecValue>,
    l: int,
    c: int,
    more: Seq<Seq<char>>,
)
    ensures
        replays_with(sem_args(d, st, args, vals, l, c), sem_args(d, more_input(st, more), args, vals, l, c), more),
    decreases d, args, 0nat,
{
    if args.len() > 0 {
        lemma_expr_replays(d, st, args[0], l, c, more);
        match sem_expr(d, st, args[0], l, c) {
            Ok(s1) => {
                lemma_pop_more(s1, more);
                match pop(s1) {
                    Ok((s2, v)) => lemma_args_replays(
                        d,
                        s2,
                        args.subrange(1, args.len() as int),
                        vals.push(v),
                        l,
                        c,
                        more,
                    ),
                    Err(_) => {},
                }
            },
            Err(_) => {
                match sem_expr(d, more_input(st, more), args[0], l, c) {
                    Ok(s1) => {
                        crate::laws::lemma_pop_keeps(s1);
                        match pop(s1) {
                            Ok((s2, v)) => crate::laws::lemma_args_keeps(
                                d,
                                s2,
                                args.subrange(1, args.len() as int),
                                vals.push(v),
                                l,
                                c,
                            ),
                            Err(_) => {},
                        }
                    },
                    Err(_) => {},
                }
            },
        }
    }
}

/// Running a program again with more input lines replays the earlier run: if it ended,
/// or stopped for another reason than missing input, it does so again in the same way;
/// if it stopped for want of input, everything it wrote is written again first.
pub proof fn law_replay_with_more_input(d: nat, st: SpecState, prog: Seq<SpecNode>, more: Seq<Seq<char>>)
    ensures
        replays(sem_block(d, st, prog), sem_block(d, more_input(st, more), prog), more),
{
    lemma_block_replays(d, st, prog, more);
}

} // verus!
