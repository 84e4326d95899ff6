//! The depth limit only cuts runs off: a run that stays within it is the same under any
//! higher limit.
use vstd::prelude::*;

use crate::ast::{SpecExpr, SpecNode, SpecStmt};
use crate::interpreter::{SpecFrame, SpecValue};
use crate::objects::{SpecBody, SpecFunction, SpecObject};
use crate::semantics::{
    lambda_name, pop, sem_args, sem_bind, sem_block, sem_call, sem_expr, sem_let_value, sem_stmt,
    with_frames, with_stack, Failure, RunErrorKind, Sem, SpecState,
};

verus! {

/// The outcome `r2` under a higher depth limit agrees with the outcome `r`, unless `r`
/// was cut off by the limit.
pub open spec fn deeper_agrees(r: Sem, r2: Sem) -> bool {
    match r {
        Ok(_) => r2 == r,
        Err(f) => f.err.kind != RunErrorKind::CallDepthExceeded ==> r2 == r,
    }
}

/// `deeper_agrees` for outcomes that carry a value along with the state.
pub open spec fn deeper_agrees_with<T>(r: Result<(SpecState, T), Failure>, r2: Result<(SpecState, T), Failure>) -> bool {
    match r {
        Ok(_) => r2 == r,
        Err(f) => f.err.kind != RunErrorKind::CallDepthExceeded ==> r2 == r,
    }
}

/// An expression evaluated under a depth limit one higher agrees with its evaluation here.
pub proof fn lemma_expr_deeper(d: nat, st: SpecState, e: SpecExpr, l: int, c: int)
    ensures
        deeper_agrees(sem_expr(d, st, e, l, c), sem_expr(d + 1, st, e, l, c)),
    decreases d, e, 0nat,
{
    match e {
        SpecExpr::BinaryOp(lhs, op, rhs) => {
            lemma_expr_deeper(d, st, *lhs, l, c);
            match sem_expr(d, st, *lhs, l, c) {
                Ok(s1) => match pop(s1) {
                    Ok((s2, _)) => lemma_expr_deeper(d, s2, *rhs, l, c),
                    Err(_) => {},
                },
                Err(_) => {},
            }
        },
        SpecExpr::UnaryOp(_, x) => lemma_expr_deeper(d, st, *x, l, c),
        SpecExpr::Assign(_, init) => lemma_expr_deeper(d, st, *init, l, c),
        SpecExpr::Block(ss) => lemma_block_deeper(d, st, ss),
        SpecExpr::Call(name, args) => {
            match crate::semantics::find_var(st, name) {
                Ok(Some(SpecValue::Object(SpecObject::Function(f)))) => lemma_call_deeper(d, st, name, f, args, l, c),
                _ => {},
            }
        },
        SpecExpr::DynCall(fe, args) => {
            lemma_expr_deeper(d, st, *fe, l, c);
            match sem_expr(d, st, *fe, l, c) {
                Ok(s1) => {
                    if s1.stack.len() > 0 {
                        let s2 = with_stack(s1, s1.stack.subrange(0, s1.stack.len() - 1));
                        match s1.stack[s1.stack.len() - 1] {
                            SpecValue::Object(SpecObject::Function(f)) => lemma_call_deeper(d, s2, lambda_name(), f, args, l, c),
                            _ => {},
                        }
                    }
                },
                Err(_) => {},
            }
        },
        SpecExpr::If(cond, then, els) => {
            lemma_expr_deeper(d, st, *cond, l, c);
            match sem_expr(d, st, *cond, l, c) {
                Ok(s1) => match pop(s1) {
                    Ok((s2, _)) => {
                        lemma_expr_deeper(d, s2, *then, l, c);
                        match els {
                            Some(x) => lemma_expr_deeper(d, s2, *x, l, c),
                            None => {},
                        }
                    },
                    Err(_) => {},
                },
                Err(_) => {},
            }
        },
        _ => {},
    }
}

/// A statement run under a depth limit one higher agrees with its run here.
pub proof fn lemma_stmt_deeper(d: nat, st: SpecState, s: SpecStmt, l: int, c: int)
    ensures
        deeper_agrees(sem_stmt(d, st, s, l, c), sem_stmt(d + 1, st, s, l, c)),
    decreases d, s, 0nat,
{
    match s {
        SpecStmt::TailReturn(e) => lemma_expr_deeper(d, st, *e, l, c),
        SpecStmt::Return(e) => lemma_expr_deeper(d, st, *e, l, c),
        SpecStmt::Expr(e) => lemma_expr_deeper(d, st, *e, l, c),
        SpecStmt::NotPopValueExpr(e) => lemma_expr_deeper(d, st, *e, l, c),
        SpecStmt::Let(lhs, r) => match *lhs {
            SpecExpr::Ident(name) => match r.stmt {
                SpecStmt::NotPopValueExpr(e) => lemma_let_value_deeper(d, st, name, *e, r.l, r.c),
                _ => {},
            },
            _ => {},
        },
    }
}

/// `let name = e;` under a depth limit one higher agrees with its run here.
pub proof fn lemma_let_value_deeper(d: nat, st: SpecState, name: Seq<char>, e: SpecExpr, l: int, c: int)
    ensures
        deeper_agrees(sem_let_value(d, st, name, e, l, c), sem_let_value(d + 1, st, name, e, l, c)),
    decreases d, e, 1nat,
{
    lemma_expr_deeper(d, st, e, l, c);
}

/// Statements run under a depth limit one higher agree with their run here.
pub proof fn lemma_block_deeper(d: nat, st: SpecState, ss: Seq<SpecNode>)
    ensures
        deeper_agrees(sem_block(d, st, ss), sem_block(d + 1, st, ss)),
    decreases d, ss, 0nat,
{
    if ss.len() > 0 {
        lemma_stmt_deeper(d, st, ss[0].stmt, ss[0].l, ss[0].c);
        match sem_stmt(d, st, ss[0].stmt, ss[0].l, ss[0].c) {
            Ok(s1) => lemma_block_deeper(d, s1, ss.subrange(1, ss.len() as int)),
            Err(_) => {},
        }
    }
}

/// A call under a depth limit one higher agrees with the call here.
pub proof fn lemma_call_deeper(
    d: nat,
    st: SpecState,
    name: Seq<char>,
    f: SpecFunction,
    args: Seq<SpecExpr>,
    l: int,
    c: int,
)
    ensures
        deeper_agrees(sem_call(d, st, name, f, args, l, c), sem_call(d + 1, st, name, f, args, l, c)),
    decreases d, args, 1nat,
{
    match f.body {
        SpecBody::General(body) => {
            if d > 0 {
                lemma_bind_deeper(d, st, f.params, args, seq![], l, c);
                match sem_bind(d, st, f.params, args, seq![], l, c) {
                    Ok((s1, vars)) => {
                        let s2 = with_frames(
                            s1,
                            s1.frames.push(SpecFrame { name, vars, func: Some(f), last_ret_idx: 0 }),
                        );
                        lemma_stmt_deeper((d - 1) as nat, s2, body, l, c);
                    },
                    Err(_) => {},
                }
            }
        },
        SpecBody::Native(_) => {
            lemma_args_deeper(d, st, args, seq![], l, c);
        },
    }
}

/// Binding arguments under a depth limit one higher agrees with binding them here.
pub proof fn lemma_bind_deeper(
    d: nat,
    st: SpecState,
    params: Seq<Seq<char>>,
    args: Seq<SpecExpr>,
    vars: Seq<(Seq<char>, SpecValue)>,
    l: int,
    c: int,
)
    ensures
        deeper_agrees_with(sem_bind(d, st, params, args, vars, l, c), sem_bind(d + 1, st, params, args, vars, l, c)),
    decreases d, args, 0nat,
{
    if params.len() > 0 && args.len() > 0 {
        lemma_expr_deeper(d, st, args[0], l, c);
        match sem_expr(d, st, args[0], l, c) {
            Ok(s1) => match pop(s1) {
                Ok((s2, v)) => lemma_bind_deeper(
                    d,
                    s2,
                    params.subrange(1, params.len() as int),
                    args.subrange(1, args.len() as int),
                    crate::semantics::vars_insert(vars, params[0], v),
                    l,
                    c,
                ),
                Err(_) => {},
            },
            Err(_) => {},
        }
    }
}

/// Evaluating arguments under a depth limit one higher agrees with evaluating them here.
pub proof fn lemma_args_deeper(d: nat, st: SpecState, args: Seq<SpecExpr>, vals: Seq<SpecValue>, l: int, c: int)
    ensures
        deeper_agrees_with(sem_args(d, st, args, vals, l, c), sem_args(d + 1, st, args, vals, l, c)),
    decreases d, args, 0nat,
{
    if args.len() > 0 {
        lemma_expr_deeper(d, st, args[0], l, c);
        match sem_expr(d, st, args[0], l, c) {
            Ok(s1) => match pop(s1) {
                Ok((s2, v)) => lemma_args_deeper(d, s2, args.subrange(1, args.len() as int), vals.push(v), l, c),
                Err(_) => {},
            },
            Err(_) => {},
        }
    }
}

/// The depth limit only cuts runs off: a run of a program that was not stopped by the
/// limit ends in the same way under any higher limit.
pub proof fn law_higher_limit_agrees(d: nat, d2: nat, st: SpecState, prog: Seq<SpecNode>)
    requires
        d <= d2,
    ensures
        deeper_agrees(sem_block(d, st, prog), sem_block(d2, st, prog)),
    decreases d2 - d,
{
    if d < d2 {
        lemma_block_deeper(d, st, prog);
        law_higher_limit_agrees(d + 1, d2, st, prog);
    }
}

} // verus!
