use vstd::prelude::*;

use crate::ast::{Expr, Node, SpecExpr, SpecNode, SpecStmt, Stmt, exprs_view, lemma_exprs_view_push, lemma_nodes_view_len, lemma_nodes_view_push, nodes_view, strings_view};
use crate::lexer::{tokens_view, SpecToken, Token, TokenType};
use crate::text::{parse_i64, spec_parse_i64, push_char, push_str};

verus! {

/// Why a token sequence is not a program. Parsing never stops the process: a token
/// sequence that is not a program (a token that starts no expression, a missing `;`, a
/// `let` without a name, a lambda parameter that is not a name, a token other than the
/// one required) gives one of these errors, stated exactly by `spec_parse`.
#[derive(Debug, PartialEq, Eq, Structural)]
pub enum ParseError {
    /// A token of kind `expected` had to stand where a `found` token stands.
    ExpectedToken { expected: TokenType, found: TokenType, l: usize, c: usize },
    /// One of two kinds had to stand where a `found` token stands.
    ExpectedEither { first: TokenType, second: TokenType, found: TokenType, l: usize, c: usize },
    /// No expression can start with this token.
    UnexpectedToken { found: TokenType, l: usize, c: usize },
    /// `let` not followed by a name; the position is that of the `let`.
    ExpectedIdentAfterLet { l: usize, c: usize },
    /// A number literal too large for a 64-bit signed integer.
    InvalidNumber { l: usize, c: usize },
    /// The tokens ended where the parser still had to read one.
    UnexpectedEnd,
}

pub type PRes<T> = Result<(T, int), ParseError>;

pub open spec fn inb(ts: Seq<SpecToken>, i: int) -> bool {
    0 <= i < ts.len()
}

pub open spec fn reached(ts: Seq<SpecToken>, pos: int, p: int) -> bool {
    pos <= p <= ts.len()
}

pub open spec fn progressed(ts: Seq<SpecToken>, pos: int, p: int) -> bool {
    pos < p <= ts.len()
}

/// A parse from `pos` that ended at `p`: it moved forward, or it read nothing
/// because a `;` or the end token stands at `pos`.
pub open spec fn advanced(ts: Seq<SpecToken>, pos: int, p: int) -> bool {
    &&& reached(ts, pos, p)
    &&& (p > pos || (inb(ts, pos) && (ts[pos].t == TokenType::SemiColon || ts[pos].t
        == TokenType::EOF)))
}

pub open spec fn expected_err(ts: Seq<SpecToken>, i: int, t: TokenType) -> ParseError {
    ParseError::ExpectedToken {
        expected: t,
        found: ts[i].t,
        l: ts[i].l as usize,
        c: ts[i].c as usize,
    }
}

pub open spec fn spec_consume(ts: Seq<SpecToken>, i: int, t: TokenType) -> Result<
    int,
    ParseError,
> {
    if !inb(ts, i) {
        Err(ParseError::UnexpectedEnd)
    } else if ts[i].t == t {
        Ok(i + 1)
    } else {
        Err(expected_err(ts, i, t))
    }
}

/// The tokens that can start an argument of a call written without parentheses.
pub open spec fn is_primary_start(t: TokenType) -> bool {
    t == TokenType::Digit || t == TokenType::Ident || t == TokenType::LParen || t
        == TokenType::LBrace || t == TokenType::OpUnarySub || t == TokenType::OpNot || t
        == TokenType::StringLiteral
}

/// The last statement of a block, when it is an expression statement, becomes the
/// block's tail: its value is the value of the block.
pub open spec fn tail_fix(s: Seq<SpecNode>) -> Seq<SpecNode> {
    if s.len() > 0 {
        match s[s.len() - 1].stmt {
            SpecStmt::Expr(e) => s.subrange(0, s.len() - 1).push(
                SpecNode {
                    stmt: SpecStmt::TailReturn(e),
                    l: s[s.len() - 1].l,
                    c: s[s.len() - 1].c,
                },
            ),
            _ => s,
        }
    } else {
        s
    }
}

/// The parameter names of a lambda, read up to `->`.
pub open spec fn spec_lambda_params(ts: Seq<SpecToken>, pos: int, acc: Seq<Seq<char>>) -> PRes<
    Seq<Seq<char>>,
>
    decreases ts.len() - pos,
{
    if !inb(ts, pos) {
        Ok((acc, pos))
    } else if ts[pos].t == TokenType::Arrow || ts[pos].t == TokenType::EOF {
        Ok((acc, pos))
    } else if ts[pos].t == TokenType::Ident {
        let acc2 = acc.push(ts[pos].v);
        if !inb(ts, pos + 1) {
            Err(ParseError::UnexpectedEnd)
        } else if ts[pos + 1].t == TokenType::Arrow {
            Ok((acc2, pos + 1))
        } else {
            spec_lambda_params(ts, pos + 1, acc2)
        }
    } else {
        Ok((acc, pos))
    }
}

/// The parameter names of a function defined by `let`, read up to `=`.
pub open spec fn spec_let_params(ts: Seq<SpecToken>, pos: int, acc: Seq<Seq<char>>) -> PRes<
    Seq<Seq<char>>,
>
    decreases ts.len() - pos,
{
    if !inb(ts, pos) {
        Err(ParseError::UnexpectedEnd)
    } else if ts[pos].t == TokenType::Ident {
        let acc2 = acc.push(ts[pos].v);
        if !inb(ts, pos + 1) {
            Err(ParseError::UnexpectedEnd)
        } else if ts[pos + 1].t == TokenType::Assign {
            Ok((acc2, pos + 1))
        } else {
            spec_let_params(ts, pos + 1, acc2)
        }
    } else {
        Ok((acc, pos))
    }
}

pub open spec fn binop(l: SpecExpr, op: Seq<char>, r: SpecExpr) -> SpecExpr {
    SpecExpr::BinaryOp(Box::new(l), op, Box::new(r))
}

/// expr ::= logical
pub open spec fn spec_parse_expr(ts: Seq<SpecToken>, pos: int) -> PRes<SpecExpr>
    decreases ts.len() - pos, 11nat,
{
    spec_parse_logical(ts, pos)
}

/// logical ::= equality (('and' | 'or') equality)*
pub open spec fn spec_parse_logical(ts: Seq<SpecToken>, pos: int) -> PRes<SpecExpr>
    decreases ts.len() - pos, 10nat,
{
    match spec_parse_equality(ts, pos) {
        Err(e) => Err(e),
        Ok((n, p1)) => if reached(ts, pos, p1) {
            spec_logical_rest(ts, n, p1)
        } else {
            Err(ParseError::UnexpectedEnd)
        },
    }
}

pub open spec fn spec_logical_rest(ts: Seq<SpecToken>, node: SpecExpr, pos: int) -> PRes<
    SpecExpr,
>
    decreases ts.len() - pos, 1nat,
{
    if !inb(ts, pos) {
        Err(ParseError::UnexpectedEnd)
    } else if ts[pos].t == TokenType::KWAnd || ts[pos].t == TokenType::KWOr {
        match spec_parse_equality(ts, pos + 1) {
            Err(e) => Err(e),
            Ok((r, p1)) => if progressed(ts, pos, p1) {
                spec_logical_rest(ts, binop(node, ts[pos].v, r), p1)
            } else {
                Err(ParseError::UnexpectedEnd)
            },
        }
    } else {
        Ok((node, pos))
    }
}

/// equality ::= relational (('==' | '!=') relational)*
pub open spec fn spec_parse_equality(ts: Seq<SpecToken>, pos: int) -> PRes<SpecExpr>
    decreases ts.len() - pos, 9nat,
{
    match spec_parse_relational(ts, pos) {
        Err(e) => Err(e),
        Ok((n, p1)) => if reached(ts, pos, p1) {
            spec_equality_rest(ts, n, p1)
        } else {
            Err(ParseError::UnexpectedEnd)
        },
    }
}

pub open spec fn spec_equality_rest(ts: Seq<SpecToken>, node: SpecExpr, pos: int) -> PRes<
    SpecExpr,
>
    decreases ts.len() - pos, 1nat,
{
    if !inb(ts, pos) {
        Err(ParseError::UnexpectedEnd)
    } else if ts[pos].t == TokenType::OpEq || ts[pos].t == TokenType::OpNe {
        match spec_parse_relational(ts, pos + 1) {
            Err(e) => Err(e),
            Ok((r, p1)) => if progressed(ts, pos, p1) {
                spec_equality_rest(ts, binop(node, ts[pos].v, r), p1)
            } else {
                Err(ParseError::UnexpectedEnd)
            },
        }
    } else {
        Ok((node, pos))
    }
}

/// relational ::= additive (('>' | '<' | '>=' | '<=') additive)*
pub open spec fn spec_parse_relational(ts: Seq<SpecToken>, pos: int) -> PRes<SpecExpr>
    decreases ts.len() - pos, 8nat,
{
    match spec_parse_additive(ts, pos) {
        Err(e) => Err(e),
        Ok((n, p1)) => if reached(ts, pos, p1) {
            spec_relational_rest(ts, n, p1)
        } else {
            Err(ParseError::UnexpectedEnd)
        },
    }
}

pub open spec fn is_relational_op(t: TokenType) -> bool {
    t == TokenType::OpGt || t == TokenType::OpLt || t == TokenType::OpGe || t == TokenType::OpLe
}

pub open spec fn spec_relational_rest(ts: Seq<SpecToken>, node: SpecExpr, pos: int) -> PRes<
    SpecExpr,
>
    decreases ts.len() - pos, 1nat,
{
    if !inb(ts, pos) {
        Err(ParseError::UnexpectedEnd)
    } else if is_relational_op(ts[pos].t) {
        match spec_parse_additive(ts, pos + 1) {
            Err(e) => Err(e),
            Ok((r, p1)) => if progressed(ts, pos, p1) {
                spec_relational_rest(ts, binop(node, ts[pos].v, r), p1)
            } else {
                Err(ParseError::UnexpectedEnd)
            },
        }
    } else {
        Ok((node, pos))
    }
}

/// additive ::= multiplicative (('+' | '-') multiplicative)*
pub open spec fn spec_parse_additive(ts: Seq<SpecToken>, pos: int) -> PRes<SpecExpr>
    decreases ts.len() - pos, 7nat,
{
    match spec_parse_multi(ts, pos) {
        Err(e) => Err(e),
        Ok((n, p1)) => if reached(ts, pos, p1) {
            spec_additive_rest(ts, n, p1)
        } else {
            Err(ParseError::UnexpectedEnd)
        },
    }
}

pub open spec fn spec_additive_rest(ts: Seq<SpecToken>, node: SpecExpr, pos: int) -> PRes<
    SpecExpr,
>
    decreases ts.len() - pos, 1nat,
{
    if !inb(ts, pos) {
        Err(ParseError::UnexpectedEnd)
    } else if ts[pos].t == TokenType::OpAdd || ts[pos].t == TokenType::OpSub {
        match spec_parse_multi(ts, pos + 1) {
            Err(e) => Err(e),
            Ok((r, p1)) => if progressed(ts, pos, p1) {
                spec_additive_rest(ts, binop(node, ts[pos].v, r), p1)
            } else {
                Err(ParseError::UnexpectedEnd)
            },
        }
    } else {
        Ok((node, pos))
    }
}

/// multiplicative ::= expon (('*' | '/' | '%') expon)*
pub open spec fn spec_parse_multi(ts: Seq<SpecToken>, pos: int) -> PRes<SpecExpr>
    decreases ts.len() - pos, 6nat,
{
    match spec_parse_expon(ts, pos) {
        Err(e) => Err(e),
        Ok((n, p1)) => if reached(ts, pos, p1) {
            spec_multi_rest(ts, n, p1)
        } else {
            Err(ParseError::UnexpectedEnd)
        },
    }
}

pub open spec fn spec_multi_rest(ts: Seq<SpecToken>, node: SpecExpr, pos: int) -> PRes<SpecExpr>
    decreases ts.len() - pos, 1nat,
{
    if !inb(ts, pos) {
        Err(ParseError::UnexpectedEnd)
    } else if ts[pos].t == TokenType::OpMul || ts[pos].t == TokenType::OpDiv || ts[pos].t
        == TokenType::OpMod {
        match spec_parse_expon(ts, pos + 1) {
            Err(e) => Err(e),
            Ok((r, p1)) => if progressed(ts, pos, p1) {
                spec_multi_rest(ts, binop(node, ts[pos].v, r), p1)
            } else {
                Err(ParseError::UnexpectedEnd)
            },
        }
    } else {
        Ok((node, pos))
    }
}

/// expon ::= factor ('^' expon)?  (`^` groups to the right)
pub open spec fn spec_parse_expon(ts: Seq<SpecToken>, pos: int) -> PRes<SpecExpr>
    decreases ts.len() - pos, 5nat,
{
    match spec_parse_factor(ts, pos) {
        Err(e) => Err(e),
        Ok((n, p1)) => if !reached(ts, pos, p1) || !inb(ts, p1) {
            Err(ParseError::UnexpectedEnd)
        } else if ts[p1].t == TokenType::OpPow {
            match spec_parse_expon(ts, p1 + 1) {
                Err(e) => Err(e),
                Ok((r, p2)) => Ok((binop(n, ts[p1].v, r), p2)),
            }
        } else {
            Ok((n, p1))
        },
    }
}

/// factor ::= ident '(' args ')' | ident primary+ | ident | primary ('(' args ')')?
pub open spec fn spec_parse_factor(ts: Seq<SpecToken>, pos: int) -> PRes<SpecExpr>
    decreases ts.len() - pos, 4nat,
{
    if !inb(ts, pos) {
        Err(ParseError::UnexpectedEnd)
    } else if ts[pos].t == TokenType::Ident {
        let name = ts[pos].v;
        let p1 = pos + 1;
        if !inb(ts, p1) {
            Err(ParseError::UnexpectedEnd)
        } else if ts[p1].t == TokenType::LParen {
            match spec_call_args(ts, p1 + 1, seq![]) {
                Err(e) => Err(e),
                Ok((args, p2)) => match spec_consume(ts, p2, TokenType::RParen) {
                    Err(e) => Err(e),
                    Ok(p3) => Ok((SpecExpr::Call(name, args), p3)),
                },
            }
        } else if is_primary_start(ts[p1].t) && ts[p1].t != TokenType::EOF {
            match spec_noparen_args(ts, p1, seq![]) {
                Err(e) => Err(e),
                Ok((args, p2)) => Ok((SpecExpr::Call(name, args), p2)),
            }
        } else {
            Ok((SpecExpr::Ident(name), p1))
        }
    } else {
        match spec_parse_primary(ts, pos) {
            Err(e) => Err(e),
            Ok((e, p1)) => if !reached(ts, pos, p1) || !inb(ts, p1) {
                Err(ParseError::UnexpectedEnd)
            } else if ts[p1].t == TokenType::LParen {
                match spec_call_args(ts, p1 + 1, seq![]) {
                    Err(err) => Err(err),
                    Ok((args, p2)) => match spec_consume(ts, p2, TokenType::RParen) {
                        Err(err) => Err(err),
                        Ok(p3) => Ok((SpecExpr::DynCall(Box::new(e), args), p3)),
                    },
                }
            } else {
                Ok((e, p1))
            },
        }
    }
}

/// The arguments of a call written with parentheses, separated by commas, up to `)`.
pub open spec fn spec_call_args(ts: Seq<SpecToken>, pos: int, acc: Seq<SpecExpr>) -> PRes<
    Seq<SpecExpr>,
>
    decreases ts.len() - pos, 12nat,
{
    if !inb(ts, pos) {
        Ok((acc, pos))
    } else if ts[pos].t == TokenType::RParen {
        Ok((acc, pos))
    } else {
        match spec_parse_expr(ts, pos) {
            Err(e) => Err(e),
            Ok((e, p1)) => {
                let acc2 = acc.push(e);
                if !inb(ts, p1) {
                    Err(ParseError::UnexpectedEnd)
                } else if ts[p1].t == TokenType::RParen || ts[p1].t == TokenType::EOF || ts[p1].t
                    == TokenType::SemiColon {
                    Ok((acc2, p1))
                } else {
                    match spec_consume(ts, p1, TokenType::Comma) {
                        Err(err) => Err(err),
                        Ok(p2) => if progressed(ts, pos, p2) {
                            spec_call_args(ts, p2, acc2)
                        } else {
                            Err(ParseError::UnexpectedEnd)
                        },
                    }
                }
            },
        }
    }
}

/// The arguments of a call written without parentheses: primaries, one after another.
pub open spec fn spec_noparen_args(ts: Seq<SpecToken>, pos: int, acc: Seq<SpecExpr>) -> PRes<
    Seq<SpecExpr>,
>
    decreases ts.len() - pos, 12nat,
{
    if !inb(ts, pos) {
        Err(ParseError::UnexpectedEnd)
    } else if is_primary_start(ts[pos].t) {
        match spec_parse_primary(ts, pos) {
            Err(e) => Err(e),
            Ok((e, p1)) => if progressed(ts, pos, p1) {
                spec_noparen_args(ts, p1, acc.push(e))
            } else {
                Err(ParseError::UnexpectedEnd)
            },
        }
    } else {
        Ok((acc, pos))
    }
}

/// Whether a negative number literal stands at `pos`: `-` directly before an integer
/// literal (one not followed by `.`).
#[verifier::opaque]
pub open spec fn neg_literal_at(ts: Seq<SpecToken>, pos: int) -> bool {
    &&& inb(ts, pos + 2)
    &&& ts[pos].t == TokenType::OpUnarySub
    &&& ts[pos + 1].t == TokenType::Digit
    &&& ts[pos + 2].t != TokenType::Dot
}

/// The negative number literal at `pos`: its value, or an error where it does not fit an `i64`.
#[verifier::opaque]
pub open spec fn neg_literal(ts: Seq<SpecToken>, pos: int) -> PRes<SpecExpr> {
    match spec_parse_i64(seq!['-'] + ts[pos + 1].v) {
        Some(n) => Ok((SpecExpr::Number(n), pos + 2)),
        None => Err(ParseError::InvalidNumber { l: ts[pos + 1].l as usize, c: ts[pos + 1].c as usize }),
    }
}

/// primary ::= number | number '.' number | '-' number | ('-' | '!') primary | '(' expr ')' | ident
///           | '{' stmt* '}' | (nothing, before ';' or the end) | if | lambda | string
pub open spec fn spec_parse_primary(ts: Seq<SpecToken>, pos: int) -> PRes<SpecExpr>
    decreases ts.len() - pos, 3nat,
{
    if !inb(ts, pos) {
        Err(ParseError::UnexpectedEnd)
    } else {
        let t = ts[pos].t;
        if t == TokenType::Digit {
            let num = ts[pos].v;
            let p1 = pos + 1;
            if !inb(ts, p1) {
                Err(ParseError::UnexpectedEnd)
            } else if ts[p1].t == TokenType::Dot && !inb(ts, p1 + 1) {
                Err(ParseError::UnexpectedEnd)
            } else if ts[p1].t == TokenType::Dot && ts[p1 + 1].t == TokenType::Digit {
                Ok((SpecExpr::Float(num + seq!['.'] + ts[p1 + 1].v), p1 + 2))
            } else {
                match spec_parse_i64(num) {
                    Some(n) => Ok((SpecExpr::Number(n), p1)),
                    None => Err(
                        ParseError::InvalidNumber { l: ts[pos].l as usize, c: ts[pos].c as usize },
                    ),
                }
            }
        } else if (t == TokenType::OpUnarySub || t == TokenType::OpNot) && !inb(ts, pos + 1) {
            Err(ParseError::UnexpectedEnd)
        } else if t == TokenType::OpUnarySub && neg_literal_at(ts, pos) {
            neg_literal(ts, pos)
        } else if t == TokenType::OpUnarySub || (t == TokenType::OpNot && ts[pos + 1].t
            == TokenType::LParen) {
            match spec_parse_primary(ts, pos + 1) {
                Err(e) => Err(e),
                Ok((e, p1)) => Ok((SpecExpr::UnaryOp(ts[pos].v, Box::new(e)), p1)),
            }
        } else if t == TokenType::LParen {
            match spec_parse_expr(ts, pos + 1) {
                Err(e) => Err(e),
                Ok((e, p1)) => match spec_consume(ts, p1, TokenType::RParen) {
                    Err(err) => Err(err),
                    Ok(p2) => Ok((e, p2)),
                },
            }
        } else if t == TokenType::Ident {
            Ok((SpecExpr::Ident(ts[pos].v), pos + 1))
        } else if t == TokenType::LBrace {
            match spec_block_stmts(ts, pos + 1, seq![]) {
                Err(e) => Err(e),
                Ok((ss, p1)) => match spec_consume(ts, p1, TokenType::RBrace) {
                    Err(e) => Err(e),
                    Ok(p2) => Ok((SpecExpr::Block(tail_fix(ss)), p2)),
                },
            }
        } else if t == TokenType::SemiColon || t == TokenType::EOF {
            Ok((SpecExpr::Null, pos))
        } else if t == TokenType::KWIf {
            spec_parse_if(ts, pos + 1)
        } else if t == TokenType::KWFn {
            spec_parse_lambda(ts, pos + 1)
        } else if t == TokenType::StringLiteral {
            Ok((SpecExpr::String(ts[pos].v), pos + 1))
        } else {
            Err(
                ParseError::UnexpectedToken {
                    found: t,
                    l: ts[pos].l as usize,
                    c: ts[pos].c as usize,
                },
            )
        }
    }
}

/// The statements of a block up to `}`; a `;` after a statement is read with it.
pub open spec fn spec_block_stmts(ts: Seq<SpecToken>, pos: int, acc: Seq<SpecNode>) -> PRes<
    Seq<SpecNode>,
>
    decreases ts.len() - pos, 13nat,
{
    if !inb(ts, pos) {
        Ok((acc, pos))
    } else if ts[pos].t == TokenType::RBrace || ts[pos].t == TokenType::EOF {
        Ok((acc, pos))
    } else {
        match spec_parse_stmt(ts, pos) {
            Err(e) => Err(e),
            Ok((n, p1)) => {
                let p2 = if inb(ts, p1) && ts[p1].t == TokenType::SemiColon {
                    p1 + 1
                } else {
                    p1
                };
                if progressed(ts, pos, p2) {
                    spec_block_stmts(ts, p2, acc.push(n))
                } else {
                    Err(ParseError::UnexpectedEnd)
                }
            },
        }
    }
}

/// if ::= expr 'then' expr ('else' expr)?   (after `if`)
pub open spec fn spec_parse_if(ts: Seq<SpecToken>, pos: int) -> PRes<SpecExpr>
    decreases ts.len() - pos, 12nat,
{
    match spec_parse_expr(ts, pos) {
        Err(e) => Err(e),
        Ok((cond, p1)) => if !reached(ts, pos, p1) {
            Err(ParseError::UnexpectedEnd)
        } else {
            spec_parse_if_branches(ts, pos, cond, p1)
        },
    }
}

/// The rest of an `if` once its condition `cond` is read up to `p1`: `then`, the
/// then-branch, and an optional `else` branch.
pub open spec fn spec_parse_if_branches(ts: Seq<SpecToken>, pos: int, cond: SpecExpr, p1: int) -> PRes<
    SpecExpr,
>
    decreases ts.len() - pos, 11nat,
{
    if !reached(ts, pos, p1) {
        Err(ParseError::UnexpectedEnd)
    } else {
        match spec_consume(ts, p1, TokenType::KWThen) {
            Err(e) => Err(e),
            Ok(p2) => match spec_parse_expr(ts, p2) {
                Err(e) => Err(e),
                Ok((then, p3)) => if !reached(ts, pos, p3) || !inb(ts, p3) {
                    Err(ParseError::UnexpectedEnd)
                } else if ts[p3].t == TokenType::KWElse {
                    match spec_parse_expr(ts, p3 + 1) {
                        Err(e) => Err(e),
                        Ok((els, p4)) => Ok(
                            (SpecExpr::If(Box::new(cond), Box::new(then), Some(Box::new(els))), p4),
                        ),
                    }
                } else {
                    Ok((SpecExpr::If(Box::new(cond), Box::new(then), None), p3))
                },
            },
        }
    }
}

/// lambda ::= ident* '->' expr   (after `fn`)
pub open spec fn spec_parse_lambda(ts: Seq<SpecToken>, pos: int) -> PRes<SpecExpr>
    decreases ts.len() - pos, 12nat,
{
    match spec_lambda_params(ts, pos, seq![]) {
        Err(e) => Err(e),
        Ok((ps, p1)) => match spec_consume(ts, p1, TokenType::Arrow) {
            Err(e) => Err(e),
            Ok(p2) => if !reached(ts, pos, p2) {
                Err(ParseError::UnexpectedEnd)
            } else {
                match spec_parse_expr(ts, p2) {
                    Err(e) => Err(e),
                    Ok((body, p3)) => Ok((SpecExpr::Lambda(ps, Box::new(body)), p3)),
                }
            },
        },
    }
}

/// let ::= 'let' ident '=' expr | 'let' ident ident+ '=' expr   (at the `let`)
pub open spec fn spec_parse_let(ts: Seq<SpecToken>, pos: int) -> PRes<SpecNode>
    decreases ts.len() - pos, 11nat,
{
    if !inb(ts, pos) {
        Err(ParseError::UnexpectedEnd)
    } else {
        let line = ts[pos].l;
        let col = ts[pos].c;
        let p1 = pos + 1;
        if !inb(ts, p1) {
            Err(ParseError::UnexpectedEnd)
        } else if ts[p1].t != TokenType::Ident {
            Err(ParseError::ExpectedIdentAfterLet { l: line as usize, c: col as usize })
        } else {
            let name = ts[p1].v;
            let p2 = p1 + 1;
            if !inb(ts, p2) {
                Err(ParseError::UnexpectedEnd)
            } else {
                let lhs: PRes<SpecExpr> = if ts[p2].t == TokenType::Ident {
                    match spec_let_params(ts, p2 + 1, seq![name, ts[p2].v]) {
                        Err(e) => Err(e),
                        Ok((ps, p3)) => Ok((SpecExpr::IdentList(ps), p3)),
                    }
                } else {
                    Ok((SpecExpr::Ident(name), p2))
                };
                match lhs {
                    Err(e) => Err(e),
                    Ok((lhs, p3)) => match spec_consume(ts, p3, TokenType::Assign) {
                        Err(e) => Err(e),
                        Ok(p4) => if !progressed(ts, pos, p4) {
                            Err(ParseError::UnexpectedEnd)
                        } else {
                            match spec_parse_expr(ts, p4) {
                                Err(e) => Err(e),
                                Ok((rhs, p5)) => Ok(
                                    (
                                        SpecNode {
                                            stmt: SpecStmt::Let(
                                                Box::new(lhs),
                                                Box::new(
                                                    SpecNode {
                                                        stmt: SpecStmt::NotPopValueExpr(
                                                            Box::new(rhs),
                                                        ),
                                                        l: line,
                                                        c: col,
                                                    },
                                                ),
                                            ),
                                            l: line,
                                            c: col,
                                        },
                                        p5,
                                    ),
                                ),
                            }
                        },
                    },
                }
            }
        }
    }
}

/// stmt ::= let | expr
pub open spec fn spec_parse_stmt(ts: Seq<SpecToken>, pos: int) -> PRes<SpecNode>
    decreases ts.len() - pos, 12nat,
{
    if !inb(ts, pos) {
        Err(ParseError::UnexpectedEnd)
    } else {
        let line = ts[pos].l;
        let col = ts[pos].c;
        if ts[pos].t == TokenType::KWLet {
            spec_parse_let(ts, pos)
        } else {
            match spec_parse_expr(ts, pos) {
                Err(e) => Err(e),
                Ok((e, p1)) => Ok(
                    (SpecNode { stmt: SpecStmt::Expr(Box::new(e)), l: line, c: col }, p1),
                ),
            }
        }
    }
}

/// The top-level statements from `pos`: separated by `;`, up to the end token.
pub open spec fn spec_program_from(ts: Seq<SpecToken>, pos: int, acc: Seq<SpecNode>) -> Result<
    Seq<SpecNode>,
    ParseError,
>
    decreases ts.len() - pos,
{
    if !inb(ts, pos) {
        Err(ParseError::UnexpectedEnd)
    } else if ts[pos].t == TokenType::EOF {
        Ok(acc)
    } else {
        match spec_parse_stmt(ts, pos) {
            Err(e) => Err(e),
            Ok((n, p1)) => if !inb(ts, p1) {
                Err(ParseError::UnexpectedEnd)
            } else if ts[p1].t == TokenType::EOF {
                Ok(acc.push(n))
            } else {
                match spec_consume(ts, p1, TokenType::SemiColon) {
                    Err(e) => Err(e),
                    Ok(p2) => if progressed(ts, pos, p2) {
                        spec_program_from(ts, p2, acc.push(n))
                    } else {
                        Err(ParseError::UnexpectedEnd)
                    },
                }
            },
        }
    }
}

/// The program that a token sequence writes.
pub open spec fn spec_parse(ts: Seq<SpecToken>) -> Result<Seq<SpecNode>, ParseError> {
    spec_program_from(ts, 0, seq![])
}

/// assign ::= ident '=' assign | logical
pub open spec fn spec_parse_assign(ts: Seq<SpecToken>, pos: int) -> PRes<SpecExpr>
    decreases ts.len() - pos,
{
    match spec_parse_logical(ts, pos) {
        Err(e) => Err(e),
        Ok((node, p1)) => match node {
            SpecExpr::Ident(name) => if !inb(ts, p1) {
                Err(ParseError::UnexpectedEnd)
            } else if ts[p1].t == TokenType::Assign {
                if progressed(ts, pos, p1 + 1) {
                    match spec_parse_assign(ts, p1 + 1) {
                        Err(e) => Err(e),
                        Ok((r, p2)) => Ok((SpecExpr::Assign(name, Box::new(r)), p2)),
                    }
                } else {
                    Err(ParseError::UnexpectedEnd)
                }
            } else {
                Ok((SpecExpr::Ident(name), p1))
            },
            _ => Ok((node, p1)),
        },
    }
}

pub open spec fn expr_result(r: Result<Expr, ParseError>, s: PRes<SpecExpr>, p: int) -> bool {
    match s {
        Ok((e, q)) => r matches Ok(x) && x@ == e && p == q,
        Err(err) => r == Err::<Expr, ParseError>(err),
    }
}

pub open spec fn exprs_result(r: Result<Vec<Expr>, ParseError>, s: PRes<Seq<SpecExpr>>, p: int) -> bool {
    match s {
        Ok((e, q)) => r matches Ok(x) && exprs_view(x@) == e && p == q,
        Err(err) => r == Err::<Vec<Expr>, ParseError>(err),
    }
}

pub open spec fn names_result(r: Result<Vec<String>, ParseError>, s: PRes<Seq<Seq<char>>>, p: int) -> bool {
    match s {
        Ok((e, q)) => r matches Ok(x) && strings_view(x@) == e && p == q,
        Err(err) => r == Err::<Vec<String>, ParseError>(err),
    }
}

pub open spec fn nodes_result(r: Result<Vec<Node>, ParseError>, s: PRes<Seq<SpecNode>>, p: int) -> bool {
    match s {
        Ok((e, q)) => r matches Ok(x) && nodes_view(x@) == e && p == q,
        Err(err) => r == Err::<Vec<Node>, ParseError>(err),
    }
}

pub open spec fn node_result(r: Result<Node, ParseError>, s: PRes<SpecNode>, p: int) -> bool {
    match s {
        Ok((e, q)) => r matches Ok(x) && x@ == e && p == q,
        Err(err) => r == Err::<Node, ParseError>(err),
    }
}

/// A recursive-descent parser over a token sequence.
pub struct Parser<'a> {
    tokens: &'a Vec<Token>,
    pos: usize,
}

impl<'a> Parser<'a> {
    /// The tokens being parsed.
    pub closed spec fn toks(&self) -> Seq<SpecToken> {
        tokens_view(self.tokens@)
    }

    /// The index of the token the parser stands at.
    pub closed spec fn at(&self) -> int {
        self.pos as int
    }

    pub closed spec fn wf(&self) -> bool {
        self.pos <= self.tokens@.len()
    }

    /// A parser at the first of the given tokens.
    pub fn new(tokens: &'a Vec<Token>) -> (r: Self)
        ensures
            r.wf(),
            r.toks() == tokens_view(tokens@),
            r.at() == 0,
    {
        Self { tokens, pos: 0 }
    }

    fn cur_type(&self) -> (r: Result<TokenType, ParseError>)
        requires
            self.wf(),
        ensures
            inb(self.toks(), self.at()) ==> r == Ok::<TokenType, ParseError>(
                self.toks()[self.at()].t,
            ),
            !inb(self.toks(), self.at()) ==> r == Err::<TokenType, ParseError>(
                ParseError::UnexpectedEnd,
            ),
    {
        if self.pos < self.tokens.len() {
            Ok(self.tokens[self.pos].t)
        } else {
            Err(ParseError::UnexpectedEnd)
        }
    }

    fn peek_type(&self, offset: usize) -> (r: Result<TokenType, ParseError>)
        requires
            self.wf(),
        ensures
            inb(self.toks(), self.at() + offset) ==> r == Ok::<TokenType, ParseError>(
                self.toks()[self.at() + offset].t,
            ),
            !inb(self.toks(), self.at() + offset) ==> r == Err::<TokenType, ParseError>(
                ParseError::UnexpectedEnd,
            ),
    {
        if offset < self.tokens.len() - self.pos {
            Ok(self.tokens[self.pos + offset].t)
        } else {
            Err(ParseError::UnexpectedEnd)
        }
    }

    fn cur_text(&self) -> (r: String)
        requires
            self.wf(),
            inb(self.toks(), self.at()),
        ensures
            r@ == self.toks()[self.at()].v,
    {
        self.tokens[self.pos].v.clone()
    }

    fn error_here(&self, t: TokenType) -> (r: ParseError)
        requires
            self.wf(),
            inb(self.toks(), self.at()),
        ensures
            r == expected_err(self.toks(), self.at(), t),
    {
        let tk = &self.tokens[self.pos];
        ParseError::ExpectedToken { expected: t, found: tk.t, l: tk.l, c: tk.c }
    }

    fn advance(&mut self)
        requires
            old(self).pos < old(self).tokens.len(),
        ensures
            final(self).wf(),
            final(self).tokens == old(self).tokens,
            final(self).at() == old(self).at() + 1,
    {
        self.pos = self.pos + 1;
    }

    /// Steps over a token of kind `t`, or fails.
    fn consume(&mut self, t: TokenType) -> (r: Result<(), ParseError>)
        requires
            old(self).wf(),
        ensures
            final(self).wf(),
            final(self).tokens == old(self).tokens,
            match spec_consume(old(self).toks(), old(self).at(), t) {
                Ok(p) => r is Ok && final(self).at() == p,
                Err(e) => r == Err::<(), ParseError>(e),
            },
    {
        let k = match self.cur_type() {
            Ok(k) => k,
            Err(e) => {
                return Err(e);
            },
        };
        if k == t {
            self.advance();
            Ok(())
        } else {
            Err(self.error_here(t))
        }
    }

    /// Fails unless a token of kind `t` stands here; moves nothing.
    fn expect(&mut self, t: TokenType) -> (r: Result<(), ParseError>)
        requires
            old(self).wf(),
        ensures
            *final(self) == *old(self),
            inb(old(self).toks(), old(self).at()) && old(self).toks()[old(self).at()].t == t
                ==> r is Ok,
            inb(old(self).toks(), old(self).at()) && old(self).toks()[old(self).at()].t != t
                ==> r == Err::<(), ParseError>(expected_err(old(self).toks(), old(self).at(), t)),
            !inb(old(self).toks(), old(self).at()) ==> r == Err::<(), ParseError>(
                ParseError::UnexpectedEnd,
            ),
    {
        let k = match self.cur_type() {
            Ok(k) => k,
            Err(e) => {
                return Err(e);
            },
        };
        if k != t {
            Err(self.error_here(t))
        } else {
            Ok(())
        }
    }

    /// Steps over a token of kind `t1` or `t2`, or fails.
    fn consume_or(&mut self, t1: TokenType, t2: TokenType) -> (r: Result<(), ParseError>)
        requires
            old(self).wf(),
        ensures
            final(self).wf(),
            final(self).tokens == old(self).tokens,
            inb(old(self).toks(), old(self).at()) && (old(self).toks()[old(self).at()].t == t1
                || old(self).toks()[old(self).at()].t == t2) ==> r is Ok && final(self).at()
                == old(self).at() + 1,
            inb(old(self).toks(), old(self).at()) && old(self).toks()[old(self).at()].t != t1
                && old(self).toks()[old(self).at()].t != t2 ==> r == Err::<(), ParseError>(
                ParseError::ExpectedEither {
                    first: t1,
                    second: t2,
                    found: old(self).toks()[old(self).at()].t,
                    l: old(self).toks()[old(self).at()].l as usize,
                    c: old(self).toks()[old(self).at()].c as usize,
                },
            ),
            !inb(old(self).toks(), old(self).at()) ==> r == Err::<(), ParseError>(
                ParseError::UnexpectedEnd,
            ),
    {
        let k = match self.cur_type() {
            Ok(k) => k,
            Err(e) => {
                return Err(e);
            },
        };
        if k == t1 || k == t2 {
            self.advance();
            Ok(())
        } else {
            let tk = &self.tokens[self.pos];
            Err(ParseError::ExpectedEither { first: t1, second: t2, found: tk.t, l: tk.l, c: tk.c })
        }
    }

    fn is_primary_start(&self) -> (r: Result<bool, ParseError>)
        requires
            self.wf(),
        ensures
            inb(self.toks(), self.at()) ==> r == Ok::<bool, ParseError>(
                is_primary_start(self.toks()[self.at()].t),
            ),
            !inb(self.toks(), self.at()) ==> r == Err::<bool, ParseError>(
                ParseError::UnexpectedEnd,
            ),
    {
        match self.cur_type() {
            Ok(t) => Ok(Self::tk_is_primary_start(t)),
            Err(e) => Err(e),
        }
    }

    fn tk_is_primary_start(t: TokenType) -> (r: bool)
        ensures
            r == is_primary_start(t),
    {
        t == TokenType::Digit || t == TokenType::Ident || t == TokenType::LParen || t
            == TokenType::LBrace || t == TokenType::OpUnarySub || t == TokenType::OpNot || t
            == TokenType::StringLiteral
    }

    fn parse_expr(&mut self) -> (r: Result<Expr, ParseError>)
        requires
            old(self).wf(),
        ensures
            final(self).wf(),
            final(self).tokens == old(self).tokens,
            expr_result(r, spec_parse_expr(old(self).toks(), old(self).at()), final(self).at()),
            r is Ok ==> advanced(old(self).toks(), old(self).at(), final(self).at()),
        decreases old(self).tokens@.len() - old(self).pos, 11nat,
    {
        self.parse_logical()
    }

    fn parse_logical(&mut self) -> (r: Result<Expr, ParseError>)
        requires
            old(self).wf(),
        ensures
            final(self).wf(),
            final(self).tokens == old(self).tokens,
            expr_result(
                r,
                spec_parse_logical(old(self).toks(), old(self).at()),
                final(self).at(),
            ),
            r is Ok ==> advanced(old(self).toks(), old(self).at(), final(self).at()),
        decreases old(self).tokens@.len() - old(self).pos, 10nat,
    {
        let mut node = match self.parse_equality() {
            Ok(n) => n,
            Err(e) => {
                return Err(e);
            },
        };
        let ghost ts = self.toks();
        let ghost n0 = node@;
        let ghost p0 = self.at();
        loop
            invariant
                self.wf(),
                self.tokens == old(self).tokens,
                ts == old(self).toks(),
                advanced(ts, old(self).at(), p0),
                reached(ts, p0, self.at()),
                spec_parse_logical(ts, old(self).at()) == spec_logical_rest(ts, n0, p0),
                spec_logical_rest(ts, node@, self.at()) == spec_logical_rest(ts, n0, p0),
                self.at() > p0 ==> self.at() > old(self).at(),
            decreases self.tokens@.len() - self.pos,
        {
            let t = match self.cur_type() {
                Ok(t) => t,
                Err(e) => {
                    return Err(e);
                },
            };
            if !(t == TokenType::KWAnd || t == TokenType::KWOr) {
                return Ok(node);
            }
            let op = self.cur_text();
            self.advance();
            let rhs = match self.parse_equality() {
                Ok(r) => r,
                Err(e) => {
                    return Err(e);
                },
            };
            node = Expr::BinaryOp(Box::new(node), op, Box::new(rhs));
        }
    }

    fn parse_equality(&mut self) -> (r: Result<Expr, ParseError>)
        requires
            old(self).wf(),
        ensures
            final(self).wf(),
            final(self).tokens == old(self).tokens,
            expr_result(
                r,
                spec_parse_equality(old(self).toks(), old(self).at()),
                final(self).at(),
            ),
            r is Ok ==> advanced(old(self).toks(), old(self).at(), final(self).at()),
        decreases old(self).tokens@.len() - old(self).pos, 9nat,
    {
        let mut node = match self.parse_relational() {
            Ok(n) => n,
            Err(e) => {
                return Err(e);
            },
        };
        let ghost ts = self.toks();
        let ghost n0 = node@;
        let ghost p0 = self.at();
        loop
            invariant
                self.wf(),
                self.tokens == old(self).tokens,
                ts == old(self).toks(),
                advanced(ts, old(self).at(), p0),
                reached(ts, p0, self.at()),
                spec_parse_equality(ts, old(self).at()) == spec_equality_rest(ts, n0, p0),
                spec_equality_rest(ts, node@, self.at()) == spec_equality_rest(ts, n0, p0),
                self.at() > p0 ==> self.at() > old(self).at(),
            decreases self.tokens@.len() - self.pos,
        {
            let t = match self.cur_type() {
                Ok(t) => t,
                Err(e) => {
                    return Err(e);
                },
            };
            if !(t == TokenType::OpEq || t == TokenType::OpNe) {
                return Ok(node);
            }
            let op = self.cur_text();
            self.advance();
            let rhs = match self.parse_relational() {
                Ok(r) => r,
                Err(e) => {
                    return Err(e);
                },
            };
            node = Expr::BinaryOp(Box::new(node), op, Box::new(rhs));
        }
    }

    fn parse_relational(&mut self) -> (r: Result<Expr, ParseError>)
        requires
            old(self).wf(),
        ensures
            final(self).wf(),
            final(self).tokens == old(self).tokens,
            expr_result(
                r,
                spec_parse_relational(old(self).toks(), old(self).at()),
                final(self).at(),
            ),
            r is Ok ==> advanced(old(self).toks(), old(self).at(), final(self).at()),
        decreases old(self).tokens@.len() - old(self).pos, 8nat,
    {
        let mut node = match self.parse_additive() {
            Ok(n) => n,
            Err(e) => {
                return Err(e);
            },
        };
        let ghost ts = self.toks();
        let ghost n0 = node@;
        let ghost p0 = self.at();
        loop
            invariant
                self.wf(),
                self.tokens == old(self).tokens,
                ts == old(self).toks(),
                advanced(ts, old(self).at(), p0),
                reached(ts, p0, self.at()),
                spec_parse_relational(ts, old(self).at()) == spec_relational_rest(ts, n0, p0),
                spec_relational_rest(ts, node@, self.at()) == spec_relational_rest(ts, n0, p0),
                self.at() > p0 ==> self.at() > old(self).at(),
            decreases self.tokens@.len() - self.pos,
        {
            let t = match self.cur_type() {
                Ok(t) => t,
                Err(e) => {
                    return Err(e);
                },
            };
            if !(t == TokenType::OpGt || t == TokenType::OpLt || t == TokenType::OpGe || t
                == TokenType::OpLe) {
                return Ok(node);
            }
            let op = self.cur_text();
            self.advance();
            let rhs = match self.parse_additive() {
                Ok(r) => r,
                Err(e) => {
                    return Err(e);
                },
            };
            node = Expr::BinaryOp(Box::new(node), op, Box::new(rhs));
        }
    }

    fn parse_additive(&mut self) -> (r: Result<Expr, ParseError>)
        requires
            old(self).wf(),
        ensures
            final(self).wf(),
            final(self).tokens == old(self).tokens,
            expr_result(
                r,
                spec_parse_additive(old(self).toks(), old(self).at()),
                final(self).at(),
            ),
            r is Ok ==> advanced(old(self).toks(), old(self).at(), final(self).at()),
        decreases old(self).tokens@.len() - old(self).pos, 7nat,
    {
        let mut node = match self.parse_multi() {
            Ok(n) => n,
            Err(e) => {
                return Err(e);
            },
        };
        let ghost ts = self.toks();
        let ghost n0 = node@;
        let ghost p0 = self.at();
        loop
            invariant
                self.wf(),
                self.tokens == old(self).tokens,
                ts == old(self).toks(),
                advanced(ts, old(self).at(), p0),
                reached(ts, p0, self.at()),
                spec_parse_additive(ts, old(self).at()) == spec_additive_rest(ts, n0, p0),
                spec_additive_rest(ts, node@, self.at()) == spec_additive_rest(ts, n0, p0),
                self.at() > p0 ==> self.at() > old(self).at(),
            decreases self.tokens@.len() - self.pos,
        {
            let t = match self.cur_type() {
                Ok(t) => t,
                Err(e) => {
                    return Err(e);
                },
            };
            if !(t == TokenType::OpAdd || t == TokenType::OpSub) {
                return Ok(node);
            }
            let op = self.cur_text();
            self.advance();
            let rhs = match self.parse_multi() {
                Ok(r) => r,
                Err(e) => {
                    return Err(e);
                },
            };
            node = Expr::BinaryOp(Box::new(node), op, Box::new(rhs));
        }
    }

    fn parse_multi(&mut self) -> (r: Result<Expr, ParseError>)
        requires
            old(self).wf(),
        ensures
            final(self).wf(),
            final(self).tokens == old(self).tokens,
            expr_result(r, spec_parse_multi(old(self).toks(), old(self).at()), final(self).at()),
            r is Ok ==> advanced(old(self).toks(), old(self).at(), final(self).at()),
        decreases old(self).tokens@.len() - old(self).pos, 6nat,
    {
        let mut node = match self.parse_expon() {
            Ok(n) => n,
            Err(e) => {
                return Err(e);
            },
        };
        let ghost ts = self.toks();
        let ghost n0 = node@;
        let ghost p0 = self.at();
        loop
            invariant
                self.wf(),
                self.tokens == old(self).tokens,
                ts == old(self).toks(),
                advanced(ts, old(self).at(), p0),
                reached(ts, p0, self.at()),
                spec_parse_multi(ts, old(self).at()) == spec_multi_rest(ts, n0, p0),
                spec_multi_rest(ts, node@, self.at()) == spec_multi_rest(ts, n0, p0),
                self.at() > p0 ==> self.at() > old(self).at(),
            decreases self.tokens@.len() - self.pos,
        {
            let t = match self.cur_type() {
                Ok(t) => t,
                Err(e) => {
                    return Err(e);
                },
            };
            if !(t == TokenType::OpMul || t == TokenType::OpDiv || t == TokenType::OpMod) {
                return Ok(node);
            }
            let op = self.cur_text();
            self.advance();
            let rhs = match self.parse_expon() {
                Ok(r) => r,
                Err(e) => {
                    return Err(e);
                },
            };
            node = Expr::BinaryOp(Box::new(node), op, Box::new(rhs));
        }
    }

    fn parse_expon(&mut self) -> (r: Result<Expr, ParseError>)
        requires
            old(self).wf(),
        ensures
            final(self).wf(),
            final(self).tokens == old(self).tokens,
            expr_result(r, spec_parse_expon(old(self).toks(), old(self).at()), final(self).at()),
            r is Ok ==> advanced(old(self).toks(), old(self).at(), final(self).at()),
        decreases old(self).tokens@.len() - old(self).pos, 5nat,
    {
        let node = match self.parse_factor() {
            Ok(n) => n,
            Err(e) => {
                return Err(e);
            },
        };
        let t = match self.cur_type() {
            Ok(t) => t,
            Err(e) => {
                return Err(e);
            },
        };
        if t == TokenType::OpPow {
            let op = self.cur_text();
            self.advance();
            let rhs = match self.parse_expon() {
                Ok(r) => r,
                Err(e) => {
                    return Err(e);
                },
            };
            Ok(Expr::BinaryOp(Box::new(node), op, Box::new(rhs)))
        } else {
            Ok(node)
        }
    }

    fn parse_factor(&mut self) -> (r: Result<Expr, ParseError>)
        requires
            old(self).wf(),
        ensures
            final(self).wf(),
            final(self).tokens == old(self).tokens,
            expr_result(r, spec_parse_factor(old(self).toks(), old(self).at()), final(self).at()),
            r is Ok ==> advanced(old(self).toks(), old(self).at(), final(self).at()),
        decreases old(self).tokens@.len() - old(self).pos, 4nat,
    {
        let t = match self.cur_type() {
            Ok(t) => t,
            Err(e) => {
                return Err(e);
            },
        };
        if t == TokenType::Ident {
            let name = self.cur_text();
            self.advance();
            let t2 = match self.cur_type() {
                Ok(t) => t,
                Err(e) => {
                    return Err(e);
                },
            };
            if t2 == TokenType::LParen {
                self.advance();
                let args = match self.parse_call_args() {
                    Ok(a) => a,
                    Err(e) => {
                        return Err(e);
                    },
                };
                match self.consume(TokenType::RParen) {
                    Ok(()) => {},
                    Err(e) => {
                        return Err(e);
                    },
                }
                Ok(Expr::Call(name, args))
            } else if Self::tk_is_primary_start(t2) && t2 != TokenType::EOF {
                let args = match self.parse_noparen_args() {
                    Ok(a) => a,
                    Err(e) => {
                        return Err(e);
                    },
                };
                Ok(Expr::Call(name, args))
            } else {
                Ok(Expr::Ident(name))
            }
        } else {
            let result = match self.parse_primary() {
                Ok(e) => e,
                Err(e) => {
                    return Err(e);
                },
            };
            let t2 = match self.cur_type() {
                Ok(t) => t,
                Err(e) => {
                    return Err(e);
                },
            };
            if t2 == TokenType::LParen {
                self.advance();
                let args = match self.parse_call_args() {
                    Ok(a) => a,
                    Err(e) => {
                        return Err(e);
                    },
                };
                match self.consume(TokenType::RParen) {
                    Ok(()) => {},
                    Err(e) => {
                        return Err(e);
                    },
                }
                Ok(Expr::DynCall(Box::new(result), args))
            } else {
                Ok(result)
            }
        }
    }

    fn parse_call_args(&mut self) -> (r: Result<Vec<Expr>, ParseError>)
        requires
            old(self).wf(),
        ensures
            final(self).wf(),
            final(self).tokens == old(self).tokens,
            exprs_result(
                r,
                spec_call_args(old(self).toks(), old(self).at(), seq![]),
                final(self).at(),
            ),
            r is Ok ==> reached(old(self).toks(), old(self).at(), final(self).at()),
        decreases old(self).tokens@.len() - old(self).pos, 12nat,
    {
        let mut args: Vec<Expr> = Vec::new();
        let ghost ts = self.toks();
        assert(exprs_view(args@) =~= seq![]);
        loop
            invariant
                self.wf(),
                self.tokens == old(self).tokens,
                ts == old(self).toks(),
                reached(ts, old(self).at(), self.at()),
                spec_call_args(ts, self.at(), exprs_view(args@)) == spec_call_args(
                    ts,
                    old(self).at(),
                    seq![],
                ),
            decreases self.tokens@.len() - self.pos,
        {
            if self.pos >= self.tokens.len() {
                return Ok(args);
            }
            let t = match self.cur_type() {
                Ok(t) => t,
                Err(e) => {
                    return Err(e);
                },
            };
            if t == TokenType::RParen {
                return Ok(args);
            }
            let e = match self.parse_expr() {
                Ok(e) => e,
                Err(err) => {
                    return Err(err);
                },
            };
            proof {
                lemma_exprs_view_push(args@, e);
            }
            args.push(e);
            let t2 = match self.cur_type() {
                Ok(t) => t,
                Err(e) => {
                    return Err(e);
                },
            };
            if t2 == TokenType::RParen || t2 == TokenType::EOF || t2 == TokenType::SemiColon {
                return Ok(args);
            }
            match self.consume(TokenType::Comma) {
                Ok(()) => {},
                Err(e) => {
                    return Err(e);
                },
            }
        }
    }

    fn parse_noparen_args(&mut self) -> (r: Result<Vec<Expr>, ParseError>)
        requires
            old(self).wf(),
        ensures
            final(self).wf(),
            final(self).tokens == old(self).tokens,
            exprs_result(
                r,
                spec_noparen_args(old(self).toks(), old(self).at(), seq![]),
                final(self).at(),
            ),
            r is Ok ==> reached(old(self).toks(), old(self).at(), final(self).at()),
        decreases old(self).tokens@.len() - old(self).pos, 12nat,
    {
        let mut args: Vec<Expr> = Vec::new();
        let ghost ts = self.toks();
        assert(exprs_view(args@) =~= seq![]);
        loop
            invariant
                self.wf(),
                self.tokens == old(self).tokens,
                ts == old(self).toks(),
                reached(ts, old(self).at(), self.at()),
                spec_noparen_args(ts, self.at(), exprs_view(args@)) == spec_noparen_args(
                    ts,
                    old(self).at(),
                    seq![],
                ),
            decreases self.tokens@.len() - self.pos,
        {
            let s = match self.is_primary_start() {
                Ok(s) => s,
                Err(e) => {
                    return Err(e);
                },
            };
            if !s {
                return Ok(args);
            }
            let e = match self.parse_primary() {
                Ok(e) => e,
                Err(err) => {
                    return Err(err);
                },
            };
            proof {
                lemma_exprs_view_push(args@, e);
            }
            args.push(e);
        }
    }

    fn parse_number(&mut self) -> (r: Result<Expr, ParseError>)
        requires
            old(self).wf(),
            inb(old(self).toks(), old(self).at()),
            old(self).toks()[old(self).at()].t == TokenType::Digit,
        ensures
            final(self).wf(),
            final(self).tokens == old(self).tokens,
            expr_result(
                r,
                spec_parse_primary(old(self).toks(), old(self).at()),
                final(self).at(),
            ),
            r is Ok ==> progressed(old(self).toks(), old(self).at(), final(self).at()),
    {
        let num = self.cur_text();
        let l = self.tokens[self.pos].l;
        let c = self.tokens[self.pos].c;
        self.advance();
        let t1 = match self.cur_type() {
            Ok(t) => t,
            Err(e) => {
                return Err(e);
            },
        };
        if t1 == TokenType::Dot {
            let t2 = match self.peek_type(1) {
                Ok(t) => t,
                Err(e) => {
                    return Err(e);
                },
            };
            if t2 == TokenType::Digit {
                let ghost v = self.toks()[self.at() + 1].v;
                let mut float_str = num;
                push_char(&mut float_str, '.');
                self.advance();
                push_str(&mut float_str, self.tokens[self.pos].v.as_str());
                self.advance();
                assert(float_str@ =~= num@ + seq!['.'] + v);
                return Ok(Expr::Float(float_str));
            }
        }
        match parse_i64(num.as_str()) {
            Some(n) => Ok(Expr::Number(n)),
            None => Err(ParseError::InvalidNumber { l, c }),
        }
    }

    fn parse_unary(&mut self) -> (r: Result<Expr, ParseError>)
        requires
            old(self).wf(),
            inb(old(self).toks(), old(self).at()),
            old(self).toks()[old(self).at()].t == TokenType::OpUnarySub
                || old(self).toks()[old(self).at()].t == TokenType::OpNot,
        ensures
            final(self).wf(),
            final(self).tokens == old(self).tokens,
            expr_result(
                r,
                spec_parse_primary(old(self).toks(), old(self).at()),
                final(self).at(),
            ),
            r is Ok ==> progressed(old(self).toks(), old(self).at(), final(self).at()),
        decreases old(self).tokens@.len() - old(self).pos, 2nat,
    {
        let t = self.tokens[self.pos].t;
        let t1 = match self.peek_type(1) {
            Ok(t) => t,
            Err(e) => {
                return Err(e);
            },
        };
        proof {
            reveal(neg_literal_at);
            reveal(neg_literal);
        }
        if t == TokenType::OpUnarySub && t1 == TokenType::Digit {
            let t2 = match self.peek_type(2) {
                Ok(t) => t,
                Err(e) => {
                    return Err(e);
                },
            };
            if t2 != TokenType::Dot {
                assert(self.tokens@.len() == self.tokens.len());
                assert(self.pos + 1 < self.tokens.len());
                let p1 = self.pos + 1;
                let l = self.tokens[p1].l;
                let c = self.tokens[p1].c;
                let mut text = String::new();
                push_char(&mut text, '-');
                push_str(&mut text, self.tokens[p1].v.as_str());
                self.advance();
                self.advance();
                return match parse_i64(text.as_str()) {
                    Some(n) => Ok(Expr::Number(n)),
                    None => Err(ParseError::InvalidNumber { l, c }),
                };
            }
        }
        if t == TokenType::OpUnarySub || t1 == TokenType::LParen {
            let op = self.cur_text();
            self.advance();
            let e = match self.parse_primary() {
                Ok(e) => e,
                Err(err) => {
                    return Err(err);
                },
            };
            Ok(Expr::UnaryOp(op, Box::new(e)))
        } else {
            let tk = &self.tokens[self.pos];
            Err(ParseError::UnexpectedToken { found: tk.t, l: tk.l, c: tk.c })
        }
    }

    fn parse_block(&mut self) -> (r: Result<Expr, ParseError>)
        requires
            old(self).wf(),
            inb(old(self).toks(), old(self).at()),
            old(self).toks()[old(self).at()].t == TokenType::LBrace,
        ensures
            final(self).wf(),
            final(self).tokens == old(self).tokens,
            expr_result(
                r,
                spec_parse_primary(old(self).toks(), old(self).at()),
                final(self).at(),
            ),
            r is Ok ==> progressed(old(self).toks(), old(self).at(), final(self).at()),
        decreases old(self).tokens@.len() - old(self).pos, 2nat,
    {
        self.advance();
        let mut stmts = match self.parse_block_stmts() {
            Ok(s) => s,
            Err(e) => {
                return Err(e);
            },
        };
        Self::fix_tail(&mut stmts);
        match self.consume(TokenType::RBrace) {
            Ok(()) => {},
            Err(e) => {
                return Err(e);
            },
        }
        Ok(Expr::Block(stmts))
    }

    fn parse_paren(&mut self) -> (r: Result<Expr, ParseError>)
        requires
            old(self).wf(),
            inb(old(self).toks(), old(self).at()),
            old(self).toks()[old(self).at()].t == TokenType::LParen,
        ensures
            final(self).wf(),
            final(self).tokens == old(self).tokens,
            expr_result(
                r,
                spec_parse_primary(old(self).toks(), old(self).at()),
                final(self).at(),
            ),
            r is Ok ==> progressed(old(self).toks(), old(self).at(), final(self).at()),
        decreases old(self).tokens@.len() - old(self).pos, 2nat,
    {
        self.advance();
        let e = match self.parse_expr() {
            Ok(e) => e,
            Err(err) => {
                return Err(err);
            },
        };
        match self.consume(TokenType::RParen) {
            Ok(()) => {},
            Err(err) => {
                return Err(err);
            },
        }
        Ok(e)
    }

    fn parse_primary(&mut self) -> (r: Result<Expr, ParseError>)
        requires
            old(self).wf(),
        ensures
            final(self).wf(),
            final(self).tokens == old(self).tokens,
            expr_result(
                r,
                spec_parse_primary(old(self).toks(), old(self).at()),
                final(self).at(),
            ),
            r is Ok ==> advanced(old(self).toks(), old(self).at(), final(self).at()),
        decreases old(self).tokens@.len() - old(self).pos, 3nat,
    {
        let t = match self.cur_type() {
            Ok(t) => t,
            Err(e) => {
                return Err(e);
            },
        };
        if t == TokenType::Digit {
            self.parse_number()
        } else if t == TokenType::OpUnarySub || t == TokenType::OpNot {
            self.parse_unary()
        } else if t == TokenType::LParen {
            self.parse_paren()
        } else if t == TokenType::Ident {
            let name = self.cur_text();
            self.advance();
            Ok(Expr::Ident(name))
        } else if t == TokenType::LBrace {
            self.parse_block()
        } else if t == TokenType::SemiColon || t == TokenType::EOF {
            Ok(Expr::Null)
        } else if t == TokenType::KWIf {
            self.advance();
            self.parse_if_expr()
        } else if t == TokenType::KWFn {
            self.advance();
            self.parse_lambda_expr()
        } else if t == TokenType::StringLiteral {
            let s = self.cur_text();
            self.advance();
            Ok(Expr::String(s))
        } else {
            let tk = &self.tokens[self.pos];
            Err(ParseError::UnexpectedToken { found: tk.t, l: tk.l, c: tk.c })
        }
    }

    /// Turns a last expression statement into the block's tail.
    fn fix_tail(stmts: &mut Vec<Node>)
        ensures
            nodes_view(final(stmts)@) == tail_fix(nodes_view(old(stmts)@)),
    {
        proof {
            lemma_nodes_view_len(stmts@);
        }
        if stmts.len() == 0 {
            return;
        }
        let last = stmts.pop().unwrap();
        proof {
            lemma_nodes_view_push(stmts@, last);
            assert(old(stmts)@ =~= stmts@.push(last));
            lemma_nodes_view_len(stmts@);
        }
        let Node { stmt, l, c } = last;
        let fixed = match stmt {
            Stmt::Expr(e) => Node { stmt: Stmt::TailReturn(e), l, c },
            other => Node { stmt: other, l, c },
        };
        proof {
            lemma_nodes_view_push(stmts@, fixed);
            assert(nodes_view(old(stmts)@).subrange(0, stmts@.len() as int) =~= nodes_view(
                stmts@,
            ));
        }
        stmts.push(fixed);
    }

    fn parse_block_stmts(&mut self) -> (r: Result<Vec<Node>, ParseError>)
        requires
            old(self).wf(),
        ensures
            final(self).wf(),
            final(self).tokens == old(self).tokens,
            nodes_result(
                r,
                spec_block_stmts(old(self).toks(), old(self).at(), seq![]),
                final(self).at(),
            ),
            r is Ok ==> reached(old(self).toks(), old(self).at(), final(self).at()),
        decreases old(self).tokens@.len() - old(self).pos, 13nat,
    {
        let mut stmts: Vec<Node> = Vec::new();
        let ghost ts = self.toks();
        assert(nodes_view(stmts@) =~= seq![]);
        loop
            invariant
                self.wf(),
                self.tokens == old(self).tokens,
                ts == old(self).toks(),
                reached(ts, old(self).at(), self.at()),
                spec_block_stmts(ts, self.at(), nodes_view(stmts@)) == spec_block_stmts(
                    ts,
                    old(self).at(),
                    seq![],
                ),
            decreases self.tokens@.len() - self.pos,
        {
            if self.pos >= self.tokens.len() {
                return Ok(stmts);
            }
            let t = match self.cur_type() {
                Ok(t) => t,
                Err(e) => {
                    return Err(e);
                },
            };
            if t == TokenType::RBrace || t == TokenType::EOF {
                return Ok(stmts);
            }
            let n = match self.parse_stmt() {
                Ok(n) => n,
                Err(e) => {
                    return Err(e);
                },
            };
            proof {
                lemma_nodes_view_push(stmts@, n);
            }
            stmts.push(n);
            if self.pos < self.tokens.len() && self.tokens[self.pos].t == TokenType::SemiColon {
                self.advance();
            }
        }
    }

    fn parse_if_expr(&mut self) -> (r: Result<Expr, ParseError>)
        requires
            old(self).wf(),
        ensures
            final(self).wf(),
            final(self).tokens == old(self).tokens,
            expr_result(r, spec_parse_if(old(self).toks(), old(self).at()), final(self).at()),
            r is Ok ==> reached(old(self).toks(), old(self).at(), final(self).at()),
        decreases old(self).tokens@.len() - old(self).pos, 12nat,
    {
        let ghost pos0 = self.at();
        let cond = match self.parse_expr() {
            Ok(e) => e,
            Err(err) => {
                return Err(err);
            },
        };
        self.parse_if_branches(cond, Ghost(pos0))
    }

    /// The rest of an `if` once its condition is read.
    #[verifier::rlimit(60)]
    #[verifier::spinoff_prover]
    fn parse_if_branches(&mut self, cond: Expr, Ghost(pos0): Ghost<int>) -> (r: Result<Expr, ParseError>)
        requires
            old(self).wf(),
            reached(old(self).toks(), pos0, old(self).at()),
        ensures
            final(self).wf(),
            final(self).tokens == old(self).tokens,
            expr_result(
                r,
                spec_parse_if_branches(old(self).toks(), pos0, cond@, old(self).at()),
                final(self).at(),
            ),
            r is Ok ==> reached(old(self).toks(), pos0, final(self).at()),
        decreases old(self).tokens@.len() - pos0, 11nat,
    {
        match self.consume(TokenType::KWThen) {
            Ok(()) => {},
            Err(err) => {
                return Err(err);
            },
        }
        let then = match self.parse_expr() {
            Ok(e) => e,
            Err(err) => {
                return Err(err);
            },
        };
        let t = match self.cur_type() {
            Ok(t) => t,
            Err(e) => {
                return Err(e);
            },
        };
        if t == TokenType::KWElse {
            self.advance();
            let els = match self.parse_expr() {
                Ok(e) => e,
                Err(err) => {
                    return Err(err);
                },
            };
            Ok(Expr::If(Box::new(cond), Box::new(then), Some(Box::new(els))))
        } else {
            Ok(Expr::If(Box::new(cond), Box::new(then), None))
        }
    }

    fn parse_lambda_params(&mut self) -> (r: Result<Vec<String>, ParseError>)
        requires
            old(self).wf(),
        ensures
            final(self).wf(),
            final(self).tokens == old(self).tokens,
            names_result(
                r,
                spec_lambda_params(old(self).toks(), old(self).at(), seq![]),
                final(self).at(),
            ),
            r is Ok ==> reached(old(self).toks(), old(self).at(), final(self).at()),
    {
        let mut params: Vec<String> = Vec::new();
        let ghost ts = self.toks();
        assert(strings_view(params@) =~= seq![]);
        loop
            invariant
                self.wf(),
                self.tokens == old(self).tokens,
                ts == old(self).toks(),
                reached(ts, old(self).at(), self.at()),
                spec_lambda_params(ts, self.at(), strings_view(params@)) == spec_lambda_params(
                    ts,
                    old(self).at(),
                    seq![],
                ),
            decreases self.tokens@.len() - self.pos,
        {
            if self.pos >= self.tokens.len() {
                return Ok(params);
            }
            let t = self.tokens[self.pos].t;
            if t == TokenType::Arrow || t == TokenType::EOF || t != TokenType::Ident {
                return Ok(params);
            }
            let name = self.cur_text();
            proof {
                assert(strings_view(params@.push(name)) =~= strings_view(params@).push(name@));
            }
            params.push(name);
            self.advance();
            let t1 = match self.cur_type() {
                Ok(t) => t,
                Err(e) => {
                    return Err(e);
                },
            };
            if t1 == TokenType::Arrow {
                return Ok(params);
            }
        }
    }

    fn parse_lambda_expr(&mut self) -> (r: Result<Expr, ParseError>)
        requires
            old(self).wf(),
        ensures
            final(self).wf(),
            final(self).tokens == old(self).tokens,
            expr_result(r, spec_parse_lambda(old(self).toks(), old(self).at()), final(self).at()),
            r is Ok ==> reached(old(self).toks(), old(self).at(), final(self).at()),
        decreases old(self).tokens@.len() - old(self).pos, 12nat,
    {
        let params = match self.parse_lambda_params() {
            Ok(p) => p,
            Err(e) => {
                return Err(e);
            },
        };
        match self.consume(TokenType::Arrow) {
            Ok(()) => {},
            Err(e) => {
                return Err(e);
            },
        }
        let body = match self.parse_expr() {
            Ok(e) => e,
            Err(err) => {
                return Err(err);
            },
        };
        Ok(Expr::Lambda(params, Box::new(body)))
    }

    fn parse_let_params(&mut self, first: String, second: String) -> (r: Result<
        Vec<String>,
        ParseError,
    >)
        requires
            old(self).wf(),
        ensures
            final(self).wf(),
            final(self).tokens == old(self).tokens,
            names_result(
                r,
                spec_let_params(old(self).toks(), old(self).at(), seq![first@, second@]),
                final(self).at(),
            ),
            r is Ok ==> reached(old(self).toks(), old(self).at(), final(self).at()),
    {
        let mut params: Vec<String> = Vec::new();
        params.push(first);
        params.push(second);
        let ghost ts = self.toks();
        assert(strings_view(params@) =~= seq![first@, second@]);
        loop
            invariant
                self.wf(),
                self.tokens == old(self).tokens,
                ts == old(self).toks(),
                reached(ts, old(self).at(), self.at()),
                spec_let_params(ts, self.at(), strings_view(params@)) == spec_let_params(
                    ts,
                    old(self).at(),
                    seq![first@, second@],
                ),
            decreases self.tokens@.len() - self.pos,
        {
            let t = match self.cur_type() {
                Ok(t) => t,
                Err(e) => {
                    return Err(e);
                },
            };
            if t != TokenType::Ident {
                return Ok(params);
            }
            let name = self.cur_text();
            proof {
                assert(strings_view(params@.push(name)) =~= strings_view(params@).push(name@));
            }
            params.push(name);
            self.advance();
            let t1 = match self.cur_type() {
                Ok(t) => t,
                Err(e) => {
                    return Err(e);
                },
            };
            if t1 == TokenType::Assign {
                return Ok(params);
            }
        }
    }

    fn parse_let_stmt(&mut self) -> (r: Result<Node, ParseError>)
        requires
            old(self).wf(),
            inb(old(self).toks(), old(self).at()),
        ensures
            final(self).wf(),
            final(self).tokens == old(self).tokens,
            node_result(r, spec_parse_let(old(self).toks(), old(self).at()), final(self).at()),
            r is Ok ==> reached(old(self).toks(), old(self).at() + 1, final(self).at()),
        decreases old(self).tokens@.len() - old(self).pos, 11nat,
    {
        let ghost ts = self.toks();
        let ghost p0 = self.at();
        let line = self.tokens[self.pos].l;
        let col = self.tokens[self.pos].c;
        self.advance();
        let t1 = match self.cur_type() {
            Ok(t) => t,
            Err(e) => {
                return Err(e);
            },
        };
        if t1 != TokenType::Ident {
            return Err(ParseError::ExpectedIdentAfterLet { l: line, c: col });
        }
        let name = self.cur_text();
        self.advance();
        let t2 = match self.cur_type() {
            Ok(t) => t,
            Err(e) => {
                return Err(e);
            },
        };
        let ghost p2 = self.at();
        let ghost name_v = ts[p0 + 1].v;
        let ghost lhs_spec: PRes<SpecExpr> = if ts[p2].t == TokenType::Ident {
            match spec_let_params(ts, p2 + 1, seq![name_v, ts[p2].v]) {
                Err(e) => Err(e),
                Ok((ps, p3)) => Ok((SpecExpr::IdentList(ps), p3)),
            }
        } else {
            Ok((SpecExpr::Ident(name_v), p2))
        };
        let lhs = if t2 == TokenType::Ident {
            let second = self.cur_text();
            self.advance();
            let params = match self.parse_let_params(name, second) {
                Ok(p) => p,
                Err(e) => {
                    return Err(e);
                },
            };
            Expr::IdentList(params)
        } else {
            Expr::Ident(name)
        };
        assert(lhs_spec == Ok::<(SpecExpr, int), ParseError>((lhs@, self.at())));
        assert(reached(ts, p0 + 2, self.at()));
        match self.consume(TokenType::Assign) {
            Ok(()) => {},
            Err(e) => {
                return Err(e);
            },
        }
        let rhs = match self.parse_expr() {
            Ok(e) => e,
            Err(err) => {
                return Err(err);
            },
        };
        let inner = Node { stmt: Stmt::NotPopValueExpr(Box::new(rhs)), l: line, c: col };
        assert(inner@ == SpecNode {
            stmt: SpecStmt::NotPopValueExpr(Box::new(rhs@)),
            l: ts[p0].l,
            c: ts[p0].c,
        });
        let out = Node { stmt: Stmt::Let(Box::new(lhs), Box::new(inner)), l: line, c: col };
        assert(out@ == SpecNode {
            stmt: SpecStmt::Let(Box::new(lhs@), Box::new(inner@)),
            l: ts[p0].l,
            c: ts[p0].c,
        });
        Ok(out)
    }

    fn parse_stmt(&mut self) -> (r: Result<Node, ParseError>)
        requires
            old(self).wf(),
        ensures
            final(self).wf(),
            final(self).tokens == old(self).tokens,
            node_result(r, spec_parse_stmt(old(self).toks(), old(self).at()), final(self).at()),
            r is Ok ==> advanced(old(self).toks(), old(self).at(), final(self).at()),
        decreases old(self).tokens@.len() - old(self).pos, 12nat,
    {
        if self.pos >= self.tokens.len() {
            return Err(ParseError::UnexpectedEnd);
        }
        let line = self.tokens[self.pos].l;
        let col = self.tokens[self.pos].c;
        if self.tokens[self.pos].t == TokenType::KWLet {
            self.parse_let_stmt()
        } else {
            let e = match self.parse_expr() {
                Ok(e) => e,
                Err(err) => {
                    return Err(err);
                },
            };
            Ok(Node { stmt: Stmt::Expr(Box::new(e)), l: line, c: col })
        }
    }

    /// Parses an assignment `name = value`, or falls back to a logical expression.
    #[verifier::rlimit(100)]
    #[verifier::spinoff_prover]
    fn parse_assign(&mut self) -> (r: Result<Expr, ParseError>)
        requires
            old(self).wf(),
        ensures
            final(self).wf(),
            final(self).tokens == old(self).tokens,
            expr_result(r, spec_parse_assign(old(self).toks(), old(self).at()), final(self).at()),
            r is Ok ==> reached(old(self).toks(), old(self).at(), final(self).at()),
        decreases old(self).tokens@.len() - old(self).pos,
    {
        let node = match self.parse_logical() {
            Ok(e) => e,
            Err(err) => {
                return Err(err);
            },
        };
        match node {
            Expr::Ident(name) => {
                let t = match self.cur_type() {
                    Ok(t) => t,
                    Err(e) => {
                        return Err(e);
                    },
                };
                if t == TokenType::Assign {
                    self.advance();
                    let r = match self.parse_assign() {
                        Ok(e) => e,
                        Err(err) => {
                            return Err(err);
                        },
                    };
                    Ok(Expr::Assign(name, Box::new(r)))
                } else {
                    Ok(Expr::Ident(name))
                }
            },
            other => Ok(other),
        }
    }

    /// Parses the whole token sequence as a program.
    pub fn parse(&mut self) -> (r: Result<crate::ast::Program, ParseError>)
        requires
            old(self).wf(),
        ensures
            final(self).wf(),
            match spec_program_from(old(self).toks(), old(self).at(), seq![]) {
                Ok(ns) => r matches Ok(p) && p@ == ns,
                Err(e) => r == Err::<crate::ast::Program, ParseError>(e),
            },
    {
        let mut body: Vec<Node> = Vec::new();
        let ghost ts = self.toks();
        assert(nodes_view(body@) =~= seq![]);
        loop
            invariant
                self.wf(),
                self.tokens == old(self).tokens,
                ts == old(self).toks(),
                spec_program_from(ts, self.at(), nodes_view(body@)) == spec_program_from(
                    ts,
                    old(self).at(),
                    seq![],
                ),
            decreases self.tokens@.len() - self.pos,
        {
            let t = match self.cur_type() {
                Ok(t) => t,
                Err(e) => {
                    return Err(e);
                },
            };
            if t == TokenType::EOF {
                return Ok(crate::ast::Program::new(body));
            }
            let n = match self.parse_stmt() {
                Ok(n) => n,
                Err(e) => {
                    return Err(e);
                },
            };
            proof {
                lemma_nodes_view_push(body@, n);
            }
            body.push(n);
            let t1 = match self.cur_type() {
                Ok(t) => t,
                Err(e) => {
                    return Err(e);
                },
            };
            if t1 == TokenType::EOF {
                return Ok(crate::ast::Program::new(body));
            }
            match self.consume(TokenType::SemiColon) {
                Ok(()) => {},
                Err(e) => {
                    return Err(e);
                },
            }
        }
    }
}

} // verus!
