//! Laws of reading a program: whitespace between tokens, how additive operators group,
//! and the value of a decimal literal.
use vstd::prelude::*;

use crate::lexer::{is_ws, spec_advance, spec_skip_ws, LexPos, SpecToken, TokenType};
use crate::number::{canon, rat_add, rat_of_int};
use crate::parser::{binop, spec_parse_additive, spec_parse_multi, spec_additive_rest};
use crate::ast::SpecExpr;
use crate::semantics::{dot_index, pow10, spec_parse_float};
use crate::text::{all_digits, digits_value, is_digit_char, spec_parse_i64};

verus! {

/// Skipping whitespace never moves back.
proof fn lemma_skip_ws_forward(s: Seq<u8>, p: LexPos)
    ensures
        spec_skip_ws(s, p).pos >= p.pos,
    decreases s.len() - p.pos,
{
    if 0 <= p.pos < s.len() && is_ws(s[p.pos]) {
        lemma_skip_ws_forward(s, spec_advance(s, p));
    }
}

/// Every ASCII whitespace byte (space, tab, line feed, form feed, carriage return) is
/// skipped: where one stands at the reading position, skipping whitespace moves past it.
pub proof fn law_ascii_whitespace_skipped(s: Seq<u8>, p: LexPos)
    requires
        0 <= p.pos < s.len(),
        s[p.pos] == 32 || s[p.pos] == 9 || s[p.pos] == 10 || s[p.pos] == 12 || s[p.pos] == 13,
    ensures
        spec_skip_ws(s, p).pos > p.pos,
{
    lemma_skip_ws_forward(s, spec_advance(s, p));
}

/// A tab reads as a space: replacing a space of the text by a tab leaves every skip over
/// whitespace exactly as it was, from any position in the text.
pub proof fn law_tab_reads_as_space(s: Seq<u8>, i: int, p: LexPos)
    requires
        0 <= p.pos,
        0 <= i < s.len(),
        s[i] == 32,
    ensures
        spec_skip_ws(s.update(i, 9), p) == spec_skip_ws(s, p),
    decreases s.len() - p.pos,
{
    let s2 = s.update(i, 9);
    let n = p.pos + 1;
    assert(s2.len() == s.len());
    if 0 <= n < s.len() {
        if n == i {
            assert(s2[n] == 9 && s[n] == 32);
        } else {
            assert(s2[n] == s[n]);
        }
        assert((s2[n] == 10) == (s[n] == 10));
    }
    assert(spec_advance(s2, p).pos == spec_advance(s, p).pos);
    assert(spec_advance(s2, p).line == spec_advance(s, p).line);
    assert(spec_advance(s2, p).col == spec_advance(s, p).col);
    assert(spec_advance(s2, p).prev == spec_advance(s, p).prev);
    assert(spec_advance(s2, p) == spec_advance(s, p));
    if 0 <= p.pos < s.len() && is_ws(s[p.pos]) {
        assert(is_ws(s2[p.pos]));
        law_tab_reads_as_space(s, i, spec_advance(s, p));
    } else if 0 <= p.pos < s.len() {
        assert(p.pos != i);
        assert(s2[p.pos] == s[p.pos]);
    }
}

/// Additive operators group to the left: where `a`, `b` and `c` are read one after
/// another as multiplicative expressions, separated by two additive operators and
/// followed by something else, the whole reads as `(a op1 b) op2 c`.
pub proof fn law_additive_groups_left(
    ts: Seq<SpecToken>,
    pos: int,
    a: SpecExpr,
    p1: int,
    b: SpecExpr,
    p2: int,
    c: SpecExpr,
    p3: int,
)
    requires
        spec_parse_multi(ts, pos) == Ok::<(SpecExpr, int), crate::parser::ParseError>((a, p1)),
        pos <= p1 < p2 < p3 < ts.len(),
        ts[p1].t == TokenType::OpAdd || ts[p1].t == TokenType::OpSub,
        spec_parse_multi(ts, p1 + 1) == Ok::<(SpecExpr, int), crate::parser::ParseError>((b, p2)),
        ts[p2].t == TokenType::OpAdd || ts[p2].t == TokenType::OpSub,
        spec_parse_multi(ts, p2 + 1) == Ok::<(SpecExpr, int), crate::parser::ParseError>((c, p3)),
        ts[p3].t != TokenType::OpAdd && ts[p3].t != TokenType::OpSub,
    ensures
        spec_parse_additive(ts, pos) == Ok::<(SpecExpr, int), crate::parser::ParseError>(
            (binop(binop(a, ts[p1].v, b), ts[p2].v, c), p3),
        ),
{
    let ab = binop(a, ts[p1].v, b);
    let abc = binop(ab, ts[p2].v, c);
    assert(spec_additive_rest(ts, abc, p3) == Ok::<(SpecExpr, int), crate::parser::ParseError>((abc, p3)));
    assert(spec_additive_rest(ts, ab, p2) == spec_additive_rest(ts, abc, p3));
    assert(spec_additive_rest(ts, a, p1) == spec_additive_rest(ts, ab, p2));
}

/// `dot_index` passes over digits.
proof fn lemma_dot_index_digits(i: Seq<char>, rest: Seq<char>)
    requires
        all_digits(i),
    ensures
        dot_index(i + rest) == i.len() + dot_index(rest),
    decreases i.len(),
{
    if i.len() > 0 {
        assert(is_digit_char(i[0]));
        let t = i.subrange(1, i.len() as int);
        assert((i + rest).subrange(1, (i + rest).len() as int) =~= t + rest);
        assert(all_digits(t)) by {
            assert forall|k: int| 0 <= k < t.len() implies is_digit_char(#[trigger] t[k]) by {
                assert(t[k] == i[k + 1]);
            }
        }
        lemma_dot_index_digits(t, rest);
    } else {
        assert(i + rest =~= rest);
    }
}

/// A number written in digits is below ten to the number of its digits.
proof fn lemma_digits_below(s: Seq<char>)
    requires
        all_digits(s),
    ensures
        0 <= digits_value(s) < pow10(s.len()),
    decreases s.len(),
{
    if s.len() > 0 {
        let t = s.subrange(0, s.len() - 1);
        assert(all_digits(t)) by {
            assert forall|k: int| 0 <= k < t.len() implies is_digit_char(#[trigger] t[k]) by {
                assert(t[k] == s[k]);
            }
        }
        assert(is_digit_char(s[s.len() - 1]));
        lemma_digits_below(t);
    }
}

proof fn lemma_pow10_le(k: nat, m: nat)
    requires
        k <= m,
    ensures
        pow10(k) <= pow10(m),
    decreases m,
{
    if k < m {
        lemma_pow10_le(k, (m - 1) as nat);
    }
}

/// The value `str::parse::<i64>` gives a text of digits that fits.
proof fn lemma_parse_digits(s: Seq<char>)
    requires
        s.len() > 0,
        all_digits(s),
        digits_value(s) <= i64::MAX,
    ensures
        spec_parse_i64(s) == Some(digits_value(s) as i64),
{
    assert(is_digit_char(s[0]));
    lemma_digits_below(s);
}

/// A decimal literal `i.f`, with digits `i` whose value fits an `i64` and between one and
/// eighteen digits `f`, reads as the number `i + f / 10^len(f)`.
pub proof fn law_decimal_literal(i: Seq<char>, f: Seq<char>)
    requires
        i.len() > 0,
        all_digits(i),
        digits_value(i) <= i64::MAX,
        0 < f.len() <= 18,
        all_digits(f),
    ensures
        spec_parse_float(i + seq!['.'] + f) == Some(
            rat_add(rat_of_int(digits_value(i)), canon(digits_value(f), pow10(f.len()) as int)),
        ),
{
    let s = i + seq!['.'] + f;
    assert(s =~= i + (seq!['.'] + f));
    lemma_dot_index_digits(i, seq!['.'] + f);
    assert((seq!['.'] + f)[0] == '.');
    assert(dot_index(s) == i.len());
    assert(s.subrange(0, i.len() as int) =~= i);
    let rest = s.subrange(i.len() as int + 1, s.len() as int);
    assert(rest =~= f);
    lemma_dot_index_digits(f, seq![]);
    assert(f + Seq::<char>::empty() =~= f);
    assert(dot_index(f) == f.len());
    assert(rest.subrange(0, dot_index(rest)) =~= f);
    lemma_digits_below(f);
    lemma_pow10_le(f.len(), 18);
    assert(pow10(18) == 1000000000000000000) by {
        reveal_with_fuel(pow10, 19);
    }
    lemma_parse_digits(i);
    lemma_parse_digits(f);
}

} // verus!
