use vstd::prelude::*;

use rug::integer::Order::Lsf;
use rug::ops::Pow;
use rug::Integer;

verus! {

/// The natural number that 32-bit digits write, least significant digit first.
pub open spec fn limbs_value(s: Seq<u32>) -> nat
    decreases s.len(),
{
    if s.len() == 0 {
        0
    } else {
        s[0] as nat + 0x1_0000_0000 * limbs_value(s.subrange(1, s.len() as int))
    }
}

/// A rational number as numerator and denominator.
pub struct Rat {
    pub num: int,
    pub den: int,
}

pub open spec fn abs(x: int) -> nat {
    if x < 0 {
        (-x) as nat
    } else {
        x as nat
    }
}

pub open spec fn gcd(a: nat, b: nat) -> nat
    decreases b,
{
    if b == 0 {
        a
    } else {
        gcd(b, a % b)
    }
}

/// Lowest terms with a positive denominator: the form in which `rug` keeps its rationals.
pub open spec fn is_canonical(r: Rat) -> bool {
    r.den > 0 && gcd(abs(r.num), r.den as nat) == 1
}

/// The canonical form of `n / d` (for `d != 0`).
pub open spec fn canon(n: int, d: int) -> Rat {
    let g = gcd(abs(n), abs(d)) as int;
    if d < 0 {
        Rat { num: (-n) / g, den: (-d) / g }
    } else {
        Rat { num: n / g, den: d / g }
    }
}

pub open spec fn rat_of_int(n: int) -> Rat {
    Rat { num: n, den: 1 }
}

pub open spec fn rat_add(a: Rat, b: Rat) -> Rat {
    canon(a.num * b.den + b.num * a.den, a.den * b.den)
}

pub open spec fn rat_sub(a: Rat, b: Rat) -> Rat {
    canon(a.num * b.den - b.num * a.den, a.den * b.den)
}

pub open spec fn rat_mul(a: Rat, b: Rat) -> Rat {
    canon(a.num * b.num, a.den * b.den)
}

/// The quotient, for `b.num != 0`.
pub open spec fn rat_div(a: Rat, b: Rat) -> Rat {
    canon(a.num * b.den, a.den * b.num)
}

pub open spec fn rat_neg(a: Rat) -> Rat {
    Rat { num: -a.num, den: a.den }
}

/// `a` to the power `e`; a negative power takes the reciprocal (for `a.num != 0`).
pub open spec fn rat_pow(a: Rat, e: int) -> Rat {
    if e >= 0 {
        canon(vstd::arithmetic::power::pow(a.num, e as nat), vstd::arithmetic::power::pow(a.den, e as nat))
    } else {
        canon(
            vstd::arithmetic::power::pow(a.den, (-e) as nat),
            vstd::arithmetic::power::pow(a.num, (-e) as nat),
        )
    }
}

/// The remainder of `a` divided by `b` (for `b.num != 0`): `a` less `b` times the
/// quotient rounded toward zero, so that it has the sign of `a`.
pub open spec fn rat_rem(a: Rat, b: Rat) -> Rat {
    rat_sub(a, rat_mul(b, rat_of_int(rat_trunc(rat_div(a, b)))))
}

/// `a < b` (for positive denominators).
pub open spec fn rat_lt(a: Rat, b: Rat) -> bool {
    a.num * b.den < b.num * a.den
}

/// `a <= b` (for positive denominators).
pub open spec fn rat_le(a: Rat, b: Rat) -> bool {
    a.num * b.den <= b.num * a.den
}

/// The integer part, rounded toward zero.
pub open spec fn rat_trunc(a: Rat) -> int {
    if a.num >= 0 {
        a.num / a.den
    } else {
        -((-a.num) / a.den)
    }
}

/// An exact rational number: sign, numerator digits and denominator digits, always in
/// lowest terms with a positive denominator.
#[derive(Debug)]
pub struct Ratio {
    negative: bool,
    numer: Vec<u32>,
    denom: Vec<u32>,
}

impl Ratio {
    pub closed spec fn value(&self) -> Rat {
        Rat {
            num: if self.negative {
                -(limbs_value(self.numer@) as int)
            } else {
                limbs_value(self.numer@) as int
            },
            den: limbs_value(self.denom@) as int,
        }
    }

    #[verifier::type_invariant]
    pub open spec fn canonical(&self) -> bool {
        is_canonical(self.value())
    }

    /// A copy with the same value.
    pub fn copy(&self) -> (r: Ratio)
        ensures
            r@ == self@,
    {
        proof {
            use_type_invariant(self);
        }
        Ratio { negative: self.negative, numer: self.numer.clone(), denom: self.denom.clone() }
    }

    /// Whether the value is 0.
    pub fn is_zero(&self) -> (r: bool)
        ensures
            r == (self@.num == 0),
    {
        limbs_are_zero(&self.numer)
    }

    /// Whether the value is below 0.
    pub fn is_negative(&self) -> (r: bool)
        ensures
            r == (self@.num < 0),
    {
        self.negative && !limbs_are_zero(&self.numer)
    }

    /// The digits of the absolute value of the numerator.
    pub fn numer_abs(&self) -> (r: Vec<u32>)
        ensures
            limbs_value(r@) == abs(self@.num),
    {
        self.numer.clone()
    }

    /// The digits of the denominator.
    pub fn denom_digits(&self) -> (r: Vec<u32>)
        ensures
            limbs_value(r@) == self@.den,
    {
        self.denom.clone()
    }
}

impl Ratio {
    /// The rational whose value is the integer `n`.
    pub fn from_int(n: i64) -> (r: Ratio)
        ensures
            r@ == rat_of_int(n as int),
    {
        rat_from_i64(n)
    }

    /// The fraction `n / d` in lowest terms; nothing for a zero denominator.
    pub fn from_fraction(n: i64, d: i64) -> (r: Option<Ratio>)
        ensures
            d == 0 ==> r is None,
            d != 0 ==> (r matches Some(x) && x@ == canon(n as int, d as int)),
    {
        if d == 0 {
            None
        } else {
            Some(rat_from_ratio(n, d))
        }
    }
}

impl View for Ratio {
    type V = Rat;

    open spec fn view(&self) -> Rat {
        self.value()
    }
}

impl Clone for Ratio {
    fn clone(&self) -> (r: Self)
        ensures
            r@ == self@,
    {
        self.copy()
    }
}

proof fn lemma_limbs_zero(s: Seq<u32>)
    ensures
        (limbs_value(s) == 0) == (forall|i: int| 0 <= i < s.len() ==> s[i] == 0),
    decreases s.len(),
{
    if s.len() > 0 {
        let t = s.subrange(1, s.len() as int);
        lemma_limbs_zero(t);
        if limbs_value(s) == 0 {
            assert forall|i: int| 0 <= i < s.len() implies s[i] == 0 by {
                if i > 0 {
                    assert(s[i] == t[i - 1]);
                }
            }
        }
        if forall|i: int| 0 <= i < s.len() ==> s[i] == 0 {
            assert forall|i: int| 0 <= i < t.len() implies t[i] == 0 by {
                assert(t[i] == s[i + 1]);
            }
            assert(s[0] == 0);
        }
    }
}

proof fn lemma_limb_le(s: Seq<u32>, i: int)
    requires
        0 <= i < s.len(),
    ensures
        limbs_value(s) >= s[i],
    decreases s.len(),
{
    if i > 0 {
        let t = s.subrange(1, s.len() as int);
        lemma_limb_le(t, i - 1);
        assert(t[i - 1] == s[i]);
    }
}

/// Whether digits write 0.
pub fn limbs_are_zero(v: &Vec<u32>) -> (r: bool)
    ensures
        r == (limbs_value(v@) == 0),
{
    proof {
        lemma_limbs_zero(v@);
    }
    let mut i: usize = 0;
    while i < v.len()
        invariant
            i <= v.len(),
            forall|j: int| 0 <= j < i ==> v@[j] == 0,
        decreases v.len() - i,
    {
        if v[i] != 0 {
            proof {
                lemma_limb_le(v@, i as int);
            }
            return false;
        }
        i = i + 1;
    }
    true
}

/// `Ratio::from(i64)` of rug: the rational whose value is `n`.
#[verifier::external_body]
pub(crate) fn rat_from_i64(n: i64) -> (r: Ratio)
    ensures
        r@ == rat_of_int(n as int),
{
    let x = rug::Rational::from(n);
    Ratio { negative: *x.numer() < 0, numer: x.numer().to_digits(Lsf), denom: x.denom().to_digits(Lsf) }
}

/// `Ratio::from((i64, i64))` of rug: the fraction `n / d` in lowest terms. rug
/// panics on a zero denominator, which the contract excludes.
#[verifier::external_body]
pub(crate) fn rat_from_ratio(n: i64, d: i64) -> (r: Ratio)
    requires
        d != 0,
    ensures
        r@ == canon(n as int, d as int),
{
    let x = rug::Rational::from((n, d));
    Ratio { negative: *x.numer() < 0, numer: x.numer().to_digits(Lsf), denom: x.denom().to_digits(Lsf) }
}

/// rug's `+` on rationals: the exact sum, in lowest terms.
#[verifier::external_body]
pub(crate) fn rat_add_exec(a: &Ratio, b: &Ratio) -> (r: Ratio)
    requires
        is_canonical(a@),
        is_canonical(b@),
    ensures
        r@ == rat_add(a@, b@),
{
    let an = Integer::from_digits(&a.numer, Lsf);
    let bn = Integer::from_digits(&b.numer, Lsf);
    let x = rug::Rational::from((if a.negative { -an } else { an }, Integer::from_digits(&a.denom, Lsf)));
    let y = rug::Rational::from((if b.negative { -bn } else { bn }, Integer::from_digits(&b.denom, Lsf)));
    let z = rug::Rational::from(&x + &y);
    Ratio { negative: *z.numer() < 0, numer: z.numer().to_digits(Lsf), denom: z.denom().to_digits(Lsf) }
}

/// rug's `-` on rationals: the exact difference, in lowest terms.
#[verifier::external_body]
pub(crate) fn rat_sub_exec(a: &Ratio, b: &Ratio) -> (r: Ratio)
    requires
        is_canonical(a@),
        is_canonical(b@),
    ensures
        r@ == rat_sub(a@, b@),
{
    let an = Integer::from_digits(&a.numer, Lsf);
    let bn = Integer::from_digits(&b.numer, Lsf);
    let x = rug::Rational::from((if a.negative { -an } else { an }, Integer::from_digits(&a.denom, Lsf)));
    let y = rug::Rational::from((if b.negative { -bn } else { bn }, Integer::from_digits(&b.denom, Lsf)));
    let z = rug::Rational::from(&x - &y);
    Ratio { negative: *z.numer() < 0, numer: z.numer().to_digits(Lsf), denom: z.denom().to_digits(Lsf) }
}

/// rug's `*` on rationals: the exact product, in lowest terms.
#[verifier::external_body]
pub(crate) fn rat_mul_exec(a: &Ratio, b: &Ratio) -> (r: Ratio)
    requires
        is_canonical(a@),
        is_canonical(b@),
    ensures
        r@ == rat_mul(a@, b@),
{
    let an = Integer::from_digits(&a.numer, Lsf);
    let bn = Integer::from_digits(&b.numer, Lsf);
    let x = rug::Rational::from((if a.negative { -an } else { an }, Integer::from_digits(&a.denom, Lsf)));
    let y = rug::Rational::from((if b.negative { -bn } else { bn }, Integer::from_digits(&b.denom, Lsf)));
    let z = rug::Rational::from(&x * &y);
    Ratio { negative: *z.numer() < 0, numer: z.numer().to_digits(Lsf), denom: z.denom().to_digits(Lsf) }
}

/// rug's `/` on rationals: the exact quotient, in lowest terms. rug panics on a zero
/// divisor, which the contract excludes.
#[verifier::external_body]
pub(crate) fn rat_div_exec(a: &Ratio, b: &Ratio) -> (r: Ratio)
    requires
        is_canonical(a@),
        is_canonical(b@),
        b@.num != 0,
    ensures
        r@ == rat_div(a@, b@),
{
    let an = Integer::from_digits(&a.numer, Lsf);
    let bn = Integer::from_digits(&b.numer, Lsf);
    let x = rug::Rational::from((if a.negative { -an } else { an }, Integer::from_digits(&a.denom, Lsf)));
    let y = rug::Rational::from((if b.negative { -bn } else { bn }, Integer::from_digits(&b.denom, Lsf)));
    let z = rug::Rational::from(&x / &y);
    Ratio { negative: *z.numer() < 0, numer: z.numer().to_digits(Lsf), denom: z.denom().to_digits(Lsf) }
}

/// rug's unary `-` on a rational.
#[verifier::external_body]
pub(crate) fn rat_neg_exec(a: &Ratio) -> (r: Ratio)
    requires
        is_canonical(a@),
    ensures
        r@ == rat_neg(a@),
{
    let an = Integer::from_digits(&a.numer, Lsf);
    let x = rug::Rational::from((if a.negative { -an } else { an }, Integer::from_digits(&a.denom, Lsf)));
    let z = -x;
    Ratio { negative: *z.numer() < 0, numer: z.numer().to_digits(Lsf), denom: z.denom().to_digits(Lsf) }
}

/// rug's `Pow<i32>` on a rational: the exact power, in lowest terms; a negative power
/// takes the reciprocal. rug panics on 0 to a negative power, which the contract excludes.
#[verifier::external_body]
pub(crate) fn rat_pow_exec(a: &Ratio, e: i32) -> (r: Ratio)
    requires
        is_canonical(a@),
        e >= 0 || a@.num != 0,
    ensures
        r@ == rat_pow(a@, e as int),
{
    let an = Integer::from_digits(&a.numer, Lsf);
    let x = rug::Rational::from((if a.negative { -an } else { an }, Integer::from_digits(&a.denom, Lsf)));
    let z = x.pow(e);
    Ratio { negative: *z.numer() < 0, numer: z.numer().to_digits(Lsf), denom: z.denom().to_digits(Lsf) }
}

/// rug's `Rational::trunc`: the integer part, rounded toward zero, as a rational.
#[verifier::external_body]
pub(crate) fn rat_trunc_exec(a: &Ratio) -> (r: Ratio)
    requires
        is_canonical(a@),
    ensures
        r@ == rat_of_int(rat_trunc(a@)),
{
    let an = Integer::from_digits(&a.numer, Lsf);
    let x = rug::Rational::from((if a.negative { -an } else { an }, Integer::from_digits(&a.denom, Lsf)));
    let z = x.trunc();
    Ratio { negative: *z.numer() < 0, numer: z.numer().to_digits(Lsf), denom: z.denom().to_digits(Lsf) }
}

/// rug's `==` on rationals: whether the two values are equal.
#[verifier::external_body]
pub(crate) fn rat_eq_exec(a: &Ratio, b: &Ratio) -> (r: bool)
    requires
        is_canonical(a@),
        is_canonical(b@),
    ensures
        r == (a@ == b@),
{
    let an = Integer::from_digits(&a.numer, Lsf);
    let bn = Integer::from_digits(&b.numer, Lsf);
    let x = rug::Rational::from((if a.negative { -an } else { an }, Integer::from_digits(&a.denom, Lsf)));
    let y = rug::Rational::from((if b.negative { -bn } else { bn }, Integer::from_digits(&b.denom, Lsf)));
    x == y
}

/// rug's `<` on rationals.
#[verifier::external_body]
pub(crate) fn rat_lt_exec(a: &Ratio, b: &Ratio) -> (r: bool)
    requires
        is_canonical(a@),
        is_canonical(b@),
    ensures
        r == rat_lt(a@, b@),
{
    let an = Integer::from_digits(&a.numer, Lsf);
    let bn = Integer::from_digits(&b.numer, Lsf);
    let x = rug::Rational::from((if a.negative { -an } else { an }, Integer::from_digits(&a.denom, Lsf)));
    let y = rug::Rational::from((if b.negative { -bn } else { bn }, Integer::from_digits(&b.denom, Lsf)));
    x < y
}

/// rug's `<=` on rationals.
#[verifier::external_body]
pub(crate) fn rat_le_exec(a: &Ratio, b: &Ratio) -> (r: bool)
    requires
        is_canonical(a@),
        is_canonical(b@),
    ensures
        r == rat_le(a@, b@),
{
    let an = Integer::from_digits(&a.numer, Lsf);
    let bn = Integer::from_digits(&b.numer, Lsf);
    let x = rug::Rational::from((if a.negative { -an } else { an }, Integer::from_digits(&a.denom, Lsf)));
    let y = rug::Rational::from((if b.negative { -bn } else { bn }, Integer::from_digits(&b.denom, Lsf)));
    x <= y
}

/// rug's `Integer::to_i32` on the quotient `numer / denom` (rounded toward zero): the
/// integer part when it fits an `i32`, else nothing.
#[verifier::external_body]
pub(crate) fn rat_trunc_to_i32(a: &Ratio) -> (r: Option<i32>)
    requires
        is_canonical(a@),
    ensures
        i32::MIN <= rat_trunc(a@) <= i32::MAX ==> r == Some(rat_trunc(a@) as i32),
        !(i32::MIN <= rat_trunc(a@) <= i32::MAX) ==> r is None,
{
    let an = Integer::from_digits(&a.numer, Lsf);
    let x = rug::Rational::from((if a.negative { -an } else { an }, Integer::from_digits(&a.denom, Lsf)));
    Integer::from(x.numer() / x.denom()).to_i32()
}

/// rug's `Integer::div_rem` on naturals: quotient and remainder. rug panics on a zero
/// divisor, which the contract excludes.
#[verifier::external_body]
pub(crate) fn nat_div_rem(a: &Vec<u32>, b: &Vec<u32>) -> (r: (Vec<u32>, Vec<u32>))
    requires
        limbs_value(b@) > 0,
    ensures
        limbs_value(r.0@) == limbs_value(a@) / limbs_value(b@),
        limbs_value(r.1@) == limbs_value(a@) % limbs_value(b@),
{
    let (q, m) = Integer::from_digits(a, Lsf).div_rem(Integer::from_digits(b, Lsf));
    (q.to_digits(Lsf), m.to_digits(Lsf))
}

/// rug's `*` of a natural by a small factor.
#[verifier::external_body]
pub(crate) fn nat_mul_small(a: &Vec<u32>, m: u32) -> (r: Vec<u32>)
    ensures
        limbs_value(r@) == limbs_value(a@) * m,
{
    (Integer::from_digits(a, Lsf) * m).to_digits(Lsf)
}

pub open spec fn digit_char(d: nat) -> char {
    if d == 0 {
        '0'
    } else if d == 1 {
        '1'
    } else if d == 2 {
        '2'
    } else if d == 3 {
        '3'
    } else if d == 4 {
        '4'
    } else if d == 5 {
        '5'
    } else if d == 6 {
        '6'
    } else if d == 7 {
        '7'
    } else if d == 8 {
        '8'
    } else {
        '9'
    }
}

/// The decimal digits of a natural number, without leading zeros ("0" for zero).
pub open spec fn decimal(n: nat) -> Seq<char>
    decreases n,
{
    if n < 10 {
        seq![digit_char(n)]
    } else {
        decimal(n / 10).push(digit_char(n % 10))
    }
}

/// rug's `Integer::to_string_radix(10)` on a natural: its decimal digits.
#[verifier::external_body]
pub(crate) fn nat_to_decimal(a: &Vec<u32>) -> (r: String)
    ensures
        r@ == decimal(limbs_value(a@)),
{
    Integer::from_digits(a, Lsf).to_string_radix(10)
}

/// The decimal digits of the fractional part `rem / d` (for `rem < d`), at most `k` of
/// them, cut (not rounded), stopping early when the remainder becomes 0.
pub open spec fn frac_digits(rem: nat, d: nat, k: nat) -> Seq<char>
    decreases k,
{
    if k == 0 || rem == 0 || d == 0 {
        seq![]
    } else {
        decimal((rem * 10) / d) + frac_digits((rem * 10) % d, d, (k - 1) as nat)
    }
}

/// A number written in decimal: sign, integer part, and when there is one, `.` and up to
/// `max_frac` digits of the fractional part, cut.
pub open spec fn float_text(r: Rat, max_frac: nat) -> Seq<char> {
    let sign = if r.num < 0 {
        seq!['-']
    } else {
        seq![]
    };
    let n = abs(r.num);
    let d = r.den as nat;
    let frac = frac_digits(n % d, d, max_frac);
    if frac.len() == 0 {
        sign + decimal(n / d)
    } else {
        sign + decimal(n / d) + seq!['.'] + frac
    }
}

/// A rational written as rug writes it: the numerator, and `/` with the denominator
/// unless that is 1.
pub open spec fn ratio_text(r: Rat) -> Seq<char> {
    let sign = if r.num < 0 {
        seq!['-']
    } else {
        seq![]
    };
    if r.den == 1 {
        sign + decimal(abs(r.num))
    } else {
        sign + decimal(abs(r.num)) + seq!['/'] + decimal(r.den as nat)
    }
}

/// rug's `Integer::to_i64_wrapping` on the quotient `numer / denom` (rounded toward
/// zero), then `as usize`: the integer part, wrapped to the width of `usize`.
#[verifier::external_body]
pub(crate) fn rat_trunc_to_usize_wrapping(a: &Ratio) -> (r: usize)
    requires
        is_canonical(a@),
    ensures
        r == rat_trunc(a@) as usize,
{
    let an = Integer::from_digits(&a.numer, Lsf);
    let x = rug::Rational::from((if a.negative { -an } else { an }, Integer::from_digits(&a.denom, Lsf)));
    Integer::from(x.numer() / x.denom()).to_i64_wrapping() as usize
}

} // verus!
