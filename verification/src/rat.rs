//! Exact rational arithmetic over `i128`.
//!
//! Every value the calculator computes with (`Number`, `Percent`, money
//! prices) is a rational `num / den` with `den >= 1`. Results are kept in
//! reduced form by dividing through the greatest common divisor. When an
//! intermediate product would leave the `i128` range the operation yields
//! zero, the same silencing policy the interpreter applies to division by
//! zero.

use vstd::prelude::*;
use vstd::arithmetic::div_mod::{lemma_fundamental_div_mod, lemma_div_multiples_vanish};

verus! {

/// Absolute value of a mathematical integer.
pub open spec fn iabs(x: int) -> int {
    if x < 0 {
        -x
    } else {
        x
    }
}

/// Greatest common divisor by Euclid's recursion; `gcd_nat(a, 0) == a`.
pub open spec fn gcd_nat(a: nat, b: nat) -> nat
    decreases b,
{
    if b == 0 {
        a
    } else {
        gcd_nat(b, a % b)
    }
}

/// `d` divides `x` over the integers.
pub open spec fn int_divides(d: int, x: int) -> bool {
    exists|k: int| x == #[trigger] (k * d)
}

/// The gcd divides both of its arguments and is positive as soon as one of
/// them is.
pub proof fn lemma_gcd_props(a: nat, b: nat)
    ensures
        int_divides(gcd_nat(a, b) as int, a as int),
        int_divides(gcd_nat(a, b) as int, b as int),
        a > 0 || b > 0 ==> gcd_nat(a, b) >= 1,
    decreases b,
{
    if b == 0 {
        assert(a as int == 1 * (gcd_nat(a, b) as int));
        assert(b as int == 0 * (gcd_nat(a, b) as int));
    } else {
        let r = a % b;
        lemma_gcd_props(b, r);
        let g = gcd_nat(b, r) as int;
        let kb = choose|k: int| b as int == #[trigger] (k * g);
        let kr = choose|k: int| r as int == #[trigger] (k * g);
        lemma_fundamental_div_mod(a as int, b as int);
        let q = a as int / b as int;
        assert(a as int == q * (b as int) + r as int);
        assert(a as int == (q * kb + kr) * g) by (nonlinear_arith)
            requires
                a as int == q * (b as int) + r as int,
                b as int == kb * g,
                r as int == kr * g,
        ;
    }
}

/// Exact division: when `g >= 1` divides `x`, the Euclidean quotient
/// multiplies back to `x` and is no larger in magnitude.
pub proof fn lemma_exact_div(x: int, g: int)
    requires
        g >= 1,
        int_divides(g, x),
    ensures
        (x / g) * g == x,
        iabs(x / g) <= iabs(x),
        x < 0 ==> x / g < 0,
        x > 0 ==> x / g > 0,
        x >= 0 ==> x / g >= 0,
{
    let k = choose|k: int| x == #[trigger] (k * g);
    lemma_div_multiples_vanish(k, g);
    assert(g * k == k * g) by (nonlinear_arith);
    assert(x / g == k);
    assert(iabs(k) <= iabs(k * g) && (k * g < 0 ==> k < 0) && (k * g > 0 ==> k > 0)) by (nonlinear_arith)
        requires
            g >= 1,
    ;
}

/// The truncating quotient (the one `i128::checked_div` computes) agrees
/// with the Euclidean quotient whenever the division is exact.
pub proof fn lemma_trunc_div_exact(x: int, g: int)
    requires
        g >= 1,
        int_divides(g, x),
    ensures
        x < 0 ==> ((x * -1) / g) * -1 == x / g,
{
    if x < 0 {
        let k = choose|k: int| x == #[trigger] (k * g);
        lemma_div_multiples_vanish(k, g);
        assert(-x == (-k) * g) by (nonlinear_arith)
            requires
                x == k * g,
        ;
        lemma_div_multiples_vanish(-k, g);
        assert(g * (-k) == (-k) * g) by (nonlinear_arith);
        assert(g * k == k * g) by (nonlinear_arith);
        assert((x * -1) / g == -k);
    }
}

/// A value representable as an `i128` that is safe to negate.
pub open spec fn fits_i128(x: int) -> bool {
    -(i128::MAX as int) <= x <= i128::MAX as int
}

/// Numerator of `n / d` after dividing through the gcd.
pub open spec fn norm_n(n: int, d: int) -> int {
    n / (gcd_nat(iabs(n) as nat, d as nat) as int)
}

/// Denominator of `n / d` after dividing through the gcd.
pub open spec fn norm_d(n: int, d: int) -> int {
    d / (gcd_nat(iabs(n) as nat, d as nat) as int)
}

/// Reducing a fraction does not change the rational it denotes.
pub proof fn lemma_norm_value(n: int, d: int)
    requires
        1 <= d,
    ensures
        norm_n(n, d) * d == n * norm_d(n, d),
        1 <= norm_d(n, d) <= d,
        iabs(norm_n(n, d)) <= iabs(n),
{
    lemma_gcd_props(iabs(n) as nat, d as nat);
    let g = gcd_nat(iabs(n) as nat, d as nat) as int;
    let ka = choose|k: int| iabs(n) == #[trigger] (k * g);
    if n < 0 {
        assert(n == (-ka) * g) by (nonlinear_arith)
            requires
                iabs(n) == ka * g,
                n < 0,
                iabs(n) == -n,
        ;
    }
    assert(int_divides(g, n));
    lemma_exact_div(n, g);
    lemma_exact_div(d, g);
    let kn = n / g;
    let kd = d / g;
    assert(kd >= 1) by (nonlinear_arith)
        requires
            kd * g == d,
            1 <= d,
            g >= 1,
            kd >= 0,
    ;
    assert(kn * d == n * kd) by (nonlinear_arith)
        requires
            kn * g == n,
            kd * g == d,
    ;
}

/// Two rationals with the same numerator and denominator are the same
/// value.
pub proof fn lemma_rat_ext(a: Rat, b: Rat)
    requires
        a.n() == b.n(),
        a.d() == b.d(),
    ensures
        a == b,
{
}

/// An exact rational number with positive denominator.
#[derive(Clone, Copy, Debug, PartialEq)]
pub struct Rat {
    num: i128,
    den: i128,
}

/// Addition over fraction pairs, reduced; zero when an intermediate leaves
/// the `i128` range.
pub open spec fn spec_add(an: int, ad: int, bn: int, bd: int) -> (int, int) {
    if fits_i128(an * bd) && fits_i128(bn * ad) && fits_i128(an * bd + bn * ad) && fits_i128(
        ad * bd,
    ) {
        (norm_n(an * bd + bn * ad, ad * bd), norm_d(an * bd + bn * ad, ad * bd))
    } else {
        (0, 1)
    }
}

/// Subtraction is addition of the negated right operand.
pub open spec fn spec_sub(an: int, ad: int, bn: int, bd: int) -> (int, int) {
    spec_add(an, ad, -bn, bd)
}

/// Multiplication over fraction pairs, reduced; zero on range overflow.
pub open spec fn spec_mul(an: int, ad: int, bn: int, bd: int) -> (int, int) {
    if fits_i128(an * bn) && fits_i128(ad * bd) {
        (norm_n(an * bn, ad * bd), norm_d(an * bn, ad * bd))
    } else {
        (0, 1)
    }
}

/// Division over fraction pairs; division by zero and range overflow both
/// yield zero, the calculator's silencing policy.
pub open spec fn spec_div(an: int, ad: int, bn: int, bd: int) -> (int, int) {
    if bn == 0 {
        (0, 1)
    } else if fits_i128(an * bd) && fits_i128(ad * bn) {
        if ad * bn < 0 {
            (norm_n(-(an * bd), -(ad * bn)), norm_d(-(an * bd), -(ad * bn)))
        } else {
            (norm_n(an * bd, ad * bn), norm_d(an * bd, ad * bn))
        }
    } else {
        (0, 1)
    }
}

/// Quotient truncated toward zero.
pub open spec fn spec_trunc(n: int, d: int) -> int {
    if n >= 0 {
        n / d
    } else {
        -((-n) / d)
    }
}

impl Rat {
    /// The numerator.
    pub closed spec fn n(self) -> int {
        self.num as int
    }

    /// The denominator.
    pub closed spec fn d(self) -> int {
        self.den as int
    }

    /// Well-formed: positive denominator, both parts safe to negate.
    pub open spec fn wf(self) -> bool {
        1 <= self.d() && fits_i128(self.n()) && fits_i128(self.d())
    }

    /// Check at run time what `wf` states.
    pub fn wf_check(&self) -> (b: bool)
        ensures
            b == self.wf(),
    {
        self.den >= 1 && self.num > i128::MIN
    }

    /// The pair `(numerator, denominator)`.
    pub fn parts(&self) -> (p: (i128, i128))
        ensures
            p.0 as int == self.n(),
            p.1 as int == self.d(),
    {
        (self.num, self.den)
    }

    /// The rational zero.
    pub fn zero() -> (r: Rat)
        ensures
            r.wf(),
            r.n() == 0,
            r.d() == 1,
    {
        Rat { num: 0, den: 1 }
    }

    /// A whole number.
    pub fn from_i64(v: i64) -> (r: Rat)
        ensures
            r.wf(),
            r.n() == v as int,
            r.d() == 1,
    {
        Rat { num: v as i128, den: 1 }
    }

    /// The reduced fraction `num / den`.
    pub fn new(num: i64, den: i64) -> (r: Rat)
        requires
            den >= 1,
        ensures
            r.wf(),
            r.n() == norm_n(num as int, den as int),
            r.d() == norm_d(num as int, den as int),
    {
        reduce(num as i128, den as i128)
    }

    /// The reduced fraction `num / den` from wide parts.
    pub fn from_parts(num: i128, den: i128) -> (r: Rat)
        requires
            den >= 1,
            fits_i128(num as int),
        ensures
            r.wf(),
            r.n() == norm_n(num as int, den as int),
            r.d() == norm_d(num as int, den as int),
    {
        reduce(num, den)
    }

    /// Whether the value is zero.
    pub fn is_zero(&self) -> (b: bool)
        ensures
            b == (self.n() == 0),
    {
        self.num == 0
    }

    /// The sum, by `spec_add`.
    pub fn add(self, other: Rat) -> (r: Rat)
        requires
            self.wf(),
            other.wf(),
        ensures
            r.wf(),
            (r.n(), r.d()) == spec_add(self.n(), self.d(), other.n(), other.d()),
    {
        let n1 = match checked_mul_safe(self.num, other.den) {
            Some(v) => v,
            None => { return Rat::zero(); },
        };
        let n2 = match checked_mul_safe(other.num, self.den) {
            Some(v) => v,
            None => { return Rat::zero(); },
        };
        let n = match checked_add_safe(n1, n2) {
            Some(v) => v,
            None => { return Rat::zero(); },
        };
        let d = match checked_mul_safe(self.den, other.den) {
            Some(v) => v,
            None => { return Rat::zero(); },
        };
        proof {
            assert(d >= 1) by (nonlinear_arith)
                requires
                    d == self.d() * other.d(),
                    self.d() >= 1,
                    other.d() >= 1,
            ;
        }
        reduce(n, d)
    }

    /// The negation.
    pub fn neg(self) -> (r: Rat)
        requires
            self.wf(),
        ensures
            r.wf(),
            r.n() == -self.n(),
            r.d() == self.d(),
    {
        Rat { num: -self.num, den: self.den }
    }

    /// The difference, by `spec_sub`.
    pub fn sub(self, other: Rat) -> (r: Rat)
        requires
            self.wf(),
            other.wf(),
        ensures
            r.wf(),
            (r.n(), r.d()) == spec_sub(self.n(), self.d(), other.n(), other.d()),
    {
        self.add(other.neg())
    }

    /// The product, by `spec_mul`.
    pub fn mul(self, other: Rat) -> (r: Rat)
        requires
            self.wf(),
            other.wf(),
        ensures
            r.wf(),
            (r.n(), r.d()) == spec_mul(self.n(), self.d(), other.n(), other.d()),
    {
        let n = match checked_mul_safe(self.num, other.num) {
            Some(v) => v,
            None => { return Rat::zero(); },
        };
        let d = match checked_mul_safe(self.den, other.den) {
            Some(v) => v,
            None => { return Rat::zero(); },
        };
        proof {
            assert(d >= 1) by (nonlinear_arith)
                requires
                    d == self.d() * other.d(),
                    self.d() >= 1,
                    other.d() >= 1,
            ;
        }
        reduce(n, d)
    }

    /// The quotient, by `spec_div`: division by zero yields zero.
    pub fn div(self, other: Rat) -> (r: Rat)
        requires
            self.wf(),
            other.wf(),
        ensures
            r.wf(),
            (r.n(), r.d()) == spec_div(self.n(), self.d(), other.n(), other.d()),
    {
        if other.num == 0 {
            return Rat::zero();
        }
        let n = match checked_mul_safe(self.num, other.den) {
            Some(v) => v,
            None => { return Rat::zero(); },
        };
        let d = match checked_mul_safe(self.den, other.num) {
            Some(v) => v,
            None => { return Rat::zero(); },
        };
        proof {
            assert(d != 0) by (nonlinear_arith)
                requires
                    d == self.d() * other.n(),
                    self.d() >= 1,
                    other.n() != 0,
            ;
        }
        if d < 0 {
            reduce(-n, -d)
        } else {
            reduce(n, d)
        }
    }

    /// The value truncated toward zero.
    pub fn trunc(self) -> (t: i128)
        requires
            self.wf(),
        ensures
            t == spec_trunc(self.n(), self.d()),
    {
        proof {
            lemma_trunc_in_range(self.n(), self.d());
        }
        self.num.checked_div(self.den).unwrap()
    }

    /// The value truncated toward zero and clamped to the `i64` range.
    pub fn trunc_i64(self) -> (t: i64)
        requires
            self.wf(),
        ensures
            spec_trunc(self.n(), self.d()) < i64::MIN as int ==> t == i64::MIN,
            spec_trunc(self.n(), self.d()) > i64::MAX as int ==> t == i64::MAX,
            i64::MIN as int <= spec_trunc(self.n(), self.d()) <= i64::MAX as int ==> t as int
                == spec_trunc(self.n(), self.d()),
    {
        let v = self.trunc();
        if v < i64::MIN as i128 {
            i64::MIN
        } else if v > i64::MAX as i128 {
            i64::MAX
        } else {
            v as i64
        }
    }
}

/// The truncated quotient of a well-formed fraction stays in range.
proof fn lemma_trunc_in_range(n: int, d: int)
    requires
        1 <= d,
        fits_i128(n),
        fits_i128(d),
    ensures
        fits_i128(spec_trunc(n, d)),
        spec_trunc(n, d) == (if n >= 0 {
            n / d
        } else if n < 0 && d < 0 {
            (n * -1) / (d * -1)
        } else {
            ((n * -1) / d) * -1
        }),
{
    if n >= 0 {
        assert(0 <= n / d <= n) by (nonlinear_arith)
            requires
                d >= 1,
                n >= 0,
        ;
    } else {
        assert(0 <= (-n) / d <= -n) by (nonlinear_arith)
            requires
                d >= 1,
                n < 0,
        ;
        assert((n * -1) / d == (-n) / d);
    }
}

/// `checked_mul`, with the extreme negative value treated as overflow so
/// every accepted result can be negated.
fn checked_mul_safe(a: i128, b: i128) -> (r: Option<i128>)
    ensures
        r is Some <==> fits_i128(a as int * b as int),
        r is Some ==> r->0 as int == a as int * b as int,
{
    match a.checked_mul(b) {
        Some(v) => if v == i128::MIN {
            None
        } else {
            Some(v)
        },
        None => None,
    }
}

/// `checked_add`, with the extreme negative value treated as overflow.
fn checked_add_safe(a: i128, b: i128) -> (r: Option<i128>)
    ensures
        r is Some <==> fits_i128(a as int + b as int),
        r is Some ==> r->0 as int == a as int + b as int,
{
    match a.checked_add(b) {
        Some(v) => if v == i128::MIN {
            None
        } else {
            Some(v)
        },
        None => None,
    }
}

/// Euclid's algorithm.
fn gcd_exec(a0: i128, b0: i128) -> (g: i128)
    requires
        0 <= a0,
        0 <= b0,
    ensures
        0 <= g,
        g as int == gcd_nat(a0 as nat, b0 as nat) as int,
{
    let mut a = a0;
    let mut b = b0;
    while b != 0
        invariant
            0 <= a,
            0 <= b,
            gcd_nat(a as nat, b as nat) == gcd_nat(a0 as nat, b0 as nat),
        decreases b,
    {
        let r = ((a as u128) % (b as u128)) as i128;
        a = b;
        b = r;
    }
    a
}

/// Divide numerator and denominator by their gcd.
fn reduce(n: i128, d: i128) -> (r: Rat)
    requires
        1 <= d,
        fits_i128(n as int),
        fits_i128(d as int),
    ensures
        r.wf(),
        r.n() == norm_n(n as int, d as int),
        r.d() == norm_d(n as int, d as int),
{
    let m: i128 = if n < 0 {
        -n
    } else {
        n
    };
    let g: i128 = gcd_exec(m, d);
    proof {
        lemma_gcd_props(m as nat, d as nat);
        assert(g >= 1);
        let ka = choose|k: int| m as int == #[trigger] (k * (g as int));
        if n < 0 {
            assert(n as int == (-ka) * (g as int)) by (nonlinear_arith)
                requires
                    m as int == ka * (g as int),
                    n < 0,
                    m as int == -(n as int),
            ;
        }
        assert(int_divides(g as int, n as int));
        lemma_exact_div(n as int, g as int);
        lemma_exact_div(d as int, g as int);
        lemma_trunc_div_exact(n as int, g as int);
        lemma_norm_value(n as int, d as int);
    }
    let rn = n.checked_div(g).unwrap();
    let rd = d.checked_div(g).unwrap();
    Rat { num: rn, den: rd }
}

} // verus!
