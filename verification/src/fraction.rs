//! Exact rational numbers with signed 32-bit numerator and denominator.
//!
//! Every value produced by this module is kept in canonical form: the
//! denominator is positive and numerator and denominator are coprime.
//! Arithmetic is exact; an operation whose canonical result would leave
//! the 32-bit range reports failure instead of wrapping or rounding.

use vstd::prelude::*;
use crate::arith::{
    divides, gcd, gcd_u64, lemma_div_by_gcd_coprime, lemma_gcd_divides, lemma_gcd_pos,
};
use vstd::math::abs;

verus! {

/// An exact rational number: `num / den`.
#[derive(Clone, Copy, Debug, PartialEq, Eq, Hash)]
pub struct Fraction {
    num: i32,
    den: i32,
}

/// `x` fits the signed 32-bit range.
pub open spec fn in_i32(x: int) -> bool {
    i32::MIN <= x <= i32::MAX
}

/// `n1 / d1` and `n2 / d2` denote the same rational (cross
/// multiplication; meaningful whenever both denominators are nonzero).
pub open spec fn rat_eq_int(n1: int, d1: int, n2: int, d2: int) -> bool {
    n1 * d2 == n2 * d1
}

impl Fraction {
    /// The numerator, as a mathematical integer.
    pub closed spec fn num(self) -> int {
        self.num as int
    }

    /// The denominator, as a mathematical integer.
    pub closed spec fn den(self) -> int {
        self.den as int
    }

    /// Canonical form: positive denominator, numerator and denominator
    /// coprime.
    pub open spec fn wf(self) -> bool {
        &&& self.den() > 0
        &&& gcd(abs(self.num()), self.den() as nat) == 1
    }
}

/// The rational `a` is less than or equal to the rational `b`
/// (meaningful when both denominators are positive).
pub open spec fn rat_le(a: Fraction, b: Fraction) -> bool {
    a.num() * b.den() <= b.num() * a.den()
}

/// The rational `a` is strictly less than the rational `b`.
pub open spec fn rat_lt(a: Fraction, b: Fraction) -> bool {
    a.num() * b.den() < b.num() * a.den()
}

/// `a` and `b` denote the same rational.
pub open spec fn rat_eq(a: Fraction, b: Fraction) -> bool {
    a.num() * b.den() == b.num() * a.den()
}

/// Numerator of the canonical (lowest-terms, positive-denominator)
/// form of `n / d`.
pub open spec fn canon_num(n: int, d: int) -> int
    recommends
        d != 0,
{
    let g = gcd(abs(n), abs(d)) as int;
    if d > 0 {
        n / g
    } else {
        (-n) / g
    }
}

/// Denominator of the canonical form of `n / d`.
pub open spec fn canon_den(n: int, d: int) -> int
    recommends
        d != 0,
{
    let g = gcd(abs(n), abs(d)) as int;
    (abs(d) as int) / g
}

/// The canonical form of `n / d` as a `Fraction`, or `None` when it
/// does not fit the 32-bit range.
pub closed spec fn spec_make(n: int, d: int) -> Option<Fraction>
    recommends
        d != 0,
{
    if in_i32(canon_num(n, d)) && in_i32(canon_den(n, d)) {
        Some(Fraction { num: canon_num(n, d) as i32, den: canon_den(n, d) as i32 })
    } else {
        None
    }
}

/// How the canonical form relates to the signs and magnitudes of its
/// arguments.
pub proof fn lemma_canon(n: int, d: int)
    requires
        d != 0,
    ensures
        gcd(abs(n), abs(d)) > 0,
        canon_den(n, d) == abs(d) / gcd(abs(n), abs(d)),
        canon_den(n, d) > 0,
        abs(canon_num(n, d)) == abs(n) / gcd(abs(n), abs(d)),
        canon_num(n, d) == if (n < 0) == (d < 0) {
            (abs(n) / gcd(abs(n), abs(d))) as int
        } else {
            -((abs(n) / gcd(abs(n), abs(d))) as int)
        },
        gcd(abs(canon_num(n, d)), canon_den(n, d) as nat) == 1,
        rat_eq_int(canon_num(n, d), canon_den(n, d), n, d),
{
    let g = gcd(abs(n), abs(d)) as int;
    lemma_gcd_pos(abs(n), abs(d));
    lemma_gcd_divides(abs(n), abs(d));
    let kn = choose|k: nat| abs(n) == #[trigger] ((g as nat) * k);
    let kd = choose|k: nat| abs(d) == #[trigger] ((g as nat) * k);
    assert((abs(n) as int) / g == kn as int) by (nonlinear_arith)
        requires
            abs(n) as int == g * kn,
            g > 0,
    ;
    assert((abs(d) as int) / g == kd as int) by (nonlinear_arith)
        requires
            abs(d) as int == g * kd,
            g > 0,
    ;
    assert(kd > 0) by (nonlinear_arith)
        requires
            abs(d) as int == g * kd,
            abs(d) > 0,
    ;
    // numerator: n is g * kn or -(g * kn); exact division keeps the sign
    if n >= 0 {
        assert(n == g * kn);
        assert(n / g == kn as int) by (nonlinear_arith)
            requires
                n == g * kn,
                g > 0,
        ;
        assert((-n) / g == -(kn as int)) by (nonlinear_arith)
            requires
                n == g * kn,
                g > 0,
        ;
    } else {
        assert(-n == g * kn);
        assert(n / g == -(kn as int)) by (nonlinear_arith)
            requires
                -n == g * kn,
                g > 0,
        ;
        assert((-n) / g == kn as int) by (nonlinear_arith)
            requires
                -n == g * kn,
                g > 0,
        ;
    }
    lemma_div_by_gcd_coprime(abs(n), abs(d));
    // cross multiplication: canon_num * d == n * canon_den
    let cn = canon_num(n, d);
    let cd = canon_den(n, d);
    if d > 0 {
        assert(d == g * kd);
        if n >= 0 {
            assert(cn * d == n * cd) by (nonlinear_arith)
                requires
                    n == g * kn,
                    d == g * kd,
                    cn == kn as int,
                    cd == kd as int,
            ;
        } else {
            assert(cn * d == n * cd) by (nonlinear_arith)
                requires
                    -n == g * kn,
                    d == g * kd,
                    cn == -(kn as int),
                    cd == kd as int,
            ;
        }
    } else {
        assert(-d == g * kd);
        if n >= 0 {
            assert(cn * d == n * cd) by (nonlinear_arith)
                requires
                    n == g * kn,
                    -d == g * kd,
                    cn == -(kn as int),
                    cd == kd as int,
            ;
        } else {
            assert(cn * d == n * cd) by (nonlinear_arith)
                requires
                    -n == g * kn,
                    -d == g * kd,
                    cn == kn as int,
                    cd == kd as int,
            ;
        }
    }
}

/// What `spec_make` yields: the canonical form when it fits, `None`
/// otherwise; any produced fraction is well formed and denotes `n / d`.
pub proof fn lemma_spec_make(n: int, d: int)
    requires
        d != 0,
    ensures
        spec_make(n, d) is Some <==> in_i32(canon_num(n, d)) && in_i32(canon_den(n, d)),
        spec_make(n, d) matches Some(f) ==> {
            &&& f.num() == canon_num(n, d)
            &&& f.den() == canon_den(n, d)
            &&& f.wf()
            &&& rat_eq_int(f.num(), f.den(), n, d)
        },
{
    lemma_canon(n, d);
}

/// With a positive denominator and both arguments in range, the
/// canonical form always fits.
pub proof fn lemma_spec_make_fits(n: int, d: int)
    requires
        0 < d,
        in_i32(n),
        in_i32(d),
    ensures
        spec_make(n, d) is Some,
{
    lemma_canon(n, d);
    let g = gcd(abs(n), abs(d)) as int;
    assert(abs(n) as int <= -(i32::MIN as int));
    assert((abs(n) as int) / g <= abs(n) as int) by (nonlinear_arith)
        requires
            g >= 1,
            abs(n) >= 0,
    ;
    assert((abs(d) as int) / g <= abs(d) as int) by (nonlinear_arith)
        requires
            g >= 1,
            abs(d) >= 0,
    ;
}

/// The numerator and denominator always fit the 32-bit range.
pub proof fn lemma_fraction_bounds(f: Fraction)
    ensures
        in_i32(f.num()),
        in_i32(f.den()),
{
}

/// A well-formed fraction is its own canonical form.
pub proof fn lemma_spec_make_canonical(f: Fraction)
    requires
        f.wf(),
    ensures
        spec_make(f.num(), f.den()) == Some(f),
{
    let n = f.num();
    let d = f.den();
    lemma_canon(n, d);
    let g = gcd(abs(n), abs(d)) as int;
    assert(g == 1);
    assert(n / 1int == n);
    assert((abs(d) as int) / 1int == abs(d) as int);
}

/// Two well-formed fractions denoting the same rational are
/// identical: the canonical form is unique.
pub proof fn lemma_rat_eq_wf_unique(a: Fraction, b: Fraction)
    requires
        a.wf(),
        b.wf(),
        rat_eq(a, b),
    ensures
        a == b,
{
    let n1 = a.num();
    let d1 = a.den();
    let n2 = b.num();
    let d2 = b.den();
    let m1 = abs(n1);
    let m2 = abs(n2);
    let e1 = d1 as nat;
    let e2 = d2 as nat;
    // the signs agree, so the magnitudes cross multiply equally
    assert((m1 as int) * d2 == (m2 as int) * d1) by (nonlinear_arith)
        requires
            n1 * d2 == n2 * d1,
            d1 > 0,
            d2 > 0,
            m1 == (if n1 >= 0 { n1 } else { -n1 }),
            m2 == (if n2 >= 0 { n2 } else { -n2 }),
    ;
    assert(m1 * e2 == e1 * m2) by (nonlinear_arith)
        requires
            (m1 as int) * d2 == (m2 as int) * d1,
            e1 == d1,
            e2 == d2,
    ;
    assert(divides(e1, m1 * e2));
    crate::arith::lemma_coprime_divides(e1, m1, e2);
    assert(m2 * e1 == e2 * m1) by (nonlinear_arith)
        requires
            m1 * e2 == e1 * m2,
    ;
    assert(divides(e2, m2 * e1));
    crate::arith::lemma_coprime_divides(e2, m2, e1);
    crate::arith::lemma_divisor_le(e1, e2);
    crate::arith::lemma_divisor_le(e2, e1);
    assert(d1 == d2);
    assert(n1 == n2) by (nonlinear_arith)
        requires
            n1 * d2 == n2 * d1,
            d1 == d2,
            d1 > 0,
    ;
}

/// Builds the canonical fraction `n / d` from 64-bit intermediates,
/// reporting `None` when the reduced result leaves the 32-bit range.
fn make_i64(n: i64, d: i64) -> (r: Option<Fraction>)
    requires
        d != 0,
        n > i64::MIN,
        d > i64::MIN,
    ensures
        r == spec_make(n as int, d as int),
        r matches Some(f) ==> f.wf() && rat_eq_int(f.num(), f.den(), n as int, d as int),
{
    proof {
        lemma_spec_make(n as int, d as int);
        lemma_canon(n as int, d as int);
    }
    let neg: bool = (n < 0) != (d < 0);
    let na: u64 = if n < 0 {
        (-n) as u64
    } else {
        n as u64
    };
    let da: u64 = if d < 0 {
        (-d) as u64
    } else {
        d as u64
    };
    let g = gcd_u64(na, da);
    proof {
        lemma_gcd_pos(na as nat, da as nat);
    }
    let mag_n: u64 = na / g;
    let red_d: u64 = da / g;
    if red_d > (i32::MAX as u64) {
        return None;
    }
    if neg {
        if mag_n > 2147483648u64 {
            return None;
        }
        let value: i64 = -(mag_n as i64);
        Some(Fraction { num: value as i32, den: red_d as i32 })
    } else {
        if mag_n > (i32::MAX as u64) {
            return None;
        }
        Some(Fraction { num: mag_n as i32, den: red_d as i32 })
    }
}

impl Fraction {
    /// The canonical fraction `numer / denom`; a positive denominator
    /// in the 32-bit range always reduces to a representable value.
    pub fn new(numer: i32, denom: i32) -> (r: Fraction)
        requires
            denom > 0,
        ensures
            Some(r) == spec_make(numer as int, denom as int),
            r.wf(),
            rat_eq_int(r.num(), r.den(), numer as int, denom as int),
    {
        proof {
            lemma_spec_make_fits(numer as int, denom as int);
        }
        let r = make_i64(numer as i64, denom as i64);
        match r {
            Some(f) => f,
            None => {
                proof {
                    assert(false);
                }
                Fraction { num: 0, den: 1 }
            },
        }
    }

    /// The canonical fraction `numer / denom` for any nonzero
    /// denominator, or `None` when the canonical form does not fit.
    pub fn new_checked(numer: i32, denom: i32) -> (r: Option<Fraction>)
        requires
            denom != 0,
        ensures
            r == spec_make(numer as int, denom as int),
            r matches Some(f) ==> f.wf() && rat_eq_int(f.num(), f.den(), numer as int, denom as int),
    {
        make_i64(numer as i64, denom as i64)
    }

    /// The integer `value` as a fraction.
    pub fn from_i32(value: i32) -> (r: Fraction)
        ensures
            r.wf(),
            r.num() == value as int,
            r.den() == 1,
    {
        proof {
            assert(abs(value as int) % 1 == 0);
            assert(gcd(abs(value as int), 1nat) == gcd(1nat, 0nat));
            assert(gcd(1nat, 0nat) == 1);
        }
        Fraction { num: value, den: 1 }
    }

    /// The numerator.
    pub fn numer(&self) -> (r: i32)
        ensures
            r as int == self.num(),
    {
        self.num
    }

    /// The denominator.
    pub fn denom(&self) -> (r: i32)
        ensures
            r as int == self.den(),
    {
        self.den
    }

    /// Whether the fraction denotes zero.
    pub fn is_zero(&self) -> (r: bool)
        ensures
            r == (self.num() == 0),
    {
        self.num == 0
    }
}

/// The canonical form of the exact sum `a + b`, when it fits.
pub open spec fn spec_add(a: Fraction, b: Fraction) -> Option<Fraction>
    recommends
        a.wf(),
        b.wf(),
{
    spec_make(a.num() * b.den() + b.num() * a.den(), a.den() * b.den())
}

/// The canonical form of the exact difference `a - b`, when it fits.
pub open spec fn spec_sub(a: Fraction, b: Fraction) -> Option<Fraction>
    recommends
        a.wf(),
        b.wf(),
{
    spec_make(a.num() * b.den() - b.num() * a.den(), a.den() * b.den())
}

/// The canonical form of the exact product `a * b`, when it fits.
pub open spec fn spec_mul(a: Fraction, b: Fraction) -> Option<Fraction>
    recommends
        a.wf(),
        b.wf(),
{
    spec_make(a.num() * b.num(), a.den() * b.den())
}

/// The canonical form of the exact quotient `a / b`: `None` when `b`
/// is zero or the result does not fit.
pub open spec fn spec_div(a: Fraction, b: Fraction) -> Option<Fraction>
    recommends
        a.wf(),
        b.wf(),
{
    if b.num() == 0 {
        None
    } else {
        spec_make(a.num() * b.den(), a.den() * b.num())
    }
}

/// The canonical form of `-a`, when it fits.
pub open spec fn spec_neg(a: Fraction) -> Option<Fraction>
    recommends
        a.wf(),
{
    spec_make(-a.num(), a.den())
}

/// Bounds of the 64-bit cross products of two well-formed fractions.
proof fn lemma_cross_bounds(a: Fraction, b: Fraction)
    requires
        a.wf(),
        b.wf(),
    ensures
        -0x4000_0000_0000_0000 < a.num() * b.den() < 0x4000_0000_0000_0000,
        -0x4000_0000_0000_0000 < b.num() * a.den() < 0x4000_0000_0000_0000,
        -0x4000_0000_0000_0000 <= a.num() * b.num() <= 0x4000_0000_0000_0000,
        0 < a.den() * b.den() < 0x4000_0000_0000_0000,
        -0x4000_0000_0000_0000 < a.den() * b.num() < 0x4000_0000_0000_0000,
{
    assert(-0x4000_0000_0000_0000 < a.num() * b.den() < 0x4000_0000_0000_0000) by (nonlinear_arith)
        requires
            -0x8000_0000 <= a.num() <= 0x7fff_ffff,
            0 < b.den() <= 0x7fff_ffff,
    ;
    assert(-0x4000_0000_0000_0000 < b.num() * a.den() < 0x4000_0000_0000_0000) by (nonlinear_arith)
        requires
            -0x8000_0000 <= b.num() <= 0x7fff_ffff,
            0 < a.den() <= 0x7fff_ffff,
    ;
    assert(-0x4000_0000_0000_0000 <= a.num() * b.num() <= 0x4000_0000_0000_0000)
        by (nonlinear_arith)
        requires
            -0x8000_0000 <= a.num() <= 0x7fff_ffff,
            -0x8000_0000 <= b.num() <= 0x7fff_ffff,
    ;
    assert(0 < a.den() * b.den() < 0x4000_0000_0000_0000) by (nonlinear_arith)
        requires
            0 < a.den() <= 0x7fff_ffff,
            0 < b.den() <= 0x7fff_ffff,
    ;
    assert(-0x4000_0000_0000_0000 < a.den() * b.num() < 0x4000_0000_0000_0000) by (nonlinear_arith)
        requires
            0 < a.den() <= 0x7fff_ffff,
            -0x8000_0000 <= b.num() <= 0x7fff_ffff,
    ;
}

impl Fraction {
    /// Exact addition; `None` when the canonical sum leaves the 32-bit
    /// range.
    pub fn checked_add(&self, other: &Fraction) -> (r: Option<Fraction>)
        requires
            self.wf(),
            other.wf(),
        ensures
            r == spec_add(*self, *other),
            r matches Some(f) ==> f.wf(),
    {
        proof {
            lemma_cross_bounds(*self, *other);
        }
        let n = (self.num as i64) * (other.den as i64) + (other.num as i64) * (self.den as i64);
        let d = (self.den as i64) * (other.den as i64);
        make_i64(n, d)
    }

    /// Exact subtraction; `None` when the canonical difference leaves
    /// the 32-bit range.
    pub fn checked_sub(&self, other: &Fraction) -> (r: Option<Fraction>)
        requires
            self.wf(),
            other.wf(),
        ensures
            r == spec_sub(*self, *other),
            r matches Some(f) ==> f.wf(),
    {
        proof {
            lemma_cross_bounds(*self, *other);
        }
        let n = (self.num as i64) * (other.den as i64) - (other.num as i64) * (self.den as i64);
        let d = (self.den as i64) * (other.den as i64);
        make_i64(n, d)
    }

    /// Exact multiplication; `None` when the canonical product leaves
    /// the 32-bit range.
    pub fn checked_mul(&self, other: &Fraction) -> (r: Option<Fraction>)
        requires
            self.wf(),
            other.wf(),
        ensures
            r == spec_mul(*self, *other),
            r matches Some(f) ==> f.wf(),
    {
        proof {
            lemma_cross_bounds(*self, *other);
        }
        let n = (self.num as i64) * (other.num as i64);
        let d = (self.den as i64) * (other.den as i64);
        make_i64(n, d)
    }

    /// Exact division; `None` when the divisor is zero or the
    /// canonical quotient leaves the 32-bit range.
    pub fn checked_div(&self, other: &Fraction) -> (r: Option<Fraction>)
        requires
            self.wf(),
            other.wf(),
        ensures
            r == spec_div(*self, *other),
            r matches Some(f) ==> f.wf(),
    {
        if other.num == 0 {
            return None;
        }
        proof {
            lemma_cross_bounds(*self, *other);
            assert(self.den() * other.num() != 0) by (nonlinear_arith)
                requires
                    self.den() > 0,
                    other.num() != 0,
            ;
        }
        let n = (self.num as i64) * (other.den as i64);
        let d = (self.den as i64) * (other.num as i64);
        make_i64(n, d)
    }

    /// Exact negation; `None` only when the numerator is the smallest
    /// 32-bit integer and cannot be negated in range.
    pub fn checked_neg(&self) -> (r: Option<Fraction>)
        requires
            self.wf(),
        ensures
            r == spec_neg(*self),
            r matches Some(f) ==> f.wf(),
    {
        make_i64(-(self.num as i64), self.den as i64)
    }

    /// Rational comparison: `self <= other`.
    pub fn le(&self, other: &Fraction) -> (r: bool)
        requires
            self.wf(),
            other.wf(),
        ensures
            r == rat_le(*self, *other),
    {
        proof {
            lemma_cross_bounds(*self, *other);
        }
        (self.num as i64) * (other.den as i64) <= (other.num as i64) * (self.den as i64)
    }

    /// Rational comparison: `self < other`.
    pub fn lt(&self, other: &Fraction) -> (r: bool)
        requires
            self.wf(),
            other.wf(),
        ensures
            r == rat_lt(*self, *other),
    {
        proof {
            lemma_cross_bounds(*self, *other);
        }
        (self.num as i64) * (other.den as i64) < (other.num as i64) * (self.den as i64)
    }
}

/// The larger of two fractions by rational value; on a tie, the
/// second.
pub open spec fn spec_frac_max(a: Fraction, b: Fraction) -> Fraction {
    if rat_le(a, b) {
        b
    } else {
        a
    }
}

/// The smaller of two fractions by rational value; on a tie, the
/// first.
pub open spec fn spec_frac_min(a: Fraction, b: Fraction) -> Fraction {
    if rat_le(a, b) {
        a
    } else {
        b
    }
}

/// The larger of two fractions by rational value.
pub fn frac_max(a: &Fraction, b: &Fraction) -> (r: Fraction)
    requires
        a.wf(),
        b.wf(),
    ensures
        r == spec_frac_max(*a, *b),
        r.wf(),
{
    if a.le(b) {
        *b
    } else {
        *a
    }
}

/// Lexicographic comparison of the raw representation, used only to
/// break ties between representations of equal rationals.
pub open spec fn pair_le(a: Fraction, b: Fraction) -> bool {
    a.num() < b.num() || (a.num() == b.num() && a.den() <= b.den())
}

/// Numerator adjusted so that the sign of the value is carried by the
/// numerator alone.
pub open spec fn key_num(f: Fraction) -> int {
    if f.den() < 0 {
        -f.num()
    } else {
        f.num()
    }
}

/// Magnitude of the denominator.
pub open spec fn key_den(f: Fraction) -> int {
    abs(f.den()) as int
}

/// A total order on all fraction representations: rational value
/// first, raw representation as a tie break.  On well-formed
/// (canonical) fractions it orders by rational value.
pub open spec fn frac_le_total(a: Fraction, b: Fraction) -> bool {
    if a.den() == 0 && b.den() == 0 {
        pair_le(a, b)
    } else if a.den() == 0 {
        true
    } else if b.den() == 0 {
        false
    } else {
        let l = key_num(a) * key_den(b);
        let r = key_num(b) * key_den(a);
        l < r || (l == r && pair_le(a, b))
    }
}

/// The sorting order as a first-class relation.
pub open spec fn frac_order() -> spec_fn(Fraction, Fraction) -> bool {
    |a: Fraction, b: Fraction| frac_le_total(a, b)
}

/// `frac_le_total` is a total order, so sorting by it has a unique
/// result.
pub proof fn lemma_frac_order_total()
    ensures
        vstd::relations::total_ordering(frac_order()),
{
    let leq = frac_order();
    assert forall|a: Fraction, b: Fraction| #[trigger] leq(a, b) && #[trigger] leq(b, a)
        implies a == b by {
        lemma_frac_le_total_antisym(a, b);
    }
    assert forall|a: Fraction, b: Fraction, c: Fraction|
        #[trigger] leq(a, b) && #[trigger] leq(b, c) implies leq(a, c) by {
        lemma_frac_le_total_trans(a, b, c);
    }
    assert forall|a: Fraction, b: Fraction| !(#[trigger] leq(a, b)) implies leq(b, a) by {
        lemma_frac_le_total_connected(a, b);
    }
    assert(vstd::relations::reflexive(leq)) by {
        assert forall|a: Fraction| #[trigger] leq(a, a) by {
            lemma_frac_le_total_connected(a, a);
        }
    }
}

proof fn lemma_frac_le_total_antisym(a: Fraction, b: Fraction)
    requires
        frac_le_total(a, b),
        frac_le_total(b, a),
    ensures
        a == b,
{
    assert(a.num() == b.num() && a.den() == b.den());
}

proof fn lemma_frac_le_total_trans(a: Fraction, b: Fraction, c: Fraction)
    requires
        frac_le_total(a, b),
        frac_le_total(b, c),
    ensures
        frac_le_total(a, c),
{
    if a.den() != 0 && b.den() != 0 && c.den() != 0 {
        let na = key_num(a);
        let nb = key_num(b);
        let nc = key_num(c);
        let da = key_den(a);
        let db = key_den(b);
        let dc = key_den(c);
        assert((na * db <= nb * da && nb * dc <= nc * db && (na * db < nb * da || nb * dc < nc
            * db)) ==> na * dc < nc * da) by (nonlinear_arith)
            requires
                da > 0,
                db > 0,
                dc > 0,
        ;
        assert((na * db == nb * da && nb * dc == nc * db) ==> na * dc == nc * da)
            by (nonlinear_arith)
            requires
                da > 0,
                db > 0,
                dc > 0,
        ;
    }
}

proof fn lemma_frac_le_total_connected(a: Fraction, b: Fraction)
    ensures
        frac_le_total(a, b) || frac_le_total(b, a),
{
}

/// On well-formed fractions the sorting order refines the rational
/// order.
pub proof fn lemma_frac_le_total_wf(a: Fraction, b: Fraction)
    requires
        a.wf(),
        b.wf(),
    ensures
        frac_le_total(a, b) ==> rat_le(a, b),
        rat_lt(a, b) ==> frac_le_total(a, b),
{
}

/// Executable form of the sorting order (on well-formed fractions).
pub fn le_total(a: &Fraction, b: &Fraction) -> (r: bool)
    requires
        a.wf(),
        b.wf(),
    ensures
        r == frac_le_total(*a, *b),
{
    proof {
        lemma_cross_bounds(*a, *b);
    }
    let l = (a.num as i64) * (b.den as i64);
    let r = (b.num as i64) * (a.den as i64);
    if l < r {
        true
    } else if l == r {
        a.num < b.num || (a.num == b.num && a.den <= b.den)
    } else {
        false
    }
}

/// The smaller of two fractions by rational value.
pub fn frac_min(a: &Fraction, b: &Fraction) -> (r: Fraction)
    requires
        a.wf(),
        b.wf(),
    ensures
        r == spec_frac_min(*a, *b),
        r.wf(),
{
    if a.le(b) {
        *a
    } else {
        *b
    }
}

} // verus!
