//! Greatest common divisor and the divisibility facts needed to keep
//! fractions in lowest terms.

use vstd::prelude::*;

verus! {

/// `c` divides `a` exactly.
pub open spec fn divides(c: nat, a: nat) -> bool {
    exists|k: nat| a == #[trigger] (c * k)
}

/// Euclid's greatest common divisor.
pub open spec fn gcd(a: nat, b: nat) -> nat
    decreases b,
{
    if b == 0 {
        a
    } else {
        gcd(b, a % b)
    }
}

/// The greatest common divisor divides both of its arguments.
pub proof fn lemma_gcd_divides(a: nat, b: nat)
    ensures
        divides(gcd(a, b), a),
        divides(gcd(a, b), b),
    decreases b,
{
    if b == 0 {
        assert(a == a * 1);
        assert(a == gcd(a, b) * 1);
        assert(b == gcd(a, b) * 0);
    } else {
        lemma_gcd_divides(b, a % b);
        let g = gcd(b, a % b);
        let k1 = choose|k1: nat| b == #[trigger] (g * k1);
        let k2 = choose|k2: nat| (a % b) == #[trigger] (g * k2);
        assert(a == b * (a / b) + a % b) by {
            vstd::arithmetic::div_mod::lemma_fundamental_div_mod(a as int, b as int);
        }
        assert(a == g * (k1 * (a / b) + k2)) by (nonlinear_arith)
            requires
                a == b * (a / b) + a % b,
                b == g * k1,
                (a % b) == g * k2,
        ;
    }
}

/// Every common divisor of `a` and `b` divides their greatest common
/// divisor.
pub proof fn lemma_common_divisor_divides_gcd(a: nat, b: nat, c: nat)
    requires
        divides(c, a),
        divides(c, b),
    ensures
        divides(c, gcd(a, b)),
    decreases b,
{
    if b == 0 {
    } else {
        let ka = choose|k: nat| a == #[trigger] (c * k);
        let kb = choose|k: nat| b == #[trigger] (c * k);
        assert(a == b * (a / b) + a % b) by {
            vstd::arithmetic::div_mod::lemma_fundamental_div_mod(a as int, b as int);
        }
        assert(c > 0) by (nonlinear_arith)
            requires
                b == c * kb,
                b > 0,
        ;
        assert(c * ka == c * (kb * (a / b)) + a % b) by (nonlinear_arith)
            requires
                a == b * (a / b) + a % b,
                a == c * ka,
                b == c * kb,
        ;
        assert(ka >= kb * (a / b)) by {
            if ka < kb * (a / b) {
                vstd::arithmetic::mul::lemma_mul_strict_inequality(
                    ka as int,
                    (kb * (a / b)) as int,
                    c as int,
                );
                vstd::arithmetic::mul::lemma_mul_is_commutative(ka as int, c as int);
                vstd::arithmetic::mul::lemma_mul_is_commutative((kb * (a / b)) as int, c as int);
            }
        }
        let kr = (ka - kb * (a / b)) as nat;
        assert((a % b) == c * kr) by {
            vstd::arithmetic::mul::lemma_mul_is_distributive_sub(
                c as int,
                ka as int,
                (kb * (a / b)) as int,
            );
        }
        lemma_common_divisor_divides_gcd(b, a % b, c);
    }
}

/// The greatest common divisor is positive as soon as one argument is.
pub proof fn lemma_gcd_pos(a: nat, b: nat)
    requires
        a > 0 || b > 0,
    ensures
        gcd(a, b) > 0,
{
    lemma_gcd_divides(a, b);
    let g = gcd(a, b);
    if g == 0 {
        let k1 = choose|k: nat| a == #[trigger] (g * k);
        let k2 = choose|k: nat| b == #[trigger] (g * k);
        assert(a == 0);
        assert(b == 0);
    }
}

/// A divisor of a positive number is no larger than it.
pub proof fn lemma_divisor_le(c: nat, a: nat)
    requires
        divides(c, a),
        a > 0,
    ensures
        0 < c <= a,
{
    let k = choose|k: nat| a == #[trigger] (c * k);
    assert(c * k > 0 ==> 0 < c && c <= c * k || k == 0) by (nonlinear_arith);
}

/// Dividing both numbers by their greatest common divisor leaves them
/// coprime.
pub proof fn lemma_div_by_gcd_coprime(a: nat, b: nat)
    requires
        b > 0,
    ensures
        gcd(a, b) > 0,
        gcd(a / gcd(a, b), b / gcd(a, b)) == 1,
{
    let g = gcd(a, b);
    lemma_gcd_pos(a, b);
    lemma_gcd_divides(a, b);
    let ka = choose|k: nat| a == #[trigger] (g * k);
    let kb = choose|k: nat| b == #[trigger] (g * k);
    assert(a / g == ka) by (nonlinear_arith)
        requires
            a == g * ka,
            g > 0,
    ;
    assert(b / g == kb) by (nonlinear_arith)
        requires
            b == g * kb,
            g > 0,
    ;
    assert(kb > 0) by (nonlinear_arith)
        requires
            b == g * kb,
            b > 0,
    ;
    let c = gcd(ka, kb);
    lemma_gcd_pos(ka, kb);
    lemma_gcd_divides(ka, kb);
    let ma = choose|k: nat| ka == #[trigger] (c * k);
    let mb = choose|k: nat| kb == #[trigger] (c * k);
    assert(a == (g * c) * ma) by (nonlinear_arith)
        requires
            a == g * ka,
            ka == c * ma,
    ;
    assert(b == (g * c) * mb) by (nonlinear_arith)
        requires
            b == g * kb,
            kb == c * mb,
    ;
    lemma_common_divisor_divides_gcd(a, b, g * c);
    lemma_divisor_le(g * c, g);
    assert(c == 1) by (nonlinear_arith)
        requires
            g * c <= g,
            g > 0,
            c > 0,
    ;
}

/// Bezout coefficients: the greatest common divisor is an integer
/// combination of its arguments.
pub proof fn lemma_bezout(a: nat, b: nat) -> (r: (int, int))
    ensures
        r.0 * a + r.1 * b == gcd(a, b),
    decreases b,
{
    if b == 0 {
        assert(1int * a + 0int * b == a) by (nonlinear_arith);
        (1, 0)
    } else {
        let (x, y) = lemma_bezout(b, a % b);
        assert(a == b * (a / b) + a % b) by {
            vstd::arithmetic::div_mod::lemma_fundamental_div_mod(a as int, b as int);
        }
        let q = (a / b) as int;
        let m = (a % b) as int;
        let g = gcd(b, a % b) as int;
        let rx = y;
        let ry = x - y * q;
        assert(rx * a + ry * b == g) by (nonlinear_arith)
            requires
                x * b + y * m == g,
                a as int == b * q + m,
                rx == y,
                ry == x - y * q,
        ;
        (rx, ry)
    }
}

/// Euclid's lemma: a number coprime to `n` that divides `n * k`
/// divides `k`.
pub proof fn lemma_coprime_divides(d: nat, n: nat, k: nat)
    requires
        d > 0,
        gcd(n, d) == 1,
        divides(d, n * k),
    ensures
        divides(d, k),
{
    let (x, y) = lemma_bezout(n, d);
    let m = choose|m: nat| n * k == #[trigger] (d * m);
    let w = x * m + y * k;
    assert(d * w == k) by (nonlinear_arith)
        requires
            x * n + y * d == 1,
            n * k == d * m,
            w == x * m + y * k,
    ;
    assert(w >= 0) by (nonlinear_arith)
        requires
            d * w == k,
            d > 0,
            k >= 0,
    ;
    assert(k == d * (w as nat));
}

/// Executable Euclidean algorithm.
pub fn gcd_u64(a: u64, b: u64) -> (g: u64)
    ensures
        g as nat == gcd(a as nat, b as nat),
{
    let mut x = a;
    let mut y = b;
    while y != 0
        invariant
            gcd(x as nat, y as nat) == gcd(a as nat, b as nat),
        decreases y,
    {
        let r = x % y;
        x = y;
        y = r;
    }
    x
}

} // verus!
