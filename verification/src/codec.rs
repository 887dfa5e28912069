//! The exact textual codec for fractions.
//!
//! The lossless form is `"<numerator>/<denominator>"`, or a bare
//! integer meaning that integer over one.  It is the only encoding
//! guaranteed to round-trip; the decimal display form produced by the
//! formatting routines is lossy by design and never decoded.

use vstd::prelude::*;
use crate::fraction::{Fraction, in_i32, spec_make};
use crate::numerism::{
    IntParseError, all_digits, digit_val, digits_val, int_literal_val, is_digit, is_int_literal,
    parse_i32,
};

verus! {

/// Why a fraction text failed to decode.
#[derive(Clone, Copy, Debug, PartialEq, Eq)]
pub enum DecodeError {
    /// The part before the `/` is no 32-bit integer.
    InvalidNumerator(IntParseError),
    /// The part after the `/` is no 32-bit integer.
    InvalidDenominator(IntParseError),
    /// There is no `/` and the whole text is no 32-bit integer.
    InvalidLoneNumerator(IntParseError),
    /// The denominator is zero.
    ZeroDenominator,
    /// The reduced fraction leaves the 32-bit range.
    OutOfRange,
}

/// The digit character for a value below ten.
pub open spec fn digit_char(d: int) -> char {
    if d == 0 {
        '0'
    } else if d == 1 {
        '1'
    } else if d == 2 {
        '2'
    } else if d == 3 {
        '3'
    } else if d == 4 {
        '4'
    } else if d == 5 {
        '5'
    } else if d == 6 {
        '6'
    } else if d == 7 {
        '7'
    } else if d == 8 {
        '8'
    } else {
        '9'
    }
}

/// The decimal digits of a nonnegative number, most significant
/// first.
pub open spec fn dec_digits(n: int) -> Seq<char>
    decreases n,
{
    if n < 10 {
        seq![digit_char(n)]
    } else {
        dec_digits(n / 10).push(digit_char(n % 10))
    }
}

/// The decimal text of a signed number.
pub open spec fn int_text(n: int) -> Seq<char> {
    if n < 0 {
        seq!['-'] + dec_digits(-n)
    } else {
        dec_digits(n)
    }
}

/// The exact text of a fraction: numerator, slash, denominator.
pub open spec fn frac_text(f: Fraction) -> Seq<char> {
    int_text(f.num()) + seq!['/'] + int_text(f.den())
}

/// Classification of a string as a 32-bit integer literal.
pub open spec fn int_parse_result(t: Seq<char>) -> Result<int, IntParseError> {
    if t.len() == 0 {
        Err(IntParseError::Empty)
    } else if !is_int_literal(t) {
        Err(IntParseError::InvalidCharacter)
    } else if !in_i32(int_literal_val(t)) {
        Err(IntParseError::OutOfRange)
    } else {
        Ok(int_literal_val(t))
    }
}

/// `i` is the index of the first slash.
pub open spec fn is_first_slash(s: Seq<char>, i: int) -> bool {
    &&& 0 <= i < s.len()
    &&& s[i] == '/'
    &&& forall|k: int| 0 <= k < i ==> s[k] != '/'
}

/// The string contains a slash.
pub open spec fn has_slash(s: Seq<char>) -> bool {
    exists|i: int| 0 <= i < s.len() && s[i] == '/'
}

/// What decoding a fraction text yields: split once on the first
/// `/`, parse both parts (or the whole text over one), reject a zero
/// denominator, and reduce to canonical form.
pub open spec fn decode_spec(s: Seq<char>) -> Result<Fraction, DecodeError> {
    if has_slash(s) {
        let i = choose|i: int| is_first_slash(s, i);
        let np = s.take(i);
        let dp = s.skip(i + 1);
        match int_parse_result(np) {
            Err(e) => Err(DecodeError::InvalidNumerator(e)),
            Ok(nv) => match int_parse_result(dp) {
                Err(e) => Err(DecodeError::InvalidDenominator(e)),
                Ok(dv) => if dv == 0 {
                    Err(DecodeError::ZeroDenominator)
                } else {
                    match spec_make(nv, dv) {
                        Some(f) => Ok(f),
                        None => Err(DecodeError::OutOfRange),
                    }
                },
            },
        }
    } else {
        match int_parse_result(s) {
            Err(e) => Err(DecodeError::InvalidLoneNumerator(e)),
            Ok(nv) => match spec_make(nv, 1) {
                Some(f) => Ok(f),
                None => Err(DecodeError::OutOfRange),
            },
        }
    }
}

/// The decimal digits of a nonnegative number are digits denoting it.
pub proof fn lemma_dec_digits(n: int)
    requires
        n >= 0,
    ensures
        all_digits(dec_digits(n)),
        dec_digits(n).len() >= 1,
        digits_val(dec_digits(n)) == n,
    decreases n,
{
    if n < 10 {
        let t = seq![digit_char(n)];
        assert(t.drop_last() =~= Seq::<char>::empty());
        assert(is_digit(digit_char(n)));
        assert(digit_val(digit_char(n)) == n);
        assert(digits_val(t) == digits_val(t.drop_last()) * 10 + digit_val(t.last()));
    } else {
        lemma_dec_digits(n / 10);
        let x = dec_digits(n / 10);
        let c = digit_char(n % 10);
        assert(is_digit(c));
        assert(digit_val(c) == n % 10);
        assert(x.push(c).drop_last() =~= x);
        assert(forall|i: int|
            0 <= i < x.push(c).len() ==> is_digit(#[trigger] x.push(c)[i]));
        assert(digits_val(x.push(c)) == digits_val(x) * 10 + digit_val(c));
    }
}

/// The decimal text of a 32-bit value is an integer literal denoting
/// it, and contains no slash.
pub proof fn lemma_int_text(v: int)
    requires
        in_i32(v),
    ensures
        is_int_literal(int_text(v)),
        int_literal_val(int_text(v)) == v,
        forall|i: int| 0 <= i < int_text(v).len() ==> (#[trigger] int_text(v)[i]) != '/',
{
    let t = int_text(v);
    if v < 0 {
        lemma_dec_digits(-v);
        assert(t[0] == '-');
        assert(t.skip(1) =~= dec_digits(-v));
        assert(forall|i: int| 1 <= i < t.len() ==> is_digit(#[trigger] t[i]));
        assert(forall|i: int| 0 <= i < t.len() ==> (#[trigger] t[i]) != '/') by {
            assert(forall|i: int|
                1 <= i < t.len() ==> is_digit(#[trigger] t[i]) && t[i] != '/');
        }
    } else {
        lemma_dec_digits(v);
        assert(is_digit(t[0]));
        assert(t[0] != '-');
        assert(forall|i: int| 0 <= i < t.len() ==> is_digit(#[trigger] t[i]) && t[i] != '/');
    }
}

/// Round trip: decoding an encoded fraction yields the fraction back,
/// for every well-formed fraction.
pub proof fn lemma_codec_round_trip(f: Fraction)
    requires
        f.wf(),
    ensures
        decode_spec(frac_text(f)) == Ok::<Fraction, DecodeError>(f),
{
    crate::fraction::lemma_fraction_bounds(f);
    let nt = int_text(f.num());
    let dt = int_text(f.den());
    let s = frac_text(f);
    lemma_int_text(f.num());
    lemma_int_text(f.den());
    let si = nt.len() as int;
    assert(s[si] == '/');
    assert(forall|k: int| 0 <= k < si ==> s[k] == nt[k] && (#[trigger] s[k]) != '/');
    assert(is_first_slash(s, si));
    assert(has_slash(s));
    let j = choose|j: int| is_first_slash(s, j);
    assert(j == si) by {
        if j < si {
            assert(s[j] != '/');
        } else if j > si {
            assert(s[si] == '/');
        }
    }
    assert(s.take(si) =~= nt);
    assert(s.skip(si + 1) =~= dt);
    assert(int_parse_result(nt) == Ok::<int, IntParseError>(f.num()));
    assert(int_parse_result(dt) == Ok::<int, IntParseError>(f.den()));
    assert(f.den() != 0);
    crate::fraction::lemma_spec_make_canonical(f);
}

/// Appends one digit character.
fn push_digit(out: &mut String, d: u32)
    requires
        d < 10,
    ensures
        final(out)@ == old(out)@ + seq![digit_char(d as int)],
{
    let s: &str = if d == 0 {
        "0"
    } else if d == 1 {
        "1"
    } else if d == 2 {
        "2"
    } else if d == 3 {
        "3"
    } else if d == 4 {
        "4"
    } else if d == 5 {
        "5"
    } else if d == 6 {
        "6"
    } else if d == 7 {
        "7"
    } else if d == 8 {
        "8"
    } else {
        "9"
    };
    proof {
        reveal_strlit("0");
        reveal_strlit("1");
        reveal_strlit("2");
        reveal_strlit("3");
        reveal_strlit("4");
        reveal_strlit("5");
        reveal_strlit("6");
        reveal_strlit("7");
        reveal_strlit("8");
        reveal_strlit("9");
        assert(s@ =~= seq![digit_char(d as int)]);
    }
    out.append(s);
}

/// Appends the decimal digits of a nonnegative number.
pub fn push_u32_digits(out: &mut String, v: u32)
    ensures
        final(out)@ == old(out)@ + dec_digits(v as int),
    decreases v,
{
    if v >= 10 {
        push_u32_digits(out, v / 10);
    }
    push_digit(out, v % 10);
}

/// Appends the decimal text of a signed number.
pub fn push_i32_text(out: &mut String, v: i32)
    ensures
        final(out)@ == old(out)@ + int_text(v as int),
{
    if v < 0 {
        out.append("-");
        proof {
            reveal_strlit("-");
            assert("-"@ =~= seq!['-']);
        }
        let mag = (-(v as i64)) as u32;
        push_u32_digits(out, mag);
    } else {
        push_u32_digits(out, v as u32);
    }
}

/// Encodes a fraction in its exact, lossless text form
/// `"<numerator>/<denominator>"`.
pub fn encode_fraction_exact(f: &Fraction) -> (r: String)
    ensures
        r@ == frac_text(*f),
{
    let mut out = String::new();
    push_i32_text(&mut out, f.numer());
    out.append("/");
    proof {
        reveal_strlit("/");
        assert("/"@ =~= seq!['/']);
    }
    push_i32_text(&mut out, f.denom());
    out
}

/// Decodes the exact text form: `"n/d"`, or a bare integer meaning
/// `n/1`.  The result is in canonical form; a zero denominator and
/// out-of-range parts are typed errors.
pub fn decode_fraction_exact(s: &str) -> (r: Result<Fraction, DecodeError>)
    ensures
        r == decode_spec(s@),
        r matches Ok(f) ==> f.wf(),
{
    let n = s.unicode_len();
    let mut slash: Option<usize> = None;
    let mut i: usize = 0;
    while i < n
        invariant
            0 <= i <= n,
            n == s@.len(),
            match slash {
                Option::None => forall|k: int| 0 <= k < i ==> s@[k] != '/',
                Option::Some(si) => is_first_slash(s@, si as int),
            },
        decreases n - i,
    {
        let c = s.get_char(i);
        if c == '/' {
            match slash {
                Option::None => {
                    slash = Some(i);
                    i = n;
                },
                Option::Some(_) => {
                    i = i + 1;
                },
            }
        } else {
            i = i + 1;
        }
    }
    match slash {
        Some(si) => {
            proof {
                let j = choose|j: int| is_first_slash(s@, j);
                if j != si as int {
                    if j < si as int {
                        assert(s@[j] != '/');
                    } else {
                        assert(s@[si as int] != '/');
                    }
                }
            }
            let np = s.substring_char(0, si);
            let dp = s.substring_char(si + 1, n);
            proof {
                assert(np@ =~= s@.take(si as int));
                assert(dp@ =~= s@.skip(si as int + 1));
            }
            let nv = match parse_i32(np) {
                Ok(v) => v,
                Err(e) => {
                    return Err(DecodeError::InvalidNumerator(e));
                },
            };
            let dv = match parse_i32(dp) {
                Ok(v) => v,
                Err(e) => {
                    return Err(DecodeError::InvalidDenominator(e));
                },
            };
            if dv == 0 {
                return Err(DecodeError::ZeroDenominator);
            }
            match Fraction::new_checked(nv, dv) {
                Some(f) => Ok(f),
                None => Err(DecodeError::OutOfRange),
            }
        },
        None => {
            assert(!has_slash(s@));
            let nv = match parse_i32(s) {
                Ok(v) => v,
                Err(e) => {
                    return Err(DecodeError::InvalidLoneNumerator(e));
                },
            };
            match Fraction::new_checked(nv, 1) {
                Some(f) => Ok(f),
                None => Err(DecodeError::OutOfRange),
            }
        },
    }
}

/// The quotient `a / b` rounded to the nearest integer, ties away
/// from zero.
pub open spec fn round_div_away(a: int, b: int) -> int
    recommends
        b > 0,
{
    if a >= 0 {
        (2 * a + b) / (2 * b)
    } else {
        -((2 * (-a) + b) / (2 * b))
    }
}

/// Exactly `k` decimal digits of `v`, zero padded, least significant
/// last.
pub open spec fn fixed_digits(v: int, k: int) -> Seq<char>
    decreases k,
{
    if k <= 0 {
        Seq::empty()
    } else {
        fixed_digits(v / 10, k - 1).push(digit_char(v % 10))
    }
}

/// How many of the lowest `k` decimal digits of `v` are zero.
pub open spec fn dec_trailing_zeros(v: int, k: int) -> int
    decreases k,
{
    if k <= 0 {
        0
    } else if v % 10 == 0 {
        1 + dec_trailing_zeros(v / 10, k - 1)
    } else {
        0
    }
}

/// The fixed-point decimal display of a fraction with `d` fractional
/// digits, rounded half away from zero.
pub open spec fn display_fixed(f: Fraction, d: int) -> Seq<char>
    recommends
        f.wf(),
        0 <= d <= 9,
{
    let q = round_div_away(f.num() * crate::numerism::pow10(d), f.den());
    let mag = vstd::math::abs(q) as int;
    let scale = crate::numerism::pow10(d);
    (if q < 0 {
        seq!['-']
    } else {
        Seq::<char>::empty()
    }) + dec_digits(mag / scale) + (if d > 0 {
        seq!['.'] + fixed_digits(mag % scale, d)
    } else {
        Seq::<char>::empty()
    })
}

/// The decimal display of a fraction rounded at nine fractional
/// digits, with trailing zeros (and a bare trailing dot) removed.
pub open spec fn display_trimmed(f: Fraction) -> Seq<char>
    recommends
        f.wf(),
{
    let q = round_div_away(f.num() * crate::numerism::pow10(9), f.den());
    let mag = vstd::math::abs(q) as int;
    let scale = crate::numerism::pow10(9);
    let fp = mag % scale;
    let t = dec_trailing_zeros(fp, 9);
    (if q < 0 {
        seq!['-']
    } else {
        Seq::<char>::empty()
    }) + dec_digits(mag / scale) + (if t == 9 {
        Seq::<char>::empty()
    } else {
        seq!['.'] + fixed_digits(fp / crate::numerism::pow10(t), 9 - t)
    })
}

/// Appends exactly `k` decimal digits of `v`, zero padded.
fn push_fixed_digits(out: &mut String, v: u32, k: u32)
    ensures
        final(out)@ == old(out)@ + fixed_digits(v as int, k as int),
    decreases k,
{
    if k > 0 {
        push_fixed_digits(out, v / 10, k - 1);
        push_digit(out, v % 10);
    } else {
        proof {
            assert(old(out)@ + fixed_digits(v as int, 0) =~= old(out)@);
        }
    }
}

/// The rounded magnitude is close to the true quotient.
proof fn lemma_round_bound(a: int, b: int)
    requires
        a >= 0,
        b > 0,
    ensures
        0 <= (2 * a + b) / (2 * b) <= a / b + 1,
{
    vstd::arithmetic::div_mod::lemma_fundamental_div_mod(a, b);
    let k = a / b;
    assert(a % b < b) by {
        vstd::arithmetic::div_mod::lemma_mod_division_less_than_divisor(a, b);
    }
    assert(k >= 0) by {
        vstd::arithmetic::div_mod::lemma_div_pos_is_pos(a, b);
    }
    assert(2 * a + b < (2 * b) * (k + 2)) by (nonlinear_arith)
        requires
            a == b * k + a % b,
            a % b < b,
            b > 0,
    ;
    vstd::arithmetic::div_mod::lemma_multiply_divide_lt(2 * a + b, 2 * b, k + 2);
    vstd::arithmetic::div_mod::lemma_div_pos_is_pos(2 * a + b, 2 * b);
}

/// Renders a fraction as a decimal string for display.  With a digit
/// count, exactly that many fractional digits appear, the value
/// rounded half away from zero; without one, the value is rounded at
/// nine fractional digits and trailing zeros are removed.  Lossy by
/// design: only the exact `encode_fraction_exact` form round-trips.
pub fn format_fraction_display(f: &Fraction, digits: Option<u32>) -> (r: String)
    requires
        f.wf(),
        digits matches Some(d) ==> d <= 9,
    ensures
        r@ == match digits {
            Some(d) => display_fixed(*f, d as int),
            None => display_trimmed(*f),
        },
{
    let d: u32 = match digits {
        Some(d) => d,
        None => 9,
    };
    let n = f.numer();
    let den = f.denom();
    let neg = n < 0;
    let mag_n: u64 = if neg {
        (-(n as i64)) as u64
    } else {
        n as u64
    };
    let scale_i = crate::numerism::pow10_i32(d as usize);
    let scale = scale_i as u64;
    proof {
        assert(crate::numerism::pow10(d as int) <= 1_000_000_000) by {
            crate::numerism::lemma_pow10_mono(d as int, 9);
            assert(crate::numerism::pow10(9) == 1000000000) by {
                reveal_with_fuel(crate::numerism::pow10, 10);
            }
        }
        assert(mag_n * scale <= 0x8000_0000u64 * 1_000_000_000u64) by (nonlinear_arith)
            requires
                mag_n <= 0x8000_0000u64,
                scale <= 1_000_000_000u64,
        ;
    }
    let a: u64 = mag_n * scale;
    proof {
        lemma_round_bound(a as int, den as int);
    }
    let q_mag: u64 = (2 * a + (den as u64)) / (2 * (den as u64));
    let ghost p = crate::numerism::pow10(d as int);
    let ghost q = round_div_away(f.num() * p, f.den());
    proof {
        assert(scale as int == p);
        if neg {
            assert(f.num() * p == -(a as int) && a >= 1) by (nonlinear_arith)
                requires
                    mag_n as int == -f.num(),
                    mag_n >= 1,
                    scale >= 1,
                    a as int == (mag_n as int) * (scale as int),
                    scale as int == p,
            ;
            assert(q == -(q_mag as int));
        } else {
            assert(f.num() * p == a as int) by (nonlinear_arith)
                requires
                    mag_n as int == f.num(),
                    a as int == (mag_n as int) * (scale as int),
                    scale as int == p,
            ;
            assert(q == q_mag as int);
        }
        assert(vstd::math::abs(q) as int == q_mag as int);
    }
    proof {
        // the rounded magnitude and its integer part stay in range
        vstd::arithmetic::div_mod::lemma_div_is_ordered_by_denominator(a as int, 1, den as int);
        assert(a as int / 1int == a as int);
        vstd::arithmetic::div_mod::lemma_div_is_ordered(
            q_mag as int,
            a as int + 1,
            scale as int,
        );
        assert(a + 1 <= scale * (mag_n + 1)) by (nonlinear_arith)
            requires
                a == mag_n * scale,
                scale >= 1,
        ;
        vstd::arithmetic::div_mod::lemma_multiply_divide_le(
            a as int + 1,
            scale as int,
            mag_n as int + 1,
        );
        assert(q_mag / scale <= mag_n + 1);
    }
    let ip: u32 = (q_mag / scale) as u32;
    let fp: u32 = (q_mag % scale) as u32;
    proof {
        vstd::arithmetic::div_mod::lemma_mod_division_less_than_divisor(
            q_mag as int,
            scale as int,
        );
    }
    let mut out = String::new();
    if neg && q_mag > 0 {
        out.append("-");
        proof {
            reveal_strlit("-");
            assert("-"@ =~= seq!['-']);
        }
    }
    push_u32_digits(&mut out, ip);
    match digits {
        Some(dd) => {
            if dd > 0 {
                out.append(".");
                proof {
                    reveal_strlit(".");
                    assert("."@ =~= seq!['.']);
                }
                push_fixed_digits(&mut out, fp, dd);
            }
            proof {
                assert(out@ =~= display_fixed(*f, dd as int));
            }
        },
        None => {
            // drop the trailing zero digits of the fractional part
            let mut t: u32 = 0;
            let mut vv: u32 = fp;
            while t < 9 && vv % 10 == 0
                invariant
                    0 <= t <= 9,
                    fp as int == (vv as int) * crate::numerism::pow10(t as int),
                decreases 9 - t,
            {
                proof {
                    assert((vv as int) == ((vv as int) / 10) * 10) by {
                        vstd::arithmetic::div_mod::lemma_fundamental_div_mod(vv as int, 10);
                    }
                    assert((vv as int) * crate::numerism::pow10(t as int) == ((vv as int) / 10)
                        * crate::numerism::pow10(t + 1)) by (nonlinear_arith)
                        requires
                            (vv as int) == ((vv as int) / 10) * 10,
                            crate::numerism::pow10(t + 1) == 10 * crate::numerism::pow10(t as int),
                    ;
                }
                vv = vv / 10;
                t = t + 1;
            }
            proof {
                lemma_tz_characterize(fp as int, vv as int, t as int, 9);
                crate::numerism::lemma_pow10_pos(t as int);
                assert(fp as int == crate::numerism::pow10(t as int) * (vv as int))
                    by (nonlinear_arith)
                    requires
                        fp as int == (vv as int) * crate::numerism::pow10(t as int),
                ;
                vstd::arithmetic::div_mod::lemma_div_multiples_vanish(
                    vv as int,
                    crate::numerism::pow10(t as int),
                );
            }
            if t < 9 {
                out.append(".");
                proof {
                    reveal_strlit(".");
                    assert("."@ =~= seq!['.']);
                }
                push_fixed_digits(&mut out, vv, 9 - t);
            }
            proof {
                assert(out@ =~= display_trimmed(*f));
            }
        },
    }
    out
}

/// A value that is exactly a multiple of ten to the `t` and whose
/// next digit is nonzero has exactly `t` trailing zeros.
proof fn lemma_tz_characterize(fp: int, vv: int, t: int, k: int)
    requires
        fp >= 0,
        vv >= 0,
        0 <= t <= k,
        fp == vv * crate::numerism::pow10(t),
        t < k ==> vv % 10 != 0,
    ensures
        dec_trailing_zeros(fp, k) == t,
    decreases t,
{
    crate::numerism::lemma_pow10_pos(t);
    if t == 0 {
        assert(fp == vv * 1);
        if k > 0 {
            assert(fp % 10 != 0);
        }
    } else {
        let inner = vv * crate::numerism::pow10(t - 1);
        assert(fp == inner * 10) by (nonlinear_arith)
            requires
                fp == vv * crate::numerism::pow10(t),
                crate::numerism::pow10(t) == 10 * crate::numerism::pow10(t - 1),
                inner == vv * crate::numerism::pow10(t - 1),
        ;
        assert(fp % 10 == 0 && fp / 10 == inner) by {
            vstd::arithmetic::div_mod::lemma_mod_multiples_basic(inner, 10);
            vstd::arithmetic::div_mod::lemma_div_multiples_vanish(inner, 10);
        }
        assert(inner >= 0) by (nonlinear_arith)
            requires
                vv >= 0,
                crate::numerism::pow10(t - 1) > 0,
                inner == vv * crate::numerism::pow10(t - 1),
        ;
        lemma_tz_characterize(inner, vv, t - 1, k - 1);
    }
}

} // verus!
