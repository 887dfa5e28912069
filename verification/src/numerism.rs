//! Lossless parsing of human-entered decimal strings into exact
//! fractions.
//!
//! The accepted grammar is: an optional leading `-`, then ASCII
//! digits, with at most one `.` anywhere among them.  The value is the
//! mantissa (the digits with the dot removed) divided by ten to the
//! number of digits after the dot.  Malformed input and values outside
//! the 32-bit range are reported as typed errors, never panics.

use vstd::prelude::*;
use crate::fraction::{Fraction, in_i32, spec_make};

verus! {

/// Why a string failed to parse as a signed 32-bit integer.
#[derive(Clone, Copy, Debug, PartialEq, Eq)]
pub enum IntParseError {
    /// The string was empty.
    Empty,
    /// A character other than an ASCII digit (or a lone leading `-`)
    /// was found.
    InvalidCharacter,
    /// The digits denote a value outside the 32-bit signed range.
    OutOfRange,
}

/// Why a decimal string failed to parse as a fraction.
#[derive(Clone, Copy, Debug, PartialEq, Eq)]
pub enum ParseRationalError {
    /// A second dot was found; carries the indices of the first and
    /// second dots.
    MoreThanOneDot(usize, usize),
    /// A character that is no digit, dot or leading minus; carries its
    /// index and the character.
    UnexpectedCharacter(usize, char),
    /// The mantissa (digits with the dot removed) is no 32-bit
    /// integer.
    ErrorParsingMantissa(IntParseError),
    /// Ten to the number of digits after the dot exceeds the 32-bit
    /// range.
    DenominatorTooLarge,
}

/// `c` is an ASCII digit.
pub open spec fn is_digit(c: char) -> bool {
    48 <= c as u32 <= 57
}

/// Numeric value of an ASCII digit.
pub open spec fn digit_val(c: char) -> int {
    c as u32 - 48
}

/// Every character is an ASCII digit.
pub open spec fn all_digits(s: Seq<char>) -> bool {
    forall|i: int| 0 <= i < s.len() ==> is_digit(#[trigger] s[i])
}

/// The number denoted by a digit sequence, most significant first.
pub open spec fn digits_val(s: Seq<char>) -> int
    decreases s.len(),
{
    if s.len() == 0 {
        0
    } else {
        digits_val(s.drop_last()) * 10 + digit_val(s.last())
    }
}

/// `s` is a signed decimal integer literal: an optional leading `-`,
/// then at least one digit, and nothing else.
pub open spec fn is_int_literal(s: Seq<char>) -> bool {
    if s.len() > 0 && s[0] == '-' {
        s.len() >= 2 && all_digits(s.skip(1))
    } else {
        s.len() >= 1 && all_digits(s)
    }
}

/// The value of a signed decimal integer literal.
pub open spec fn int_literal_val(s: Seq<char>) -> int {
    if s.len() > 0 && s[0] == '-' {
        -digits_val(s.skip(1))
    } else {
        digits_val(s)
    }
}

/// `s` with every dot removed.
pub open spec fn strip_dots(s: Seq<char>) -> Seq<char>
    decreases s.len(),
{
    if s.len() == 0 {
        Seq::empty()
    } else if s.last() == '.' {
        strip_dots(s.drop_last())
    } else {
        strip_dots(s.drop_last()).push(s.last())
    }
}

/// The character at index `i` is acceptable during the scan: a digit,
/// a leading minus, or the first dot.
pub open spec fn ok_char(s: Seq<char>, i: int) -> bool {
    ||| i == 0 && s[0] == '-'
    ||| is_digit(s[i])
    ||| s[i] == '.' && (forall|k: int| 0 <= k < i ==> s[k] != '.')
}

/// The whole string passes the scan.
pub open spec fn scan_ok(s: Seq<char>) -> bool {
    forall|i: int| 0 <= i < s.len() ==> ok_char(s, i)
}

/// `j` is the first index at which the scan fails.
pub open spec fn is_first_violation(s: Seq<char>, j: int) -> bool {
    &&& 0 <= j < s.len()
    &&& !ok_char(s, j)
    &&& forall|k: int| 0 <= k < j ==> ok_char(s, k)
}

/// `i` is the index of the first dot.
pub open spec fn is_first_dot(s: Seq<char>, i: int) -> bool {
    &&& 0 <= i < s.len()
    &&& s[i] == '.'
    &&& forall|k: int| 0 <= k < i ==> s[k] != '.'
}

/// The string contains a dot.
pub open spec fn has_dot(s: Seq<char>) -> bool {
    exists|i: int| 0 <= i < s.len() && s[i] == '.'
}

/// Ten to the `k`-th power.
pub open spec fn pow10(k: int) -> int
    decreases k,
{
    if k <= 0 {
        1
    } else {
        10 * pow10(k - 1)
    }
}

/// How many digits follow the dot (zero when there is no dot).
pub open spec fn frac_digit_count(s: Seq<char>) -> int {
    if has_dot(s) {
        s.len() - 1 - (choose|i: int| is_first_dot(s, i))
    } else {
        0
    }
}

/// A digit string denotes a nonnegative number.
pub proof fn lemma_digits_val_nonneg(s: Seq<char>)
    requires
        all_digits(s),
    ensures
        digits_val(s) >= 0,
    decreases s.len(),
{
    if s.len() > 0 {
        lemma_digits_val_nonneg(s.drop_last());
    }
}

/// Extending a digit string never shrinks its value.
pub proof fn lemma_digits_val_prefix_le(s: Seq<char>, m: int)
    requires
        all_digits(s),
        0 <= m <= s.len(),
    ensures
        digits_val(s.take(m)) <= digits_val(s),
    decreases s.len() - m,
{
    if m < s.len() {
        lemma_digits_val_prefix_le(s, m + 1);
        assert(s.take(m + 1).drop_last() =~= s.take(m));
        lemma_digits_val_nonneg(s.take(m));
    } else {
        assert(s.take(m) =~= s);
    }
}

/// Removing dots distributes over concatenation.
proof fn lemma_strip_dots_add(a: Seq<char>, b: Seq<char>)
    ensures
        strip_dots(a + b) == strip_dots(a) + strip_dots(b),
    decreases b.len(),
{
    if b.len() == 0 {
        assert(a + b =~= a);
        assert(strip_dots(a) + strip_dots(b) =~= strip_dots(a));
    } else {
        lemma_strip_dots_add(a, b.drop_last());
        assert((a + b).drop_last() =~= a + b.drop_last());
        if b.last() == '.' {
        } else {
            assert(strip_dots(a) + strip_dots(b) =~= (strip_dots(a) + strip_dots(
                b.drop_last(),
            )).push(b.last()));
        }
    }
}

/// A dot-free string is unchanged by `strip_dots`.
proof fn lemma_strip_dots_id(s: Seq<char>)
    requires
        forall|i: int| 0 <= i < s.len() ==> s[i] != '.',
    ensures
        strip_dots(s) == s,
    decreases s.len(),
{
    if s.len() > 0 {
        lemma_strip_dots_id(s.drop_last());
        assert(strip_dots(s.drop_last()).push(s.last()) =~= s);
    }
}

/// There is only one first dot.
pub proof fn lemma_first_dot_unique(s: Seq<char>, i: int)
    requires
        is_first_dot(s, i),
    ensures
        has_dot(s),
        frac_digit_count(s) == s.len() - 1 - i,
{
    let j = choose|j: int| is_first_dot(s, j);
    if j != i {
        if j < i {
            assert(s[j] != '.');
        } else {
            assert(s[i] != '.');
        }
    }
}

/// Powers of ten are positive.
pub proof fn lemma_pow10_pos(k: int)
    ensures
        pow10(k) > 0,
    decreases k,
{
    if k > 0 {
        lemma_pow10_pos(k - 1);
    }
}

/// Powers of ten grow with the exponent.
pub proof fn lemma_pow10_mono(k1: int, k2: int)
    requires
        k1 <= k2,
    ensures
        0 < pow10(k1) <= pow10(k2),
    decreases k2 - k1,
{
    lemma_pow10_pos(k1);
    if k1 < k2 {
        lemma_pow10_mono(k1, k2 - 1);
    }
}

/// Removing dots from a digits-and-dots string leaves only digits.
proof fn lemma_strip_dots_digits(s: Seq<char>)
    requires
        forall|i: int| 0 <= i < s.len() ==> is_digit(#[trigger] s[i]) || s[i] == '.',
    ensures
        all_digits(strip_dots(s)),
    decreases s.len(),
{
    if s.len() > 0 {
        lemma_strip_dots_digits(s.drop_last());
    }
}

/// Parses a signed 32-bit integer from its decimal text.  Reports
/// exactly which of three conditions failed: empty input, a
/// non-digit character, or a value outside the 32-bit range.
pub fn parse_i32(s: &str) -> (r: Result<i32, IntParseError>)
    ensures
        match r {
            Ok(v) => is_int_literal(s@) && in_i32(int_literal_val(s@)) && v as int
                == int_literal_val(s@),
            Err(IntParseError::Empty) => s@.len() == 0,
            Err(IntParseError::InvalidCharacter) => s@.len() > 0 && !is_int_literal(s@),
            Err(IntParseError::OutOfRange) => is_int_literal(s@) && !in_i32(int_literal_val(s@)),
        },
{
    let n = s.unicode_len();
    if n == 0 {
        return Err(IntParseError::Empty);
    }
    let neg = s.get_char(0) == '-';
    let start: usize = if neg {
        1
    } else {
        0
    };
    if n == start {
        // just a minus sign
        return Err(IntParseError::InvalidCharacter);
    }
    let ghost digits = s@.skip(start as int);
    let mut i: usize = start;
    while i < n
        invariant
            start <= i <= n,
            n == s@.len(),
            start == 1 ==> s@[0] == '-',
            neg == (s@[0] == '-'),
            start == if neg { 1int } else { 0int },
            digits == s@.skip(start as int),
            forall|k: int| start <= k < i ==> is_digit(#[trigger] s@[k]),
        decreases n - i,
    {
        let c = s.get_char(i);
        let cu = c as u32;
        if cu < 48 || cu > 57 {
            assert(!is_digit(s@[i as int]));
            assert(!is_int_literal(s@)) by {
                if is_int_literal(s@) {
                    assert(is_digit(digits[i - start as int]));
                }
            }
            return Err(IntParseError::InvalidCharacter);
        }
        i = i + 1;
    }
    assert(all_digits(digits)) by {
        assert(forall|k: int|
            0 <= k < digits.len() ==> digits[k] == s@[k + start as int] && is_digit(
                #[trigger] digits[k],
            ));
    }
    assert(is_int_literal(s@)) by {
        if !neg {
            assert(s@.skip(0) =~= s@);
        }
    }
    proof {
        lemma_digits_val_nonneg(digits);
    }
    let mut mag: u64 = 0;
    let mut j: usize = start;
    while j < n
        invariant
            start <= j <= n,
            n == s@.len(),
            neg == (s@.len() > 0 && s@[0] == '-'),
            start == if neg { 1int } else { 0int },
            digits == s@.skip(start as int),
            all_digits(digits),
            mag as int == digits_val(digits.take(j - start as int)),
            mag <= 0x8000_0000u64,
        decreases n - j,
    {
        let c = s.get_char(j);
        proof {
            assert(digits[j - start as int] == s@[j as int]);
            assert(is_digit(s@[j as int]));
            assert(digits.take(j + 1 - start as int).drop_last() =~= digits.take(
                j - start as int,
            ));
        }
        let d = (c as u32) - 48;
        mag = mag * 10 + (d as u64);
        j = j + 1;
        if mag > 0x8000_0000u64 {
            proof {
                lemma_digits_val_prefix_le(digits, j - start as int);
                if neg {
                    assert(int_literal_val(s@) == -digits_val(digits));
                } else {
                    assert(s@.skip(0) =~= s@);
                    assert(int_literal_val(s@) == digits_val(digits));
                }
            }
            return Err(IntParseError::OutOfRange);
        }
    }
    proof {
        assert(digits.take(n - start as int) =~= digits);
        if neg {
            assert(int_literal_val(s@) == -digits_val(digits));
        } else {
            assert(s@.skip(0) =~= s@);
            assert(int_literal_val(s@) == digits_val(digits));
        }
    }
    if neg {
        Ok((-(mag as i64)) as i32)
    } else {
        if mag > 0x7fff_ffffu64 {
            return Err(IntParseError::OutOfRange);
        }
        Ok(mag as i32)
    }
}


/// `x` fits the signed 64-bit range.
pub open spec fn in_i64(x: int) -> bool {
    i64::MIN <= x <= i64::MAX
}

/// Parses a signed 64-bit integer from its decimal text, with the
/// same error classes as the 32-bit parser.
pub fn parse_i64(s: &str) -> (r: Result<i64, IntParseError>)
    ensures
        match r {
            Ok(v) => is_int_literal(s@) && in_i64(int_literal_val(s@)) && v as int
                == int_literal_val(s@),
            Err(IntParseError::Empty) => s@.len() == 0,
            Err(IntParseError::InvalidCharacter) => s@.len() > 0 && !is_int_literal(s@),
            Err(IntParseError::OutOfRange) => is_int_literal(s@) && !in_i64(int_literal_val(s@)),
        },
{
    let n = s.unicode_len();
    if n == 0 {
        return Err(IntParseError::Empty);
    }
    let neg = s.get_char(0) == '-';
    let start: usize = if neg {
        1
    } else {
        0
    };
    if n == start {
        // just a minus sign
        return Err(IntParseError::InvalidCharacter);
    }
    let ghost digits = s@.skip(start as int);
    let mut i: usize = start;
    while i < n
        invariant
            start <= i <= n,
            n == s@.len(),
            start == 1 ==> s@[0] == '-',
            neg == (s@[0] == '-'),
            start == if neg { 1int } else { 0int },
            digits == s@.skip(start as int),
            forall|k: int| start <= k < i ==> is_digit(#[trigger] s@[k]),
        decreases n - i,
    {
        let c = s.get_char(i);
        let cu = c as u32;
        if cu < 48 || cu > 57 {
            assert(!is_digit(s@[i as int]));
            assert(!is_int_literal(s@)) by {
                if is_int_literal(s@) {
                    assert(is_digit(digits[i - start as int]));
                }
            }
            return Err(IntParseError::InvalidCharacter);
        }
        i = i + 1;
    }
    assert(all_digits(digits)) by {
        assert(forall|k: int|
            0 <= k < digits.len() ==> digits[k] == s@[k + start as int] && is_digit(
                #[trigger] digits[k],
            ));
    }
    assert(is_int_literal(s@)) by {
        if !neg {
            assert(s@.skip(0) =~= s@);
        }
    }
    proof {
        lemma_digits_val_nonneg(digits);
    }
    let mut mag: u64 = 0;
    let mut j: usize = start;
    while j < n
        invariant
            start <= j <= n,
            n == s@.len(),
            neg == (s@.len() > 0 && s@[0] == '-'),
            start == if neg { 1int } else { 0int },
            digits == s@.skip(start as int),
            all_digits(digits),
            mag as int == digits_val(digits.take(j - start as int)),
            mag <= 0x8000_0000_0000_0000u64,
        decreases n - j,
    {
        let c = s.get_char(j);
        proof {
            assert(digits[j - start as int] == s@[j as int]);
            assert(is_digit(s@[j as int]));
            assert(digits.take(j + 1 - start as int).drop_last() =~= digits.take(
                j - start as int,
            ));
        }
        let d = (c as u32) - 48;
        if mag > 922_337_203_685_477_580u64 {
            proof {
                assert(digits_val(digits.take(j + 1 - start as int)) == mag * 10 + digit_val(
                    digits[j - start as int],
                ));
                lemma_digits_val_prefix_le(digits, j + 1 - start as int);
                if neg {
                    assert(int_literal_val(s@) == -digits_val(digits));
                } else {
                    assert(s@.skip(0) =~= s@);
                    assert(int_literal_val(s@) == digits_val(digits));
                }
            }
            return Err(IntParseError::OutOfRange);
        }
        mag = mag * 10 + (d as u64);
        j = j + 1;
        if mag > 0x8000_0000_0000_0000u64 {
            proof {
                lemma_digits_val_prefix_le(digits, j - start as int);
                if neg {
                    assert(int_literal_val(s@) == -digits_val(digits));
                } else {
                    assert(s@.skip(0) =~= s@);
                    assert(int_literal_val(s@) == digits_val(digits));
                }
            }
            return Err(IntParseError::OutOfRange);
        }
    }
    proof {
        assert(digits.take(n - start as int) =~= digits);
        if neg {
            assert(int_literal_val(s@) == -digits_val(digits));
        } else {
            assert(s@.skip(0) =~= s@);
            assert(int_literal_val(s@) == digits_val(digits));
        }
    }
    if neg {
        if mag == 0x8000_0000_0000_0000u64 {
            Ok(i64::MIN)
        } else {
            Ok(-(mag as i64))
        }
    } else {
        if mag > 0x7fff_ffff_ffff_ffffu64 {
            return Err(IntParseError::OutOfRange);
        }
        Ok(mag as i64)
    }
}

/// Scans the input for a second dot or a foreign character and finds
/// the first dot.
fn scan_input(s: &str) -> (r: Result<Option<usize>, ParseRationalError>)
    ensures
        match r {
            Ok(dot) => scan_ok(s@) && match dot {
                Some(di) => is_first_dot(s@, di as int),
                None => !has_dot(s@),
            },
            Err(ParseRationalError::MoreThanOneDot(first, second)) => {
                &&& is_first_violation(s@, second as int)
                &&& s@[second as int] == '.'
                &&& is_first_dot(s@, first as int)
            },
            Err(ParseRationalError::UnexpectedCharacter(pos, c)) => {
                &&& is_first_violation(s@, pos as int)
                &&& c == s@[pos as int]
                &&& c != '.'
            },
            Err(_) => false,
        },
{
    let n = s.unicode_len();
    let mut dot_index: Option<usize> = None;
    let mut i: usize = 0;
    while i < n
        invariant
            0 <= i <= n,
            n == s@.len(),
            forall|k: int| 0 <= k < i ==> ok_char(s@, k),
            match dot_index {
                Option::None => forall|k: int| 0 <= k < i ==> s@[k] != '.',
                Option::Some(di) => is_first_dot(s@, di as int) && (di as int) < i,
            },
        decreases n - i,
    {
        let c = s.get_char(i);
        let cu = c as u32;
        if i == 0 && c == '-' {
            // leading minus, processed as part of the mantissa
        } else if c == '.' {
            match dot_index {
                Option::Some(di) => {
                    return Err(ParseRationalError::MoreThanOneDot(di, i));
                },
                Option::None => {
                    dot_index = Some(i);
                },
            }
        } else if 48 <= cu && cu <= 57 {
            // a digit
        } else {
            return Err(ParseRationalError::UnexpectedCharacter(i, c));
        }
        i = i + 1;
    }
    Ok(dot_index)
}

/// The accumulator equals the value of the digits seen so far.
spec fn mag_matches(s: Seq<char>, start: int, j: int, mag: int) -> bool {
    mag == digits_val(strip_dots(s.skip(start).take(j - start)))
}

/// Removing dots from a single character.
proof fn lemma_strip_dots_single(c: char)
    ensures
        c == '.' ==> strip_dots(seq![c]) == Seq::<char>::empty(),
        c != '.' ==> strip_dots(seq![c]) == seq![c],
{
    reveal_with_fuel(strip_dots, 3);
    assert(seq![c].drop_last() =~= Seq::<char>::empty());
    if c != '.' {
        assert(strip_dots(seq![c].drop_last()).push(c) =~= seq![c]);
    }
}

/// What has been stripped from a prefix is a prefix of what is
/// stripped from the whole.
proof fn lemma_prefix_of_stripped(s: Seq<char>, start: int, j: int)
    requires
        0 <= start <= j <= s.len(),
    ensures
        strip_dots(s.skip(start)) == strip_dots(s.skip(start).take(j - start)) + strip_dots(
            s.skip(start).skip(j - start),
        ),
        strip_dots(s.skip(start).take(j - start)) == strip_dots(s.skip(start)).take(
            strip_dots(s.skip(start).take(j - start)).len() as int,
        ),
{
    let whole = s.skip(start);
    let pre = whole.take(j - start);
    let post = whole.skip(j - start);
    assert(whole =~= pre + post);
    lemma_strip_dots_add(pre, post);
    assert(strip_dots(pre) =~= (strip_dots(pre) + strip_dots(post)).take(
        strip_dots(pre).len() as int,
    ));
}

/// After a successful scan, the mantissa splits into an eventual
/// leading minus and a digit string.
proof fn lemma_mantissa_shape(s: Seq<char>, start: int)
    requires
        scan_ok(s),
        start == if s.len() > 0 && s[0] == '-' {
            1int
        } else {
            0int
        },
        s.len() >= start,
    ensures
        forall|k: int|
            0 <= k < s.skip(start).len() ==> is_digit(#[trigger] s.skip(start)[k]) || s.skip(
                start,
            )[k] == '.',
        all_digits(strip_dots(s.skip(start))),
        strip_dots(s) == (if start == 1 {
            seq!['-']
        } else {
            Seq::<char>::empty()
        }) + strip_dots(s.skip(start)),
        int_literal_val(strip_dots(s)) == (if start == 1 {
            -digits_val(strip_dots(s.skip(start)))
        } else {
            digits_val(strip_dots(s.skip(start)))
        }),
        is_int_literal(strip_dots(s)) <==> strip_dots(s.skip(start)).len() > 0,
{
    let digs = strip_dots(s.skip(start));
    let man = strip_dots(s);
    assert forall|k: int| 0 <= k < s.skip(start).len() implies is_digit(
        #[trigger] s.skip(start)[k],
    ) || s.skip(start)[k] == '.' by {
        let m = k + start;
        assert(ok_char(s, m));
        assert(s.skip(start)[k] == s[m]);
        if m == 0 && s[0] == '-' {
            assert(start == 1);
            assert(false);
        }
    }
    lemma_strip_dots_digits(s.skip(start));
    assert(s =~= s.take(start) + s.skip(start));
    lemma_strip_dots_add(s.take(start), s.skip(start));
    if start == 1 {
        assert(s.take(1)[0] == '-');
        lemma_strip_dots_id(s.take(1));
        assert(s.take(1) =~= seq!['-']);
        assert(man =~= seq!['-'] + digs);
        assert(man[0] == '-');
        assert(man.skip(1) =~= digs);
        if digs.len() > 0 {
            assert(is_int_literal(man));
        }
    } else {
        assert(man =~= Seq::<char>::empty() + digs);
        assert(man =~= digs);
        if man.len() > 0 {
            assert(is_digit(man[0]));
            assert(man[0] != '-');
        }
    }
}

/// Counts the mantissa digits of a scanned string.
fn count_digits(s: &str, start: usize) -> (r: usize)
    requires
        scan_ok(s@),
        start as int == if s@.len() > 0 && s@[0] == '-' {
            1int
        } else {
            0int
        },
        s@.len() >= start,
    ensures
        r as int == strip_dots(s@.skip(start as int)).len(),
{
    let n = s.unicode_len();
    let mut digit_count: usize = 0;
    let mut i: usize = start;
    while i < n
        invariant
            start <= i <= n,
            n == s@.len(),
            digit_count as int == strip_dots(s@.skip(start as int).take(i - start as int)).len(),
            digit_count <= i,
        decreases n - i,
    {
        let c = s.get_char(i);
        proof {
            let pre = s@.skip(start as int).take(i - start as int);
            let pre1 = s@.skip(start as int).take(i + 1 - start as int);
            assert(s@.skip(start as int)[i - start as int] == s@[i as int]);
            assert(pre1 =~= pre + seq![s@[i as int]]);
            lemma_strip_dots_add(pre, seq![s@[i as int]]);
            lemma_strip_dots_single(s@[i as int]);
        }
        if c != '.' {
            digit_count = digit_count + 1;
        }
        i = i + 1;
    }
    proof {
        assert(s@.skip(start as int).take(n - start as int) =~= s@.skip(start as int));
    }
    digit_count
}

/// Accumulates the magnitude of the mantissa digits; `None` when it
/// exceeds `2^31`.
fn mantissa_magnitude(s: &str, start: usize) -> (r: Option<u64>)
    requires
        scan_ok(s@),
        start as int == if s@.len() > 0 && s@[0] == '-' {
            1int
        } else {
            0int
        },
        s@.len() >= start,
    ensures
        match r {
            Some(mag) => mag as int == digits_val(strip_dots(s@.skip(start as int))) && mag
                <= 0x8000_0000u64,
            None => digits_val(strip_dots(s@.skip(start as int))) > 0x8000_0000,
        },
{
    let n = s.unicode_len();
    let ghost digs = strip_dots(s@.skip(start as int));
    proof {
        lemma_mantissa_shape(s@, start as int);
    }
    let mut mag: u64 = 0;
    let mut j: usize = start;
    while j < n
        invariant
            start <= j <= n,
            n == s@.len(),
            scan_ok(s@),
            start as int == if s@.len() > 0 && s@[0] == '-' {
                1int
            } else {
                0int
            },
            digs == strip_dots(s@.skip(start as int)),
            all_digits(digs),
            mag_matches(s@, start as int, j as int, mag as int),
            mag <= 0x8000_0000u64,
        decreases n - j,
    {
        let c = s.get_char(j);
        let ghost pre = s@.skip(start as int).take(j - start as int);
        let ghost pre1 = s@.skip(start as int).take(j + 1 - start as int);
        proof {
            assert(s@.skip(start as int)[j - start as int] == s@[j as int]);
            assert(pre1 =~= pre + seq![s@[j as int]]);
            lemma_strip_dots_add(pre, seq![s@[j as int]]);
            lemma_strip_dots_single(s@[j as int]);
        }
        if c == '.' {
            proof {
                assert(strip_dots(pre1) =~= strip_dots(pre));
            }
        } else {
            proof {
                let m = j as int;
                assert(ok_char(s@, m));
                if m == 0 && s@[0] == '-' {
                    assert(false);
                }
                assert(is_digit(s@[m]));
                assert(strip_dots(pre1) =~= strip_dots(pre).push(s@[m]));
                assert(strip_dots(pre1).drop_last() =~= strip_dots(pre));
            }
            let d = (c as u32) - 48;
            mag = mag * 10 + (d as u64);
            if mag > 0x8000_0000u64 {
                proof {
                    lemma_prefix_of_stripped(s@, start as int, j + 1);
                    lemma_digits_val_prefix_le(digs, strip_dots(pre1).len() as int);
                }
                return None;
            }
        }
        j = j + 1;
    }
    proof {
        assert(s@.skip(start as int).take(n - start as int) =~= s@.skip(start as int));
    }
    Some(mag)
}

/// The mantissa of a scanned string: the digits with the dot removed,
/// under the eventual leading minus, as a 32-bit integer.
fn mantissa_i32(s: &str, neg: bool, start: usize) -> (r: Result<i32, IntParseError>)
    requires
        scan_ok(s@),
        neg == (s@.len() > 0 && s@[0] == '-'),
        start == if neg { 1int } else { 0int },
        s@.len() >= start,
    ensures
        match r {
            Ok(v) => is_int_literal(strip_dots(s@)) && in_i32(int_literal_val(strip_dots(s@)))
                && v as int == int_literal_val(strip_dots(s@)),
            Err(IntParseError::Empty) => strip_dots(s@).len() == 0,
            Err(IntParseError::InvalidCharacter) => strip_dots(s@).len() > 0 && !is_int_literal(
                strip_dots(s@),
            ),
            Err(IntParseError::OutOfRange) => is_int_literal(strip_dots(s@)) && !in_i32(
                int_literal_val(strip_dots(s@)),
            ),
        },
{
    proof {
        lemma_mantissa_shape(s@, start as int);
        lemma_digits_val_nonneg(strip_dots(s@.skip(start as int)));
    }
    let dc = count_digits(s, start);
    if dc == 0 {
        if neg {
            return Err(IntParseError::InvalidCharacter);
        } else {
            return Err(IntParseError::Empty);
        }
    }
    let mag = match mantissa_magnitude(s, start) {
        Some(m) => m,
        None => {
            return Err(IntParseError::OutOfRange);
        },
    };
    if neg {
        Ok((-(mag as i64)) as i32)
    } else {
        if mag > 0x7fff_ffffu64 {
            return Err(IntParseError::OutOfRange);
        }
        Ok(mag as i32)
    }
}

/// Ten to the `k`-th power as a 32-bit integer.
pub fn pow10_i32(k: usize) -> (r: i32)
    requires
        k <= 9,
    ensures
        r as int == pow10(k as int),
        r > 0,
{
    proof {
        lemma_pow10_pos(k as int);
    }
    let mut divisor: i32 = 1;
    let mut t: usize = 0;
    while t < k
        invariant
            0 <= t <= k <= 9,
            divisor as int == pow10(t as int),
        decreases k - t,
    {
        proof {
            lemma_pow10_mono(t as int, 8);
            assert(pow10(8) == 100000000) by {
                reveal_with_fuel(pow10, 9);
            }
        }
        divisor = divisor * 10;
        t = t + 1;
    }
    divisor
}

/// What parsing a decimal string yields: the canonical fraction when
/// the grammar and both range limits are met, `None` otherwise.
pub open spec fn spec_parse_decimal(s: Seq<char>) -> Option<Fraction> {
    if scan_ok(s) && is_int_literal(strip_dots(s)) && in_i32(int_literal_val(strip_dots(s)))
        && frac_digit_count(s) <= 9 {
        spec_make(int_literal_val(strip_dots(s)), pow10(frac_digit_count(s)))
    } else {
        None
    }
}

/// Whatever a decimal string parses to is well formed.
pub proof fn lemma_spec_parse_decimal_wf(s: Seq<char>, f: Fraction)
    requires
        spec_parse_decimal(s) == Some(f),
    ensures
        f.wf(),
{
    lemma_pow10_pos(frac_digit_count(s));
    crate::fraction::lemma_spec_make(
        int_literal_val(strip_dots(s)),
        pow10(frac_digit_count(s)),
    );
}

/// Parses a decimal string into the exact fraction it denotes.
///
/// The grammar admits an optional leading `-`, ASCII digits, and at
/// most one `.` anywhere among the digits (also leading or trailing).
/// The value is the mantissa (digits with the dot removed) divided by
/// ten to the number of digits after the dot, reduced to canonical
/// form.  Each way the input can fail is reported distinctly: a second
/// dot (with both dot positions), a foreign character (with its
/// position), an unparseable or out-of-range mantissa, and a
/// denominator power outside the 32-bit range.
pub fn parse_decimal(s: &str) -> (r: Result<Fraction, ParseRationalError>)
    ensures
        match r {
            Ok(f) => {
                &&& scan_ok(s@)
                &&& is_int_literal(strip_dots(s@))
                &&& in_i32(int_literal_val(strip_dots(s@)))
                &&& frac_digit_count(s@) <= 9
                &&& Some(f) == spec_make(
                    int_literal_val(strip_dots(s@)),
                    pow10(frac_digit_count(s@)),
                )
                &&& f.wf()
            },
            Err(ParseRationalError::MoreThanOneDot(first, second)) => {
                &&& is_first_violation(s@, second as int)
                &&& s@[second as int] == '.'
                &&& is_first_dot(s@, first as int)
            },
            Err(ParseRationalError::UnexpectedCharacter(pos, c)) => {
                &&& is_first_violation(s@, pos as int)
                &&& c == s@[pos as int]
                &&& c != '.'
            },
            Err(ParseRationalError::ErrorParsingMantissa(e)) => {
                &&& scan_ok(s@)
                &&& match e {
                    IntParseError::Empty => strip_dots(s@).len() == 0,
                    IntParseError::InvalidCharacter => strip_dots(s@).len() > 0 && !is_int_literal(
                        strip_dots(s@),
                    ),
                    IntParseError::OutOfRange => is_int_literal(strip_dots(s@)) && !in_i32(
                        int_literal_val(strip_dots(s@)),
                    ),
                }
            },
            Err(ParseRationalError::DenominatorTooLarge) => {
                &&& scan_ok(s@)
                &&& is_int_literal(strip_dots(s@))
                &&& in_i32(int_literal_val(strip_dots(s@)))
                &&& frac_digit_count(s@) >= 10
            },
        },
{
    let n = s.unicode_len();
    let dot_index = match scan_input(s) {
        Ok(di) => di,
        Err(e) => {
            return Err(e);
        },
    };
    let neg = n > 0 && s.get_char(0) == '-';
    let start: usize = if neg {
        1
    } else {
        0
    };
    let value = match mantissa_i32(s, neg, start) {
        Ok(v) => v,
        Err(e) => {
            return Err(ParseRationalError::ErrorParsingMantissa(e));
        },
    };
    let k: usize = match dot_index {
        Some(di) => {
            proof {
                lemma_first_dot_unique(s@, di as int);
            }
            n - di - 1
        },
        None => 0,
    };
    if k >= 10 {
        return Err(ParseRationalError::DenominatorTooLarge);
    }
    let divisor = pow10_i32(k);
    Ok(Fraction::new(value, divisor))
}

} // verus!
