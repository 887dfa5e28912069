//! Validation of raw form field values into typed measurement data.
//!
//! The surrounding request handling owns the decoding of the form
//! body and looks each key up; these functions receive the looked-up
//! raw value (or its absence) together with the key under which it
//! was found, so that every error names the offending key and text.

use vstd::prelude::*;
use crate::fraction::{Fraction, rat_lt, spec_make};
use crate::model::{
    BloodPressureMeasurement, BloodSugarMeasurement, BodyMassMeasurement,
    BodyTemperatureMeasurement, MeasurementOps, SENTINEL_ID,
};
use crate::numerism::{
    IntParseError, ParseRationalError, in_i64, int_literal_val, is_int_literal, parse_decimal,
    parse_i32, parse_i64,
};
use crate::codec::int_parse_result;

verus! {

/// Why a submitted form value was rejected.
#[derive(Clone, Debug, PartialEq, Eq)]
pub enum ClientError {
    /// A required key was missing or empty.
    MissingValue(String),
    /// A value did not parse as an integer: key, raw text, cause.
    FailedToParseIntValue(String, String, IntParseError),
    /// A value did not parse as a decimal number: key, raw text,
    /// cause.
    FailedToParseRationalValue(String, String, ParseRationalError),
    /// An integer value was negative: key, value.
    IntValueZeroOrLess(String, i32),
    /// A decimal value was negative: key, value.
    RationalValueZeroOrLess(String, Fraction),
    /// An integer value exceeded its cap: key, value, cap.
    IntValueTooHigh(String, i32, i32),
    /// A decimal value fell below its floor: key, value, floor.
    RationalValueTooLow(String, Fraction, Fraction),
    /// A value was none of the recognized options: key, value,
    /// options.
    ValueIsInvalidOption(String, String, Vec<String>),
    /// A derived value left the representable range: key, value.
    RationalValueOutOfRange(String, Fraction),
}

/// Whether two strings hold the same characters.
pub fn str_eq(a: &str, b: &str) -> (r: bool)
    ensures
        r == (a@ == b@),
{
    let n = a.unicode_len();
    if n != b.unicode_len() {
        return false;
    }
    let mut i: usize = 0;
    while i < n
        invariant
            0 <= i <= n,
            n == a@.len(),
            n == b@.len(),
            forall|k: int| 0 <= k < i ==> a@[k] == b@[k],
        decreases n - i,
    {
        if a.get_char(i) != b.get_char(i) {
            return false;
        }
        i = i + 1;
    }
    proof {
        assert(a@ =~= b@);
    }
    true
}

/// An absent or empty form value.
pub open spec fn form_blank(value: Option<&str>) -> bool {
    match value {
        None => true,
        Some(s) => s@.len() == 0,
    }
}

/// Reads an optional nonnegative integer field: absent and empty
/// values yield `None`, a malformed value or a negative value is an
/// error naming the key.
pub fn get_form_i32_gt0(value: Option<&str>, key: &str) -> (r: Result<Option<i32>, ClientError>)
    ensures
        match r {
            Ok(None) => form_blank(value),
            Ok(Some(v)) => {
                &&& !form_blank(value)
                &&& value matches Some(s) && int_parse_result(s@) == Ok::<int, IntParseError>(
                    v as int,
                ) && v >= 0
            },
            Err(ClientError::FailedToParseIntValue(k, raw, e)) => {
                &&& k@ == key@
                &&& !form_blank(value)
                &&& value matches Some(s) && raw@ == s@ && int_parse_result(s@) == Err::<
                    int,
                    IntParseError,
                >(e)
            },
            Err(ClientError::IntValueZeroOrLess(k, v)) => {
                &&& k@ == key@
                &&& value matches Some(s) && int_parse_result(s@) == Ok::<int, IntParseError>(
                    v as int,
                ) && v < 0
            },
            Err(_) => false,
        },
{
    let string_value = match value {
        Some(sv) => sv,
        None => {
            return Ok(None);
        },
    };
    if string_value.unicode_len() == 0 {
        return Ok(None);
    }
    let parsed = match parse_i32(string_value) {
        Ok(v) => v,
        Err(e) => {
            return Err(
                ClientError::FailedToParseIntValue(key.to_owned(), string_value.to_owned(), e),
            );
        },
    };
    if parsed < 0 {
        Err(ClientError::IntValueZeroOrLess(key.to_owned(), parsed))
    } else {
        Ok(Some(parsed))
    }
}

/// Reads a required nonnegative integer field: an absent or empty
/// value is an error naming the key.
pub fn get_req_form_i32_gt0(value: Option<&str>, key: &str) -> (r: Result<i32, ClientError>)
    ensures
        match r {
            Ok(v) => {
                &&& !form_blank(value)
                &&& value matches Some(s) && int_parse_result(s@) == Ok::<int, IntParseError>(
                    v as int,
                ) && v >= 0
            },
            Err(ClientError::MissingValue(k)) => k@ == key@ && form_blank(value),
            Err(ClientError::FailedToParseIntValue(k, raw, e)) => {
                &&& k@ == key@
                &&& !form_blank(value)
                &&& value matches Some(s) && raw@ == s@ && int_parse_result(s@) == Err::<
                    int,
                    IntParseError,
                >(e)
            },
            Err(ClientError::IntValueZeroOrLess(k, v)) => {
                &&& k@ == key@
                &&& value matches Some(s) && int_parse_result(s@) == Ok::<int, IntParseError>(
                    v as int,
                ) && v < 0
            },
            Err(_) => false,
        },
{
    match get_form_i32_gt0(value, key) {
        Ok(Some(i)) => Ok(i),
        Ok(None) => Err(ClientError::MissingValue(key.to_owned())),
        Err(e) => Err(e),
    }
}

/// Classification of a string as a 64-bit integer literal.
pub open spec fn int64_parse_result(t: Seq<char>) -> Result<int, IntParseError> {
    if t.len() == 0 {
        Err(IntParseError::Empty)
    } else if !is_int_literal(t) {
        Err(IntParseError::InvalidCharacter)
    } else if !in_i64(int_literal_val(t)) {
        Err(IntParseError::OutOfRange)
    } else {
        Ok(int_literal_val(t))
    }
}

/// Reads an optional 64-bit integer field.
pub fn get_form_i64(value: Option<&str>, key: &str) -> (r: Result<Option<i64>, ClientError>)
    ensures
        match r {
            Ok(None) => form_blank(value),
            Ok(Some(v)) => {
                &&& !form_blank(value)
                &&& value matches Some(s) && int64_parse_result(s@) == Ok::<int, IntParseError>(
                    v as int,
                )
            },
            Err(ClientError::FailedToParseIntValue(k, raw, e)) => {
                &&& k@ == key@
                &&& !form_blank(value)
                &&& value matches Some(s) && raw@ == s@ && int64_parse_result(s@) == Err::<
                    int,
                    IntParseError,
                >(e)
            },
            Err(_) => false,
        },
{
    let string_value = match value {
        Some(sv) => sv,
        None => {
            return Ok(None);
        },
    };
    if string_value.unicode_len() == 0 {
        return Ok(None);
    }
    match parse_i64(string_value) {
        Ok(v) => Ok(Some(v)),
        Err(e) => Err(
            ClientError::FailedToParseIntValue(key.to_owned(), string_value.to_owned(), e),
        ),
    }
}

/// Reads a required 64-bit integer field.
pub fn get_req_form_i64(value: Option<&str>, key: &str) -> (r: Result<i64, ClientError>)
    ensures
        match r {
            Ok(v) => {
                &&& !form_blank(value)
                &&& value matches Some(s) && int64_parse_result(s@) == Ok::<int, IntParseError>(
                    v as int,
                )
            },
            Err(ClientError::MissingValue(k)) => k@ == key@ && form_blank(value),
            Err(ClientError::FailedToParseIntValue(k, raw, e)) => {
                &&& k@ == key@
                &&& !form_blank(value)
                &&& value matches Some(s) && raw@ == s@ && int64_parse_result(s@) == Err::<
                    int,
                    IntParseError,
                >(e)
            },
            Err(_) => false,
        },
{
    match get_form_i64(value, key) {
        Ok(Some(i)) => Ok(i),
        Ok(None) => Err(ClientError::MissingValue(key.to_owned())),
        Err(e) => Err(e),
    }
}

/// What parsing a decimal form value yields, when it parses.
pub open spec fn form_decimal_ok(s: Seq<char>, f: Fraction) -> bool {
    crate::numerism::spec_parse_decimal(s) == Some(f)
}

/// The scan fails as soon as any position fails.
proof fn lemma_violation_refutes_scan(s: Seq<char>, j: int)
    requires
        crate::numerism::is_first_violation(s, j),
    ensures
        !crate::numerism::scan_ok(s),
{
}

/// The carried parse error names the exact failure in the raw text.
pub open spec fn decimal_error_ok(s: Seq<char>, e: ParseRationalError) -> bool {
    match e {
        ParseRationalError::MoreThanOneDot(first, second) => {
            &&& crate::numerism::is_first_violation(s, second as int)
            &&& s[second as int] == '.'
            &&& crate::numerism::is_first_dot(s, first as int)
        },
        ParseRationalError::UnexpectedCharacter(pos, c) => {
            &&& crate::numerism::is_first_violation(s, pos as int)
            &&& c == s[pos as int]
            &&& c != '.'
        },
        ParseRationalError::ErrorParsingMantissa(inner) => {
            &&& crate::numerism::scan_ok(s)
            &&& match inner {
                IntParseError::Empty => crate::numerism::strip_dots(s).len() == 0,
                IntParseError::InvalidCharacter => crate::numerism::strip_dots(s).len() > 0
                    && !is_int_literal(crate::numerism::strip_dots(s)),
                IntParseError::OutOfRange => is_int_literal(crate::numerism::strip_dots(s))
                    && !crate::fraction::in_i32(int_literal_val(crate::numerism::strip_dots(s))),
            }
        },
        ParseRationalError::DenominatorTooLarge => {
            &&& crate::numerism::scan_ok(s)
            &&& crate::numerism::frac_digit_count(s) >= 10
        },
    }
}

/// Reads an optional decimal field into an exact fraction.
pub fn get_form_r32(value: Option<&str>, key: &str) -> (r: Result<Option<Fraction>, ClientError>)
    ensures
        match r {
            Ok(None) => form_blank(value),
            Ok(Some(f)) => {
                &&& !form_blank(value)
                &&& value matches Some(s) && form_decimal_ok(s@, f)
            },
            Err(ClientError::FailedToParseRationalValue(k, raw, e)) => {
                &&& k@ == key@
                &&& !form_blank(value)
                &&& value matches Some(s) && raw@ == s@ && crate::numerism::spec_parse_decimal(s@)
                    is None && decimal_error_ok(s@, e)
            },
            Err(_) => false,
        },
{
    let string_value = match value {
        Some(sv) => sv,
        None => {
            return Ok(None);
        },
    };
    if string_value.unicode_len() == 0 {
        return Ok(None);
    }
    match parse_decimal(string_value) {
        Ok(f) => Ok(Some(f)),
        Err(e) => {
            proof {
                match e {
                    ParseRationalError::MoreThanOneDot(_, second) => {
                        lemma_violation_refutes_scan(string_value@, second as int);
                    },
                    ParseRationalError::UnexpectedCharacter(pos, _) => {
                        lemma_violation_refutes_scan(string_value@, pos as int);
                    },
                    _ => {},
                }
            }
            Err(
                ClientError::FailedToParseRationalValue(key.to_owned(), string_value.to_owned(), e),
            )
        },
    }
}

/// Reads an optional decimal field and rejects negative values.
pub fn get_form_r32_gt0(value: Option<&str>, key: &str) -> (r: Result<
    Option<Fraction>,
    ClientError,
>)
    ensures
        match r {
            Ok(None) => form_blank(value),
            Ok(Some(f)) => {
                &&& !form_blank(value)
                &&& value matches Some(s) && form_decimal_ok(s@, f) && f.num() >= 0
            },
            Err(ClientError::FailedToParseRationalValue(k, raw, e)) => {
                &&& k@ == key@
                &&& !form_blank(value)
                &&& value matches Some(s) && raw@ == s@ && crate::numerism::spec_parse_decimal(s@)
                    is None && decimal_error_ok(s@, e)
            },
            Err(ClientError::RationalValueZeroOrLess(k, f)) => {
                &&& k@ == key@
                &&& !form_blank(value)
                &&& value matches Some(s) && form_decimal_ok(s@, f) && f.num() < 0
            },
            Err(_) => false,
        },
{
    match get_form_r32(value, key)? {
        Some(v) => {
            if v.numer() < 0 {
                Err(ClientError::RationalValueZeroOrLess(key.to_owned(), v))
            } else {
                Ok(Some(v))
            }
        },
        None => Ok(None),
    }
}

/// Reads a required decimal field.
pub fn get_req_form_r32(value: Option<&str>, key: &str) -> (r: Result<Fraction, ClientError>)
    ensures
        match r {
            Ok(f) => {
                &&& !form_blank(value)
                &&& value matches Some(s) && form_decimal_ok(s@, f)
            },
            Err(ClientError::MissingValue(k)) => k@ == key@ && form_blank(value),
            Err(ClientError::FailedToParseRationalValue(k, raw, e)) => {
                &&& k@ == key@
                &&& !form_blank(value)
                &&& value matches Some(s) && raw@ == s@ && crate::numerism::spec_parse_decimal(s@)
                    is None && decimal_error_ok(s@, e)
            },
            Err(_) => false,
        },
{
    match get_form_r32(value, key) {
        Ok(Some(i)) => Ok(i),
        Ok(None) => Err(ClientError::MissingValue(key.to_owned())),
        Err(e) => Err(e),
    }
}

/// Reads a required decimal field and rejects negative values.
pub fn get_req_form_r32_gt0(value: Option<&str>, key: &str) -> (r: Result<Fraction, ClientError>)
    ensures
        match r {
            Ok(f) => {
                &&& !form_blank(value)
                &&& value matches Some(s) && form_decimal_ok(s@, f) && f.num() >= 0
            },
            Err(ClientError::MissingValue(k)) => k@ == key@ && form_blank(value),
            Err(ClientError::FailedToParseRationalValue(k, raw, e)) => {
                &&& k@ == key@
                &&& !form_blank(value)
                &&& value matches Some(s) && raw@ == s@ && crate::numerism::spec_parse_decimal(s@)
                    is None && decimal_error_ok(s@, e)
            },
            Err(ClientError::RationalValueZeroOrLess(k, f)) => {
                &&& k@ == key@
                &&& !form_blank(value)
                &&& value matches Some(s) && form_decimal_ok(s@, f) && f.num() < 0
            },
            Err(_) => false,
        },
{
    match get_form_r32_gt0(value, key) {
        Ok(Some(i)) => Ok(i),
        Ok(None) => Err(ClientError::MissingValue(key.to_owned())),
        Err(e) => Err(e),
    }
}


/// The value of a required nonnegative integer field, when it has
/// one.
pub open spec fn req_i32_val(v: Option<&str>) -> Option<i32> {
    match v {
        None => None,
        Some(s) => if s@.len() == 0 {
            None
        } else {
            match int_parse_result(s@) {
                Ok(x) => if x >= 0 {
                    Some(x as i32)
                } else {
                    None
                },
                Err(_) => None,
            }
        },
    }
}

/// The value of a required nonnegative decimal field, when it has
/// one.
pub open spec fn req_frac_val(v: Option<&str>) -> Option<Fraction> {
    match v {
        None => None,
        Some(s) => if s@.len() == 0 {
            None
        } else {
            match crate::numerism::spec_parse_decimal(s@) {
                Some(f) => if f.num() >= 0 {
                    Some(f)
                } else {
                    None
                },
                None => None,
            }
        },
    }
}

/// An optional field is acceptable when blank or holding a
/// nonnegative value.
pub open spec fn opt_frac_ok(v: Option<&str>) -> bool {
    form_blank(v) || req_frac_val(v) is Some
}

/// The value of an optional nonnegative decimal field.
pub open spec fn opt_frac_val(v: Option<&str>) -> Option<Fraction> {
    if form_blank(v) {
        None
    } else {
        req_frac_val(v)
    }
}

/// A non-blank integer field whose text did not parse, together with
/// the raw text and cause an error carries for it.
pub open spec fn i32_field_parse_failed(v: Option<&str>, raw: Seq<char>, e: IntParseError) -> bool {
    match v {
        Some(s) => s@.len() > 0 && raw == s@ && int_parse_result(s@) == Err::<int, IntParseError>(
            e,
        ),
        None => false,
    }
}

/// An integer field that parsed to the negative value `x`.
pub open spec fn i32_field_negative(v: Option<&str>, x: i32) -> bool {
    match v {
        Some(s) => int_parse_result(s@) == Ok::<int, IntParseError>(x as int) && x < 0,
        None => false,
    }
}

/// The value of a required 64-bit integer field, when it has one.
pub open spec fn req_i64_val(v: Option<&str>) -> Option<i64> {
    match v {
        None => None,
        Some(s) => if s@.len() == 0 {
            None
        } else {
            match int64_parse_result(s@) {
                Ok(x) => Some(x as i64),
                Err(_) => None,
            }
        },
    }
}

/// A non-blank 64-bit integer field whose text did not parse.
pub open spec fn i64_field_parse_failed(v: Option<&str>, raw: Seq<char>, e: IntParseError) -> bool {
    match v {
        Some(s) => s@.len() > 0 && raw == s@ && int64_parse_result(s@) == Err::<
            int,
            IntParseError,
        >(e),
        None => false,
    }
}

/// A non-blank decimal field whose text did not parse, with the raw
/// text and the exact failure an error carries for it.
pub open spec fn frac_field_parse_failed(
    v: Option<&str>,
    raw: Seq<char>,
    e: ParseRationalError,
) -> bool {
    match v {
        Some(s) => s@.len() > 0 && raw == s@ && crate::numerism::spec_parse_decimal(s@) is None
            && decimal_error_ok(s@, e),
        None => false,
    }
}

/// A decimal field that parsed to the negative fraction `f`.
pub open spec fn frac_field_negative(v: Option<&str>, f: Fraction) -> bool {
    match v {
        Some(s) => crate::numerism::spec_parse_decimal(s@) == Some(f) && f.num() < 0,
        None => false,
    }
}

/// The submitted unit is one of the two recognized blood sugar units.
pub open spec fn unit_recognized(unit_key: Option<&str>) -> bool {
    match unit_key {
        Some(u) => u@ == "mmol-per-l"@ || u@ == "mg-per-dl"@,
        None => false,
    }
}

/// Validates a blood pressure form submission into a measurement
/// carrying the sentinel identity and the given timestamp.  The
/// saturation, when present, must not exceed one hundred percent.
pub fn get_measurement_from_form(
    systolic: Option<&str>,
    diastolic: Option<&str>,
    pulse: Option<&str>,
    spo2: Option<&str>,
    timestamp: i64,
) -> (r: Result<BloodPressureMeasurement, ClientError>)
    ensures
        match r {
            Ok(m) => {
                &&& req_i32_val(systolic) == Some(m.systolic_mmhg)
                &&& req_i32_val(diastolic) == Some(m.diastolic_mmhg)
                &&& req_i32_val(pulse) == Some(m.pulse_bpm)
                &&& m.spo2_percent == (if form_blank(spo2) {
                    None::<i32>
                } else {
                    req_i32_val(spo2)
                })
                &&& (req_i32_val(spo2) matches Some(v) ==> v <= 100)
                &&& (!form_blank(spo2) ==> req_i32_val(spo2) is Some)
                &&& m.id == SENTINEL_ID
                &&& m.timestamp == timestamp
            },
            Err(ClientError::MissingValue(k)) => {
                ||| k@ == "systolic_mmhg"@ && form_blank(systolic)
                ||| k@ == "diastolic_mmhg"@ && req_i32_val(systolic) is Some && form_blank(
                    diastolic,
                )
                ||| k@ == "pulse_bpm"@ && req_i32_val(systolic) is Some && req_i32_val(
                    diastolic,
                ) is Some && form_blank(pulse)
            },
            Err(ClientError::FailedToParseIntValue(k, raw, e)) => {
                ||| k@ == "systolic_mmhg"@ && i32_field_parse_failed(systolic, raw@, e)
                ||| k@ == "diastolic_mmhg"@ && req_i32_val(systolic) is Some
                    && i32_field_parse_failed(diastolic, raw@, e)
                ||| k@ == "pulse_bpm"@ && req_i32_val(systolic) is Some && req_i32_val(
                    diastolic,
                ) is Some && i32_field_parse_failed(pulse, raw@, e)
                ||| k@ == "spo2_percent"@ && req_i32_val(systolic) is Some && req_i32_val(
                    diastolic,
                ) is Some && req_i32_val(pulse) is Some && i32_field_parse_failed(spo2, raw@, e)
            },
            Err(ClientError::IntValueZeroOrLess(k, x)) => {
                ||| k@ == "systolic_mmhg"@ && i32_field_negative(systolic, x)
                ||| k@ == "diastolic_mmhg"@ && req_i32_val(systolic) is Some
                    && i32_field_negative(diastolic, x)
                ||| k@ == "pulse_bpm"@ && req_i32_val(systolic) is Some && req_i32_val(
                    diastolic,
                ) is Some && i32_field_negative(pulse, x)
                ||| k@ == "spo2_percent"@ && req_i32_val(systolic) is Some && req_i32_val(
                    diastolic,
                ) is Some && req_i32_val(pulse) is Some && i32_field_negative(spo2, x)
            },
            Err(ClientError::IntValueTooHigh(k, v, cap)) => {
                &&& k@ == "spo2_percent"@
                &&& cap == 100
                &&& req_i32_val(systolic) is Some
                &&& req_i32_val(diastolic) is Some
                &&& req_i32_val(pulse) is Some
                &&& req_i32_val(spo2) == Some(v)
                &&& v > 100
            },
            Err(_) => false,
        },
{
    let systolic_mmhg = get_req_form_i32_gt0(systolic, "systolic_mmhg")?;
    let diastolic_mmhg = get_req_form_i32_gt0(diastolic, "diastolic_mmhg")?;
    let pulse_bpm = get_req_form_i32_gt0(pulse, "pulse_bpm")?;
    let spo2_percent = get_form_i32_gt0(spo2, "spo2_percent")?;

    match spo2_percent {
        Some(sat) => {
            if sat > 100 {
                return Err(ClientError::IntValueTooHigh("spo2_percent".to_owned(), sat, 100));
            }
        },
        None => {},
    }

    Ok(
        BloodPressureMeasurement {
            id: SENTINEL_ID,
            timestamp,
            systolic_mmhg,
            diastolic_mmhg,
            pulse_bpm,
            spo2_percent,
        },
    )
}

/// Validates a body mass form submission, deriving the body-mass
/// index from the configured height when one is set.
pub fn get_mass_measurement_from_form(
    mass: Option<&str>,
    waist: Option<&str>,
    height_cm: Option<i32>,
    timestamp: i64,
) -> (r: Result<BodyMassMeasurement, ClientError>)
    ensures
        match r {
            Ok(m) => {
                &&& req_frac_val(mass) == Some(m.mass_kg)
                &&& opt_frac_ok(waist)
                &&& m.waist_circum_cm == opt_frac_val(waist)
                &&& m.bmi == (match height_cm {
                    Some(h) => crate::derived::spec_bmi(m.mass_kg, h as int),
                    None => None::<Fraction>,
                })
                &&& m.id == SENTINEL_ID
                &&& m.timestamp == timestamp
                &&& m.valid()
            },
            Err(ClientError::MissingValue(k)) => k@ == "mass_kg"@ && form_blank(mass),
            Err(ClientError::FailedToParseRationalValue(k, raw, e)) => {
                ||| k@ == "mass_kg"@ && frac_field_parse_failed(mass, raw@, e)
                ||| k@ == "waist_circum_cm"@ && req_frac_val(mass) is Some
                    && frac_field_parse_failed(waist, raw@, e)
            },
            Err(ClientError::RationalValueZeroOrLess(k, f)) => {
                ||| k@ == "mass_kg"@ && frac_field_negative(mass, f)
                ||| k@ == "waist_circum_cm"@ && req_frac_val(mass) is Some
                    && frac_field_negative(waist, f)
            },
            Err(_) => false,
        },
{
    let mass_kg = get_req_form_r32_gt0(mass, "mass_kg")?;
    let waist_circum_cm = get_form_r32_gt0(waist, "waist_circum_cm")?;
    proof {
        crate::numerism::lemma_spec_parse_decimal_wf(mass->Some_0@, mass_kg);
        match waist_circum_cm {
            Some(w) => {
                crate::numerism::lemma_spec_parse_decimal_wf(waist->Some_0@, w);
            },
            None => {},
        }
    }
    let bmi = crate::derived::bmi(&mass_kg, height_cm);
    Ok(BodyMassMeasurement { id: SENTINEL_ID, timestamp, mass_kg, waist_circum_cm, bmi })
}

/// The lowest representable temperature: absolute zero in degrees
/// Celsius.
pub open spec fn absolute_zero_celsius() -> Option<Fraction> {
    spec_make(-27_315, 100)
}

/// Validates a body temperature form submission; a temperature below
/// absolute zero is rejected.
pub fn get_temperature_measurement_from_form(
    location: Option<&str>,
    temperature: Option<&str>,
    timestamp: i64,
) -> (r: Result<BodyTemperatureMeasurement, ClientError>)
    ensures
        match r {
            Ok(m) => {
                &&& req_i64_val(location) == Some(m.location_id)
                &&& (match temperature {
                    Some(s) => s@.len() > 0 && crate::numerism::spec_parse_decimal(s@) == Some(
                        m.temperature_celsius,
                    ),
                    None => false,
                })
                &&& (absolute_zero_celsius() matches Some(z) && !rat_lt(m.temperature_celsius, z))
                &&& m.id == SENTINEL_ID
                &&& m.timestamp == timestamp
                &&& m.valid()
            },
            Err(ClientError::MissingValue(k)) => {
                ||| k@ == "location"@ && form_blank(location)
                ||| k@ == "temperature_celsius"@ && req_i64_val(location) is Some && form_blank(
                    temperature,
                )
            },
            Err(ClientError::FailedToParseIntValue(k, raw, e)) => k@ == "location"@
                && i64_field_parse_failed(location, raw@, e),
            Err(ClientError::FailedToParseRationalValue(k, raw, e)) => k@
                == "temperature_celsius"@ && req_i64_val(location) is Some
                && frac_field_parse_failed(temperature, raw@, e),
            Err(ClientError::RationalValueTooLow(k, v, z)) => {
                &&& k@ == "temperature_celsius"@
                &&& req_i64_val(location) is Some
                &&& (match temperature {
                    Some(s) => crate::numerism::spec_parse_decimal(s@) == Some(v),
                    None => false,
                })
                &&& Some(z) == absolute_zero_celsius()
                &&& rat_lt(v, z)
            },
            Err(_) => false,
        },
{
    let location_id = get_req_form_i64(location, "location")?;
    let temp_celsius = match get_form_r32(temperature, "temperature_celsius") {
        Ok(Some(t)) => t,
        Ok(None) => {
            return Err(ClientError::MissingValue("temperature_celsius".to_owned()));
        },
        Err(e) => {
            return Err(e);
        },
    };
    proof {
        crate::fraction::lemma_spec_make_fits(-27_315, 100);
        crate::fraction::lemma_spec_make(-27_315, 100);
        crate::numerism::lemma_spec_parse_decimal_wf(temperature->Some_0@, temp_celsius);
    }
    let zero_kelvin = Fraction::new(-27_315, 100);
    if temp_celsius.lt(&zero_kelvin) {
        // a temperature below absolute zero?!
        return Err(
            ClientError::RationalValueTooLow(
                "temperature_celsius".to_owned(),
                temp_celsius,
                zero_kelvin,
            ),
        );
    }
    Ok(BodyTemperatureMeasurement { id: SENTINEL_ID, timestamp, location_id, temperature_celsius: temp_celsius })
}

/// Validates a blood sugar form submission: the value is entered in
/// one of two recognized units and stored canonically in mmol/L.
pub fn get_sugar_measurement_from_form(
    unit_key: Option<&str>,
    sugar: Option<&str>,
    timestamp: i64,
) -> (r: Result<BloodSugarMeasurement, ClientError>)
    ensures
        match r {
            Ok(m) => {
                &&& req_frac_val(sugar) matches Some(v) && (match unit_key {
                    Some(u) => (u@ == "mmol-per-l"@ && m.sugar_mmol_per_l == v) || (u@
                        == "mg-per-dl"@ && crate::derived::spec_mg_per_dl_to_mmol_per_l(v) == Some(
                        m.sugar_mmol_per_l,
                    )),
                    None => false,
                })
                &&& m.id == SENTINEL_ID
                &&& m.timestamp == timestamp
                &&& m.valid()
            },
            Err(ClientError::MissingValue(k)) => {
                ||| k@ == "sugar_unit_key"@ && unit_key is None
                ||| k@ == "sugar_value"@ && unit_recognized(unit_key) && form_blank(sugar)
            },
            Err(ClientError::ValueIsInvalidOption(k, val, opts)) => {
                &&& k@ == "sugar_unit_key"@
                &&& (match unit_key {
                    Some(u) => u@ != "mmol-per-l"@ && u@ != "mg-per-dl"@ && val@ == u@,
                    None => false,
                })
                &&& opts@.len() == 2
                &&& opts@[0]@ == "mmol-per-l"@
                &&& opts@[1]@ == "mg-per-dl"@
            },
            Err(ClientError::FailedToParseRationalValue(k, raw, e)) => k@ == "sugar_value"@
                && unit_recognized(unit_key) && frac_field_parse_failed(sugar, raw@, e),
            Err(ClientError::RationalValueZeroOrLess(k, f)) => k@ == "sugar_value"@
                && unit_recognized(unit_key) && frac_field_negative(sugar, f),
            Err(ClientError::RationalValueOutOfRange(k, v)) => {
                &&& k@ == "sugar_value"@
                &&& (match unit_key {
                    Some(u) => u@ == "mg-per-dl"@,
                    None => false,
                })
                &&& req_frac_val(sugar) == Some(v)
                &&& crate::derived::spec_mg_per_dl_to_mmol_per_l(v) is None
            },
            Err(_) => false,
        },
{
    let unit = match unit_key {
        Some(u) => u,
        None => {
            return Err(ClientError::MissingValue("sugar_unit_key".to_owned()));
        },
    };
    let mg_per_dl: bool = if str_eq(unit, "mmol-per-l") {
        false
    } else if str_eq(unit, "mg-per-dl") {
        true
    } else {
        let mut options: Vec<String> = Vec::new();
        options.push("mmol-per-l".to_owned());
        options.push("mg-per-dl".to_owned());
        return Err(
            ClientError::ValueIsInvalidOption("sugar_unit_key".to_owned(), unit.to_owned(), options),
        );
    };
    let sugar_value = get_req_form_r32_gt0(sugar, "sugar_value")?;
    proof {
        crate::numerism::lemma_spec_parse_decimal_wf(sugar->Some_0@, sugar_value);
    }
    let sugar_mmol_per_l = if mg_per_dl {
        match crate::derived::mg_per_dl_to_mmol_per_l(&sugar_value) {
            Some(v) => v,
            None => {
                return Err(
                    ClientError::RationalValueOutOfRange("sugar_value".to_owned(), sugar_value),
                );
            },
        }
    } else {
        sugar_value
    };
    Ok(BloodSugarMeasurement { id: SENTINEL_ID, timestamp, sugar_mmol_per_l })
}

} // verus!
