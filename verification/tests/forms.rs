use beepee::forms::{
    get_form_i32_gt0, get_form_i64, get_form_r32, get_form_r32_gt0, get_measurement_from_form,
    get_mass_measurement_from_form, get_req_form_i32_gt0, get_req_form_i64, get_req_form_r32,
    get_req_form_r32_gt0, get_sugar_measurement_from_form, get_temperature_measurement_from_form,
    ClientError,
};
use beepee::fraction::Fraction;
use beepee::model::SENTINEL_ID;
use beepee::numerism::IntParseError;

#[test]
fn optional_int_field() {
    assert_eq!(get_form_i32_gt0(Some("42"), "k"), Ok(Some(42)));
    assert_eq!(get_form_i32_gt0(Some("0"), "k"), Ok(Some(0)));
    assert_eq!(get_form_i32_gt0(Some(""), "k"), Ok(None));
    assert_eq!(get_form_i32_gt0(None, "k"), Ok(None));
    assert_eq!(
        get_form_i32_gt0(Some("-1"), "k"),
        Err(ClientError::IntValueZeroOrLess("k".to_owned(), -1))
    );
    assert_eq!(
        get_form_i32_gt0(Some("4x"), "k"),
        Err(ClientError::FailedToParseIntValue(
            "k".to_owned(),
            "4x".to_owned(),
            IntParseError::InvalidCharacter
        ))
    );
}

#[test]
fn required_int_field() {
    assert_eq!(get_req_form_i32_gt0(Some("7"), "k"), Ok(7));
    assert_eq!(
        get_req_form_i32_gt0(None, "k"),
        Err(ClientError::MissingValue("k".to_owned()))
    );
    assert_eq!(
        get_req_form_i32_gt0(Some(""), "k"),
        Err(ClientError::MissingValue("k".to_owned()))
    );
}

#[test]
fn long_int_field() {
    assert_eq!(get_form_i64(Some("123456789012"), "k"), Ok(Some(123456789012)));
    assert_eq!(get_form_i64(Some("-5"), "k"), Ok(Some(-5)));
    assert_eq!(get_form_i64(None, "k"), Ok(None));
    assert_eq!(get_req_form_i64(Some("9"), "k"), Ok(9));
    assert_eq!(
        get_req_form_i64(None, "k"),
        Err(ClientError::MissingValue("k".to_owned()))
    );
}

#[test]
fn decimal_fields() {
    assert_eq!(get_form_r32(Some("1.20"), "k"), Ok(Some(Fraction::new(6, 5))));
    assert_eq!(get_form_r32(Some("-4.2"), "k"), Ok(Some(Fraction::new(-21, 5))));
    assert_eq!(get_form_r32(None, "k"), Ok(None));
    assert!(matches!(
        get_form_r32(Some("12a"), "k"),
        Err(ClientError::FailedToParseRationalValue(_, _, _))
    ));
    assert_eq!(
        get_form_r32_gt0(Some("-4.2"), "k"),
        Err(ClientError::RationalValueZeroOrLess(
            "k".to_owned(),
            Fraction::new(-21, 5)
        ))
    );
    assert_eq!(get_req_form_r32(Some("0.5"), "k"), Ok(Fraction::new(1, 2)));
    assert_eq!(
        get_req_form_r32_gt0(None, "k"),
        Err(ClientError::MissingValue("k".to_owned()))
    );
}

#[test]
fn blood_pressure_form() {
    let m = get_measurement_from_form(Some("120"), Some("80"), Some("60"), Some("97"), 99).unwrap();
    assert_eq!(m.id, SENTINEL_ID);
    assert_eq!(m.timestamp, 99);
    assert_eq!(m.systolic_mmhg, 120);
    assert_eq!(m.diastolic_mmhg, 80);
    assert_eq!(m.pulse_bpm, 60);
    assert_eq!(m.spo2_percent, Some(97));

    let no_spo2 = get_measurement_from_form(Some("120"), Some("80"), Some("60"), None, 99).unwrap();
    assert_eq!(no_spo2.spo2_percent, None);

    assert_eq!(
        get_measurement_from_form(Some("120"), Some("80"), Some("60"), Some("101"), 99),
        Err(ClientError::IntValueTooHigh("spo2_percent".to_owned(), 101, 100))
    );
    assert_eq!(
        get_measurement_from_form(None, Some("80"), Some("60"), None, 99),
        Err(ClientError::MissingValue("systolic_mmhg".to_owned()))
    );
}

#[test]
fn mass_form_derives_bmi() {
    let m = get_mass_measurement_from_form(Some("70"), None, Some(175), 5).unwrap();
    assert_eq!(m.mass_kg, Fraction::new(70, 1));
    assert_eq!(m.bmi, Some(Fraction::new(1120, 49)));
    assert_eq!(m.waist_circum_cm, None);

    let no_height = get_mass_measurement_from_form(Some("70"), Some("90.5"), None, 5).unwrap();
    assert_eq!(no_height.bmi, None);
    assert_eq!(no_height.waist_circum_cm, Some(Fraction::new(181, 2)));
}

#[test]
fn temperature_form_rejects_below_absolute_zero() {
    let m = get_temperature_measurement_from_form(Some("3"), Some("36.5"), 5).unwrap();
    assert_eq!(m.location_id, 3);
    assert_eq!(m.temperature_celsius, Fraction::new(73, 2));

    assert_eq!(
        get_temperature_measurement_from_form(Some("3"), Some("-280"), 5),
        Err(ClientError::RationalValueTooLow(
            "temperature_celsius".to_owned(),
            Fraction::new(-280, 1),
            Fraction::new(-27315, 100)
        ))
    );
}

#[test]
fn sugar_form_converts_units() {
    let canonical = get_sugar_measurement_from_form(Some("mmol-per-l"), Some("5.5"), 5).unwrap();
    assert_eq!(canonical.sugar_mmol_per_l, Fraction::new(11, 2));

    let converted = get_sugar_measurement_from_form(Some("mg-per-dl"), Some("180"), 5).unwrap();
    assert_eq!(converted.sugar_mmol_per_l, Fraction::new(10, 1));

    match get_sugar_measurement_from_form(Some("mg-per-l"), Some("180"), 5) {
        Err(ClientError::ValueIsInvalidOption(key, value, options)) => {
            assert_eq!(key, "sugar_unit_key");
            assert_eq!(value, "mg-per-l");
            assert_eq!(options, vec!["mmol-per-l".to_owned(), "mg-per-dl".to_owned()]);
        },
        other => panic!("unexpected result: {:?}", other),
    }

    assert_eq!(
        get_sugar_measurement_from_form(Some("mg-per-dl"), Some("0.000000001"), 5),
        Err(ClientError::RationalValueOutOfRange(
            "sugar_value".to_owned(),
            Fraction::new(1, 1_000_000_000)
        ))
    );
}
