use beepee::aggregate::{
    aggregate_average, aggregate_extrema, aggregate_quasi_n_tile, aggregate_statistics,
};
use beepee::fraction::Fraction;
use beepee::model::{
    BloodPressureMeasurement, BloodSugarMeasurement, BodyMassMeasurement,
    BodyTemperatureMeasurement, MeasurementOps, SENTINEL_ID,
};

fn bp(ts: i64, sys: i32, dia: i32, pulse: i32, spo2: Option<i32>) -> BloodPressureMeasurement {
    BloodPressureMeasurement::new(1, ts, sys, dia, pulse, spo2)
}

#[test]
fn empty_window_yields_no_statistics() {
    let empty: Vec<BloodPressureMeasurement> = Vec::new();
    assert!(aggregate_average(&empty).is_none());
    assert!(aggregate_quasi_n_tile(&empty, 1, 2).is_none());
    assert!(aggregate_extrema(&empty).is_none());
    assert!(aggregate_statistics(&empty).is_none());
}

#[test]
fn singleton_average_is_the_element() {
    let m = bp(10, 120, 80, 60, Some(97));
    let avg = aggregate_average(&[m]).unwrap();
    assert_eq!(avg.systolic_mmhg, 120);
    assert_eq!(avg.diastolic_mmhg, 80);
    assert_eq!(avg.pulse_bpm, 60);
    assert_eq!(avg.spo2_percent, Some(97));
    assert_eq!(avg.timestamp, 10);
    assert_eq!(avg.id, SENTINEL_ID);
}

#[test]
fn average_truncates_like_integer_division() {
    let ms = [bp(1, 120, 80, 60, None), bp(2, 125, 81, 61, None)];
    let avg = aggregate_average(&ms).unwrap();
    assert_eq!(avg.systolic_mmhg, 122);
    assert_eq!(avg.diastolic_mmhg, 80);
    assert_eq!(avg.pulse_bpm, 60);
    assert_eq!(avg.spo2_percent, None);
    // the timestamp of the first input element is carried over
    assert_eq!(avg.timestamp, 1);
}

#[test]
fn average_reports_overflow() {
    let ms = [bp(1, i32::MAX, 1, 1, None), bp(2, i32::MAX, 1, 1, None)];
    assert!(aggregate_average(&ms).is_none());
}

#[test]
fn spo2_averages_over_present_subset_only() {
    let ms = [
        bp(1, 120, 80, 60, Some(96)),
        bp(2, 120, 80, 60, None),
        bp(3, 120, 80, 60, Some(98)),
    ];
    let avg = aggregate_average(&ms).unwrap();
    assert_eq!(avg.spo2_percent, Some(97));
}

#[test]
fn quasi_median_of_odd_sorted_window() {
    let ms = [
        bp(1, 110, 70, 55, None),
        bp(2, 120, 80, 60, None),
        bp(3, 130, 90, 65, None),
    ];
    let q2 = aggregate_quasi_n_tile(&ms, 1, 2).unwrap();
    assert_eq!(q2.systolic_mmhg, 120);
    assert_eq!(q2.diastolic_mmhg, 80);
    assert_eq!(q2.pulse_bpm, 60);
}

#[test]
fn quasi_quartiles_sort_each_field_on_its_own() {
    // fields deliberately not aligned: each field is sorted separately
    let ms = [
        bp(1, 130, 70, 65, None),
        bp(2, 110, 90, 55, None),
        bp(3, 120, 80, 60, None),
    ];
    let q1 = aggregate_quasi_n_tile(&ms, 1, 4).unwrap();
    let q3 = aggregate_quasi_n_tile(&ms, 3, 4).unwrap();
    // index floor((3-1)*1/4) = 0 and floor((3-1)*3/4) = 1 of each sorted field
    assert_eq!(q1.systolic_mmhg, 110);
    assert_eq!(q1.diastolic_mmhg, 70);
    assert_eq!(q3.systolic_mmhg, 120);
    assert_eq!(q3.diastolic_mmhg, 80);
}

#[test]
fn spo2_quantile_uses_its_own_population() {
    let ms = [
        bp(1, 110, 70, 55, None),
        bp(2, 120, 80, 60, Some(96)),
        bp(3, 130, 90, 65, None),
    ];
    // the saturation population has a single member
    let q2 = aggregate_quasi_n_tile(&ms, 1, 2).unwrap();
    assert_eq!(q2.spo2_percent, Some(96));
    let none_at_all = [bp(1, 110, 70, 55, None)];
    let q = aggregate_quasi_n_tile(&none_at_all, 1, 2).unwrap();
    assert_eq!(q.spo2_percent, None);
}

#[test]
fn extrema_prefer_present_saturation() {
    let a = bp(1, 120, 80, 60, None);
    let b = bp(2, 110, 90, 65, Some(96));
    let mx = a.values_max(&b);
    let mn = a.values_min(&b);
    assert_eq!(mx.spo2_percent, Some(96));
    assert_eq!(mn.spo2_percent, Some(96));
    assert_eq!(mx.systolic_mmhg, 120);
    assert_eq!(mn.systolic_mmhg, 110);
    assert_eq!(mx.diastolic_mmhg, 90);
    assert_eq!(mn.diastolic_mmhg, 80);
    assert_eq!(mx.id, SENTINEL_ID);
}

#[test]
fn statistics_bundle_is_assembled() {
    let ms = [
        bp(1, 110, 70, 55, None),
        bp(2, 120, 80, 60, None),
        bp(3, 130, 90, 65, None),
        bp(4, 140, 95, 70, None),
    ];
    let st = aggregate_statistics(&ms).unwrap();
    assert_eq!(st.minimum.systolic_mmhg, 110);
    assert_eq!(st.maximum.systolic_mmhg, 140);
    assert_eq!(st.average.systolic_mmhg, 125);
    // indices floor(3*1/4)=0, floor(3*1/2)=1, floor(3*3/4)=2
    assert_eq!(st.quasi_q1.systolic_mmhg, 110);
    assert_eq!(st.quasi_q2.systolic_mmhg, 120);
    assert_eq!(st.quasi_q3.systolic_mmhg, 130);
}

#[test]
fn mass_statistics_use_exact_fractions() {
    let m1 = BodyMassMeasurement::new(1, 1, Fraction::new(141, 2), None, None);
    let m2 = BodyMassMeasurement::new(2, 2, Fraction::new(71, 1), Some(Fraction::new(90, 1)), None);
    let avg = aggregate_average(&[m1, m2]).unwrap();
    // (141/2 + 71) / 2 = (283/2) / 2 = 283/4
    assert_eq!(avg.mass_kg, Fraction::new(283, 4));
    // the waist average covers only the present subset
    assert_eq!(avg.waist_circum_cm, Some(Fraction::new(90, 1)));
    assert_eq!(avg.bmi, None);
}

#[test]
fn temperature_minimum_keeps_the_larger_temperature() {
    // the smaller-of-two-readings record carries the larger temperature;
    // kept deliberately, see the note at the definition
    let a = BodyTemperatureMeasurement::new(1, 1, 5, Fraction::new(365, 10));
    let b = BodyTemperatureMeasurement::new(2, 2, 5, Fraction::new(380, 10));
    let mn = a.values_min(&b);
    assert_eq!(mn.temperature_celsius, Fraction::new(38, 1));
    let mx = a.values_max(&b);
    assert_eq!(mx.temperature_celsius, Fraction::new(38, 1));
}

#[test]
fn sugar_average_is_exact() {
    let s1 = BloodSugarMeasurement::new(1, 1, Fraction::new(11, 2));
    let s2 = BloodSugarMeasurement::new(2, 2, Fraction::new(13, 2));
    let avg = aggregate_average(&[s1, s2]).unwrap();
    assert_eq!(avg.sugar_mmol_per_l, Fraction::new(6, 1));
}
