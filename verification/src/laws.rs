//! Properties of the aggregations, stated and proved once for every
//! input: extrema order their fields, a present optional reading
//! always beats an absent one, a one-element average is the element
//! itself, and the quasi-median of sorted readings is the exact
//! middle one.

use vstd::prelude::*;
use vstd::relations::sorted_by;
use crate::fraction::{Fraction, rat_le};
use crate::model::{
    BloodPressureMeasurement, BloodSugarMeasurement, BodyMassMeasurement,
    BodyTemperatureMeasurement, LongTermBloodSugarMeasurement, MeasurementOps, bp_dia_seq,
    bp_pulse_seq, bp_spo2_opt_seq, bp_spo2_seq, bp_sys_seq, hba1c_seq, mass_bmi_opt_seq,
    mass_bmi_seq, mass_kg_seq, mass_waist_opt_seq, mass_waist_seq, sugar_seq, temp_seq,
};
use crate::stats::{
    int_le, lemma_avg_frac_singleton, lemma_avg_i32_singleton, lemma_select_middle_frac,
    lemma_select_middle_i32, present_values,
};

verus! {

/// The pairwise minimum of two blood pressure readings lies below the
/// pairwise maximum in every field, and a present oxygen saturation
/// always beats an absent one: when only one side carries a reading,
/// both extrema carry it.
pub proof fn lemma_blood_pressure_extrema(a: BloodPressureMeasurement, b: BloodPressureMeasurement)
    ensures
        ({
            let mn = BloodPressureMeasurement::spec_values_min(a, b);
            let mx = BloodPressureMeasurement::spec_values_max(a, b);
            &&& mn.systolic_mmhg <= mx.systolic_mmhg
            &&& mn.diastolic_mmhg <= mx.diastolic_mmhg
            &&& mn.pulse_bpm <= mx.pulse_bpm
            &&& mn.timestamp <= mx.timestamp
            &&& (match (a.spo2_percent, b.spo2_percent) {
                (None, None) => mn.spo2_percent is None && mx.spo2_percent is None,
                (Some(x), None) => mn.spo2_percent == Some(x) && mx.spo2_percent == Some(x),
                (None, Some(y)) => mn.spo2_percent == Some(y) && mx.spo2_percent == Some(y),
                (Some(x), Some(y)) => mn.spo2_percent matches Some(l) && mx.spo2_percent
                    matches Some(h) && l <= h,
            })
        }),
{
}

/// The pairwise minimum of two body mass readings lies below the
/// pairwise maximum in every field, with present optional readings
/// beating absent ones.
pub proof fn lemma_body_mass_extrema(a: BodyMassMeasurement, b: BodyMassMeasurement)
    ensures
        ({
            let mn = BodyMassMeasurement::spec_values_min(a, b);
            let mx = BodyMassMeasurement::spec_values_max(a, b);
            &&& rat_le(mn.mass_kg, mx.mass_kg)
            &&& mn.timestamp <= mx.timestamp
            &&& (match (a.waist_circum_cm, b.waist_circum_cm) {
                (None, None) => mn.waist_circum_cm is None && mx.waist_circum_cm is None,
                (Some(x), None) => mn.waist_circum_cm == Some(x) && mx.waist_circum_cm == Some(
                    x,
                ),
                (None, Some(y)) => mn.waist_circum_cm == Some(y) && mx.waist_circum_cm == Some(
                    y,
                ),
                (Some(x), Some(y)) => mn.waist_circum_cm matches Some(l) && mx.waist_circum_cm
                    matches Some(h) && rat_le(l, h),
            })
            &&& (match (a.bmi, b.bmi) {
                (None, None) => mn.bmi is None && mx.bmi is None,
                (Some(x), None) => mn.bmi == Some(x) && mx.bmi == Some(x),
                (None, Some(y)) => mn.bmi == Some(y) && mx.bmi == Some(y),
                (Some(x), Some(y)) => mn.bmi matches Some(l) && mx.bmi matches Some(h) && rat_le(
                    l,
                    h,
                ),
            })
        }),
{
}

/// The pairwise extrema of two temperature readings order the
/// timestamp; the temperature fields of the two extrema coincide,
/// so they order trivially.
pub proof fn lemma_body_temperature_extrema(
    a: BodyTemperatureMeasurement,
    b: BodyTemperatureMeasurement,
)
    ensures
        ({
            let mn = BodyTemperatureMeasurement::spec_values_min(a, b);
            let mx = BodyTemperatureMeasurement::spec_values_max(a, b);
            &&& rat_le(mn.temperature_celsius, mx.temperature_celsius)
            &&& mn.timestamp <= mx.timestamp
            &&& mn.location_id <= mx.location_id
        }),
{
}

/// The pairwise minimum of two blood sugar readings lies below the
/// pairwise maximum.
pub proof fn lemma_blood_sugar_extrema(a: BloodSugarMeasurement, b: BloodSugarMeasurement)
    ensures
        ({
            let mn = BloodSugarMeasurement::spec_values_min(a, b);
            let mx = BloodSugarMeasurement::spec_values_max(a, b);
            &&& rat_le(mn.sugar_mmol_per_l, mx.sugar_mmol_per_l)
            &&& mn.timestamp <= mx.timestamp
        }),
{
}

/// The pairwise minimum of two long-term blood sugar readings lies
/// below the pairwise maximum.
pub proof fn lemma_long_term_blood_sugar_extrema(
    a: LongTermBloodSugarMeasurement,
    b: LongTermBloodSugarMeasurement,
)
    ensures
        ({
            let mn = LongTermBloodSugarMeasurement::spec_values_min(a, b);
            let mx = LongTermBloodSugarMeasurement::spec_values_max(a, b);
            &&& rat_le(mn.hba1c_mmol_per_mol, mx.hba1c_mmol_per_mol)
            &&& mn.timestamp <= mx.timestamp
        }),
{
}

/// The average of a one-element blood pressure window is that
/// element, field for field.
pub proof fn lemma_blood_pressure_average_singleton(m: BloodPressureMeasurement)
    ensures
        BloodPressureMeasurement::spec_average(seq![m]) matches Some(r) && r.systolic_mmhg
            == m.systolic_mmhg && r.diastolic_mmhg == m.diastolic_mmhg && r.pulse_bpm
            == m.pulse_bpm && r.spo2_percent == m.spo2_percent && r.timestamp == m.timestamp,
{
    let s = seq![m];
    reveal_with_fuel(present_values, 3);
    assert(bp_sys_seq(s) =~= seq![m.systolic_mmhg]);
    assert(bp_dia_seq(s) =~= seq![m.diastolic_mmhg]);
    assert(bp_pulse_seq(s) =~= seq![m.pulse_bpm]);
    assert(bp_spo2_opt_seq(s) =~= seq![m.spo2_percent]);
    lemma_avg_i32_singleton(m.systolic_mmhg);
    lemma_avg_i32_singleton(m.diastolic_mmhg);
    lemma_avg_i32_singleton(m.pulse_bpm);
    assert(seq![m.spo2_percent].drop_last() =~= Seq::<Option<i32>>::empty());
    match m.spo2_percent {
        Some(v) => {
            assert(bp_spo2_seq(s) =~= seq![v]);
            lemma_avg_i32_singleton(v);
        },
        None => {
            assert(bp_spo2_seq(s) =~= Seq::<i32>::empty());
        },
    }
}

/// The average of a one-element body mass window is that element,
/// field for field.
pub proof fn lemma_body_mass_average_singleton(m: BodyMassMeasurement)
    requires
        m.valid(),
    ensures
        BodyMassMeasurement::spec_average(seq![m]) matches Some(r) && r.mass_kg == m.mass_kg
            && r.waist_circum_cm == m.waist_circum_cm && r.bmi == m.bmi && r.timestamp
            == m.timestamp,
{
    let s = seq![m];
    reveal_with_fuel(present_values, 3);
    assert(mass_kg_seq(s) =~= seq![m.mass_kg]);
    assert(mass_waist_opt_seq(s) =~= seq![m.waist_circum_cm]);
    assert(mass_bmi_opt_seq(s) =~= seq![m.bmi]);
    lemma_avg_frac_singleton(m.mass_kg);
    assert(seq![m.waist_circum_cm].drop_last() =~= Seq::<Option<Fraction>>::empty());
    assert(seq![m.bmi].drop_last() =~= Seq::<Option<Fraction>>::empty());
    match m.waist_circum_cm {
        Some(v) => {
            assert(mass_waist_seq(s) =~= seq![v]);
            lemma_avg_frac_singleton(v);
        },
        None => {
            assert(mass_waist_seq(s) =~= Seq::<Fraction>::empty());
        },
    }
    match m.bmi {
        Some(v) => {
            assert(mass_bmi_seq(s) =~= seq![v]);
            lemma_avg_frac_singleton(v);
        },
        None => {
            assert(mass_bmi_seq(s) =~= Seq::<Fraction>::empty());
        },
    }
}

/// The average of a one-element temperature window is that element,
/// field for field.
pub proof fn lemma_body_temperature_average_singleton(m: BodyTemperatureMeasurement)
    requires
        m.valid(),
    ensures
        BodyTemperatureMeasurement::spec_average(seq![m]) matches Some(r)
            && r.temperature_celsius == m.temperature_celsius && r.location_id == m.location_id
            && r.timestamp == m.timestamp,
{
    let s = seq![m];
    assert(temp_seq(s) =~= seq![m.temperature_celsius]);
    lemma_avg_frac_singleton(m.temperature_celsius);
}

/// The average of a one-element blood sugar window is that element,
/// field for field.
pub proof fn lemma_blood_sugar_average_singleton(m: BloodSugarMeasurement)
    requires
        m.valid(),
    ensures
        BloodSugarMeasurement::spec_average(seq![m]) matches Some(r) && r.sugar_mmol_per_l
            == m.sugar_mmol_per_l && r.timestamp == m.timestamp,
{
    let s = seq![m];
    assert(sugar_seq(s) =~= seq![m.sugar_mmol_per_l]);
    lemma_avg_frac_singleton(m.sugar_mmol_per_l);
}

/// The average of a one-element long-term blood sugar window is that
/// element, field for field.
pub proof fn lemma_long_term_blood_sugar_average_singleton(m: LongTermBloodSugarMeasurement)
    requires
        m.valid(),
    ensures
        LongTermBloodSugarMeasurement::spec_average(seq![m]) matches Some(r)
            && r.hba1c_mmol_per_mol == m.hba1c_mmol_per_mol && r.timestamp == m.timestamp,
{
    let s = seq![m];
    assert(hba1c_seq(s) =~= seq![m.hba1c_mmol_per_mol]);
    lemma_avg_frac_singleton(m.hba1c_mmol_per_mol);
}

/// On an odd number of blood pressure readings already sorted by
/// systolic pressure, the quasi-median carries the exact middle
/// systolic value.
pub proof fn lemma_blood_pressure_quasi_median(s: Seq<BloodPressureMeasurement>)
    requires
        s.len() % 2 == 1,
        sorted_by(bp_sys_seq(s), int_le()),
    ensures
        BloodPressureMeasurement::spec_quasi_n_tile(s, 1, 2).systolic_mmhg == bp_sys_seq(s)[(
        s.len() - 1) as int / 2],
{
    lemma_select_middle_i32(bp_sys_seq(s));
}

/// The saturation quasi-median is drawn from the presence-filtered
/// saturation population alone: on an odd number of present readings,
/// already sorted, it is their exact middle value.
pub proof fn lemma_blood_pressure_spo2_quasi_median(s: Seq<BloodPressureMeasurement>)
    requires
        s.len() > 0,
        bp_spo2_seq(s).len() % 2 == 1,
        sorted_by(bp_spo2_seq(s), int_le()),
    ensures
        BloodPressureMeasurement::spec_quasi_n_tile(s, 1, 2).spo2_percent == Some(
            bp_spo2_seq(s)[(bp_spo2_seq(s).len() - 1) as int / 2],
        ),
{
    lemma_select_middle_i32(bp_spo2_seq(s));
}

/// On an odd number of body mass readings already sorted by mass, the
/// quasi-median carries the exact middle mass.
pub proof fn lemma_body_mass_quasi_median(s: Seq<BodyMassMeasurement>)
    requires
        s.len() % 2 == 1,
        sorted_by(mass_kg_seq(s), crate::fraction::frac_order()),
    ensures
        BodyMassMeasurement::spec_quasi_n_tile(s, 1, 2).mass_kg == mass_kg_seq(s)[(s.len() - 1)
            as int / 2],
{
    lemma_select_middle_frac(mass_kg_seq(s));
}

/// On an odd number of temperature readings already sorted by
/// temperature, the quasi-median carries the exact middle
/// temperature.
pub proof fn lemma_body_temperature_quasi_median(s: Seq<BodyTemperatureMeasurement>)
    requires
        s.len() % 2 == 1,
        sorted_by(temp_seq(s), crate::fraction::frac_order()),
    ensures
        BodyTemperatureMeasurement::spec_quasi_n_tile(s, 1, 2).temperature_celsius == temp_seq(
            s,
        )[(s.len() - 1) as int / 2],
{
    lemma_select_middle_frac(temp_seq(s));
}

/// On an odd number of blood sugar readings already sorted by
/// concentration, the quasi-median carries the exact middle
/// concentration.
pub proof fn lemma_blood_sugar_quasi_median(s: Seq<BloodSugarMeasurement>)
    requires
        s.len() % 2 == 1,
        sorted_by(sugar_seq(s), crate::fraction::frac_order()),
    ensures
        BloodSugarMeasurement::spec_quasi_n_tile(s, 1, 2).sugar_mmol_per_l == sugar_seq(s)[(
        s.len() - 1) as int / 2],
{
    lemma_select_middle_frac(sugar_seq(s));
}

/// On an odd number of long-term blood sugar readings already sorted
/// by value, the quasi-median carries the exact middle value.
pub proof fn lemma_long_term_blood_sugar_quasi_median(s: Seq<LongTermBloodSugarMeasurement>)
    requires
        s.len() % 2 == 1,
        sorted_by(hba1c_seq(s), crate::fraction::frac_order()),
    ensures
        LongTermBloodSugarMeasurement::spec_quasi_n_tile(s, 1, 2).hba1c_mmol_per_mol == hba1c_seq(
            s,
        )[(s.len() - 1) as int / 2],
{
    lemma_select_middle_frac(hba1c_seq(s));
}


/// At the configured height of 175 cm, the body-mass index divides
/// the mass by exactly (175/100)^2 = (7/4)^2 = 49/16, for every mass.
pub proof fn lemma_bmi_at_175(mass: Fraction)
    requires
        mass.wf(),
    ensures
        crate::derived::spec_bmi(mass, 175) == crate::fraction::spec_make(
            mass.num() * 16,
            mass.den() * 49,
        ),
{
    crate::fraction::lemma_spec_make_fits(175, 100);
    crate::fraction::lemma_spec_make(175, 100);
    assert(vstd::math::abs(175) == 175nat && vstd::math::abs(100) == 100nat);
    assert(crate::arith::gcd(175, 100) == 25) by {
        reveal_with_fuel(crate::arith::gcd, 6);
    }
    assert(175int / 25int == 7 && 100int / 25int == 4);
    assert(crate::fraction::canon_num(175, 100) == 7);
    assert(crate::fraction::canon_den(175, 100) == 4);
    let hm = crate::fraction::spec_make(175, 100)->Some_0;
    assert(hm.num() == 7 && hm.den() == 4);
    assert(crate::fraction::spec_mul(hm, hm) == crate::fraction::spec_make(49, 16));
    crate::fraction::lemma_spec_make_fits(49, 16);
    crate::fraction::lemma_spec_make(49, 16);
    assert(vstd::math::abs(49) == 49nat && vstd::math::abs(16) == 16nat);
    assert(crate::arith::gcd(49, 16) == 1) by {
        reveal_with_fuel(crate::arith::gcd, 6);
    }
    assert(crate::fraction::canon_num(49, 16) == 49);
    assert(crate::fraction::canon_den(49, 16) == 16);
    let sq = crate::fraction::spec_make(49, 16)->Some_0;
    assert(sq.num() == 49 && sq.den() == 16);
    assert(crate::derived::spec_bmi(mass, 175) == crate::fraction::spec_div(mass, sq));
}

/// A mass of exactly 70 kg at a height of 175 cm gives the exact
/// body-mass index 1120/49, held canonically as 160/7.
pub proof fn lemma_bmi_of_seventy(mass: Fraction)
    requires
        mass.num() == 70,
        mass.den() == 1,
    ensures
        crate::derived::spec_bmi(mass, 175) matches Some(b) && b.num() == 160 && b.den() == 7
            && crate::fraction::rat_eq_int(b.num(), b.den(), 1120, 49),
{
    assert(vstd::math::abs(70) == 70nat);
    assert(crate::arith::gcd(70, 1) == 1) by {
        reveal_with_fuel(crate::arith::gcd, 4);
    }
    assert(mass.wf());
    lemma_bmi_at_175(mass);
    crate::fraction::lemma_spec_make_fits(1120, 49);
    crate::fraction::lemma_spec_make(1120, 49);
    assert(vstd::math::abs(1120) == 1120nat && vstd::math::abs(49) == 49nat);
    assert(crate::arith::gcd(1120, 49) == 7) by {
        reveal_with_fuel(crate::arith::gcd, 6);
    }
    assert(1120int / 7int == 160 && 49int / 7int == 7);
    assert(crate::fraction::canon_num(1120, 49) == 160);
    assert(crate::fraction::canon_den(1120, 49) == 7);
}

} // verus!
