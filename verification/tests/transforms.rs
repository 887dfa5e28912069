use beepee::derived::{
    bmi, dcct_percent_to_mmol_per_mol, mg_per_dl_to_mmol_per_l, mmol_per_l_to_mg_per_dl,
    mmol_per_mol_to_dcct_percent,
};
use beepee::fraction::Fraction;

#[test]
fn blood_sugar_unit_conversion_is_exact() {
    let mg = Fraction::from_i32(180);
    let mmol = mg_per_dl_to_mmol_per_l(&mg).unwrap();
    assert_eq!(mmol, Fraction::from_i32(10));
    let back = mmol_per_l_to_mg_per_dl(&mmol).unwrap();
    assert_eq!(back, Fraction::from_i32(180));
}

#[test]
fn blood_sugar_conversion_keeps_fractions() {
    // 99 mg/dL = 11/2 mmol/L
    let mg = Fraction::from_i32(99);
    let mmol = mg_per_dl_to_mmol_per_l(&mg).unwrap();
    assert_eq!(mmol, Fraction::new(11, 2));
}

#[test]
fn blood_sugar_conversion_reports_overflow() {
    // 1/10^9 mg/dL would need a denominator of eighteen billion
    let tiny = Fraction::new(1, 1_000_000_000);
    assert_eq!(mg_per_dl_to_mmol_per_l(&tiny), None);
}

#[test]
fn bmi_is_the_exact_fraction() {
    let mass = Fraction::from_i32(70);
    // 70 / (175/100)^2 = 70 / (49/16) = 1120/49
    assert_eq!(bmi(&mass, Some(175)), Some(Fraction::new(1120, 49)));
}

#[test]
fn bmi_absent_without_height() {
    let mass = Fraction::from_i32(70);
    assert_eq!(bmi(&mass, None), None);
    assert_eq!(bmi(&mass, Some(0)), None);
}

#[test]
fn hba1c_transform_values() {
    // 7% DCCT: (7 - 214/100) * 10929/1000 = (243/50) * (10929/1000)
    let seven = Fraction::from_i32(7);
    let mmol = dcct_percent_to_mmol_per_mol(&seven).unwrap();
    assert_eq!(mmol, Fraction::new(2655747, 50000));
}

#[test]
fn hba1c_transform_is_exact_inverse() {
    for pct in [5, 6, 7, 8, 9, 12] {
        let x = Fraction::from_i32(pct);
        let y = dcct_percent_to_mmol_per_mol(&x).unwrap();
        let z = mmol_per_mol_to_dcct_percent(&y).unwrap();
        assert_eq!(z, x);
    }
    let x = Fraction::new(65, 10);
    let y = dcct_percent_to_mmol_per_mol(&x).unwrap();
    let z = mmol_per_mol_to_dcct_percent(&y).unwrap();
    assert_eq!(z, x);
}
