//! Derived medical quantities, computed with exact rational
//! arithmetic: body-mass index, blood-sugar unit conversion, and the
//! HbA1c transform between DCCT percent and mmol/mol.
//!
//! Every transform fails explicitly (`None`) instead of clamping or
//! wrapping when an intermediate value would leave the 32-bit range.

use vstd::prelude::*;
use crate::fraction::{
    Fraction, spec_add, spec_div, spec_make, spec_mul, spec_sub,
};

verus! {

/// Milligrams per deciliter in one millimole per liter of blood
/// sugar.
pub const SUGAR_MG_PER_DL_IN_MMOL_PER_L: i32 = 18;

/// Numerator of the additive HbA1c constant (2.14 DCCT percent).
pub const HBA1C_ADDITIVE_NUMER: i32 = 214;

/// Denominator of the additive HbA1c constant.
pub const HBA1C_ADDITIVE_DENOM: i32 = 100;

/// Numerator of the multiplicative HbA1c constant (10.929).
pub const HBA1C_MULTIPLICATIVE_NUMER: i32 = 10_929;

/// Denominator of the multiplicative HbA1c constant.
pub const HBA1C_MULTIPLICATIVE_DENOM: i32 = 1_000;

/// The additive HbA1c constant as a canonical fraction.
pub open spec fn hba1c_offset() -> Option<Fraction> {
    spec_make(214, 100)
}

/// The multiplicative HbA1c constant as a canonical fraction.
pub open spec fn hba1c_scale() -> Option<Fraction> {
    spec_make(10_929, 1_000)
}

/// Blood sugar mg/dL to the canonical unit mmol/L: division by 18.
pub open spec fn spec_mg_per_dl_to_mmol_per_l(v: Fraction) -> Option<Fraction> {
    spec_make(v.num(), v.den() * 18)
}

/// Blood sugar mmol/L to mg/dL for display: multiplication by 18.
pub open spec fn spec_mmol_per_l_to_mg_per_dl(v: Fraction) -> Option<Fraction> {
    spec_make(v.num() * 18, v.den())
}

/// The body-mass index `mass_kg / (height_cm / 100)^2`, when every
/// intermediate fits; `None` also for a zero height.
pub open spec fn spec_bmi(mass_kg: Fraction, height_cm: int) -> Option<Fraction> {
    match spec_make(height_cm, 100) {
        Some(hm) => match spec_mul(hm, hm) {
            Some(sq) => spec_div(mass_kg, sq),
            None => None,
        },
        None => None,
    }
}

/// DCCT percent to mmol/mol: `(x - 2.14) * 10.929`.
pub open spec fn spec_dcct_percent_to_mmol_per_mol(x: Fraction) -> Option<Fraction> {
    match (hba1c_offset(), hba1c_scale()) {
        (Some(off), Some(sc)) => match spec_sub(x, off) {
            Some(a) => spec_mul(a, sc),
            None => None,
        },
        _ => None,
    }
}

/// mmol/mol to DCCT percent: `(x / 10.929) + 2.14`.
pub open spec fn spec_mmol_per_mol_to_dcct_percent(x: Fraction) -> Option<Fraction> {
    match (hba1c_offset(), hba1c_scale()) {
        (Some(off), Some(sc)) => match spec_div(x, sc) {
            Some(q) => spec_add(q, off),
            None => None,
        },
        _ => None,
    }
}

/// Adding a constant back after subtracting it leaves the rational
/// value unchanged, expressed over cross products.
proof fn lemma_add_offset_cancels(
    zn: int,
    zd: int,
    qn: int,
    qd: int,
    on: int,
    od: int,
    xn: int,
    xd: int,
)
    requires
        zn * (qd * od) == (qn * od + on * qd) * zd,
        qn * (xd * od) == (xn * od - on * xd) * qd,
        qd > 0,
        od > 0,
    ensures
        zn * xd == xn * zd,
{
    broadcast use vstd::arithmetic::mul::group_mul_properties;
    // multiply the first equation by xd, the second by zd
    assert((zn * (qd * od)) * xd == ((qn * od + on * qd) * zd) * xd);
    assert((qn * (xd * od)) * zd == ((xn * od - on * xd) * qd) * zd);
    // regrouping identities
    assert(zn * xd * (qd * od) == (zn * (qd * od)) * xd) by (nonlinear_arith);
    assert(((qn * od + on * qd) * zd) * xd == (qn * od) * (zd * xd) + (on * qd) * (zd * xd));
    assert((qn * od) * (zd * xd) == (qn * (xd * od)) * zd) by (nonlinear_arith);
    assert((on * qd) * (zd * xd) == (on * xd) * (qd * zd)) by (nonlinear_arith);
    assert(((xn * od - on * xd) * qd) * zd == (xn * od) * (qd * zd) - (on * xd) * (qd * zd));
    assert((xn * od) * (qd * zd) == xn * zd * (qd * od)) by (nonlinear_arith);
    assert(zn * xd * (qd * od) == xn * zd * (qd * od));
    assert(zn * xd == xn * zd) by (nonlinear_arith)
        requires
            zn * xd * (qd * od) == xn * zd * (qd * od),
            qd > 0,
            od > 0,
    ;
}

/// The HbA1c transform is an exact inverse: transforming a DCCT
/// percentage to mmol/mol and back yields the identical canonical
/// fraction, whenever both directions stay in range.
#[verifier::rlimit(100)]
pub proof fn lemma_hba1c_exact_inverse(x: Fraction, y: Fraction, z: Fraction)
    requires
        x.wf(),
        spec_dcct_percent_to_mmol_per_mol(x) == Some(y),
        spec_mmol_per_mol_to_dcct_percent(y) == Some(z),
    ensures
        z == x,
{
    crate::fraction::lemma_spec_make_fits(214, 100);
    crate::fraction::lemma_spec_make(214, 100);
    crate::fraction::lemma_spec_make_fits(10_929, 1_000);
    crate::fraction::lemma_spec_make(10_929, 1_000);
    let off = hba1c_offset()->Some_0;
    let sc = hba1c_scale()->Some_0;
    assert(sc.num() != 0) by (nonlinear_arith)
        requires
            sc.num() * 1000 == 10929 * sc.den(),
            sc.den() > 0,
    ;
    let ns = x.num() * off.den() - off.num() * x.den();
    let ds = x.den() * off.den();
    assert(ds > 0) by (nonlinear_arith)
        requires
            ds == x.den() * off.den(),
            x.den() > 0,
            off.den() > 0,
    ;
    crate::fraction::lemma_spec_make(ns, ds);
    let a = spec_sub(x, off)->Some_0;
    assert(a.den() * sc.den() != 0) by (nonlinear_arith)
        requires
            a.den() > 0,
            sc.den() > 0,
    ;
    crate::fraction::lemma_spec_make(a.num() * sc.num(), a.den() * sc.den());
    assert(y.den() * sc.num() != 0) by (nonlinear_arith)
        requires
            y.den() > 0,
            sc.num() != 0,
    ;
    crate::fraction::lemma_spec_make(y.num() * sc.den(), y.den() * sc.num());
    let q = spec_div(y, sc)->Some_0;
    assert(q.den() * off.den() != 0) by (nonlinear_arith)
        requires
            q.den() > 0,
            off.den() > 0,
    ;
    crate::fraction::lemma_spec_make(q.num() * off.den() + off.num() * q.den(), q.den() * off.den());
    // dividing the product by the same scale gives back the difference
    assert(q.num() * a.den() == a.num() * q.den()) by (nonlinear_arith)
        requires
            y.num() * (a.den() * sc.den()) == (a.num() * sc.num()) * y.den(),
            q.num() * (y.den() * sc.num()) == (y.num() * sc.den()) * q.den(),
            y.den() > 0,
            sc.den() > 0,
            sc.num() != 0,
            a.den() > 0,
            q.den() > 0,
    ;
    // so the quotient still denotes `x` minus the offset
    assert(q.num() * (x.den() * off.den()) == (x.num() * off.den() - off.num() * x.den())
        * q.den()) by (nonlinear_arith)
        requires
            a.num() * (x.den() * off.den()) == (x.num() * off.den() - off.num() * x.den())
                * a.den(),
            q.num() * a.den() == a.num() * q.den(),
            a.den() > 0,
    ;
    // adding the offset back cancels exactly
    lemma_add_offset_cancels(
        z.num(),
        z.den(),
        q.num(),
        q.den(),
        off.num(),
        off.den(),
        x.num(),
        x.den(),
    );
    crate::fraction::lemma_rat_eq_wf_unique(z, x);
}

/// Converts a blood-sugar concentration from mg/dL to the canonical
/// storage unit mmol/L.
pub fn mg_per_dl_to_mmol_per_l(v: &Fraction) -> (r: Option<Fraction>)
    requires
        v.wf(),
    ensures
        r == spec_mg_per_dl_to_mmol_per_l(*v),
        r matches Some(f) ==> f.wf(),
{
    let eighteen = Fraction::from_i32(SUGAR_MG_PER_DL_IN_MMOL_PER_L);
    let r = v.checked_div(&eighteen);
    proof {
        assert(v.num() * eighteen.den() == v.num());
        assert(v.den() * eighteen.num() == v.den() * 18);
    }
    r
}

/// Converts a blood-sugar concentration from mmol/L to mg/dL for
/// display.
pub fn mmol_per_l_to_mg_per_dl(v: &Fraction) -> (r: Option<Fraction>)
    requires
        v.wf(),
    ensures
        r == spec_mmol_per_l_to_mg_per_dl(*v),
        r matches Some(f) ==> f.wf(),
{
    let eighteen = Fraction::from_i32(SUGAR_MG_PER_DL_IN_MMOL_PER_L);
    let r = v.checked_mul(&eighteen);
    proof {
        assert(v.num() * eighteen.num() == v.num() * 18);
        assert(v.den() * eighteen.den() == v.den());
    }
    r
}

/// The body-mass index from a mass in kilograms and a configured
/// height in centimeters; absent when no height is configured, and
/// `None` also when the height is zero or an intermediate overflows.
pub fn bmi(mass_kg: &Fraction, height_cm: Option<i32>) -> (r: Option<Fraction>)
    requires
        mass_kg.wf(),
    ensures
        r == match height_cm {
            Some(h) => spec_bmi(*mass_kg, h as int),
            None => None::<Fraction>,
        },
        r matches Some(f) ==> f.wf(),
{
    let h = match height_cm {
        Some(h) => h,
        None => {
            return None;
        },
    };
    let height_m = Fraction::new(h, 100);
    let square = match height_m.checked_mul(&height_m) {
        Some(sq) => sq,
        None => {
            return None;
        },
    };
    mass_kg.checked_div(&square)
}

/// Transforms a long-term blood sugar value from DCCT percent to
/// mmol/mol.
pub fn dcct_percent_to_mmol_per_mol(x: &Fraction) -> (r: Option<Fraction>)
    requires
        x.wf(),
    ensures
        r == spec_dcct_percent_to_mmol_per_mol(*x),
        r matches Some(f) ==> f.wf(),
{
    let off = Fraction::new(HBA1C_ADDITIVE_NUMER, HBA1C_ADDITIVE_DENOM);
    let sc = Fraction::new(HBA1C_MULTIPLICATIVE_NUMER, HBA1C_MULTIPLICATIVE_DENOM);
    let a = match x.checked_sub(&off) {
        Some(a) => a,
        None => {
            return None;
        },
    };
    a.checked_mul(&sc)
}

/// Transforms a long-term blood sugar value from mmol/mol to DCCT
/// percent.
pub fn mmol_per_mol_to_dcct_percent(x: &Fraction) -> (r: Option<Fraction>)
    requires
        x.wf(),
    ensures
        r == spec_mmol_per_mol_to_dcct_percent(*x),
        r matches Some(f) ==> f.wf(),
{
    let off = Fraction::new(HBA1C_ADDITIVE_NUMER, HBA1C_ADDITIVE_DENOM);
    let sc = Fraction::new(HBA1C_MULTIPLICATIVE_NUMER, HBA1C_MULTIPLICATIVE_DENOM);
    let q = match x.checked_div(&sc) {
        Some(q) => q,
        None => {
            return None;
        },
    };
    q.checked_add(&off)
}

} // verus!
