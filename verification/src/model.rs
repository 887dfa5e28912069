//! The measurement record types and their shared capability set:
//! pairwise field maxima and minima, exact per-field averages, and
//! per-field quasi-quantiles.
//!
//! Each record carries an identity (`-1` for a value not yet
//! persisted) and a timestamp in milliseconds since the Unix epoch.
//! Synthetic records produced by the aggregations carry the sentinel
//! identity and the timestamp of the first input element.

use vstd::prelude::*;
use crate::fraction::Fraction;
use crate::stats::{
    avg_frac, avg_i32, lemma_present_values_len, optional_max, optional_max_frac, optional_min,
    optional_min_frac, present_values, select_frac, select_i32, sorted_select_frac,
    sorted_select_i32, spec_avg_frac, spec_avg_i32, spec_optional_max_frac,
    spec_optional_max_i32, spec_optional_min_frac, spec_optional_min_i32,
};

verus! {

/// The identity carried by synthetic (not persisted) records.
pub const SENTINEL_ID: i64 = -1;

/// The larger of two timestamps or identities; ties keep the second.
pub open spec fn spec_max_i64(a: i64, b: i64) -> i64 {
    if a <= b {
        b
    } else {
        a
    }
}

/// The smaller of two timestamps or identities; ties keep the first.
pub open spec fn spec_min_i64(a: i64, b: i64) -> i64 {
    if a <= b {
        a
    } else {
        b
    }
}

/// The larger of two scalar readings; ties keep the second.
pub open spec fn spec_max_i32(a: i32, b: i32) -> i32 {
    if a <= b {
        b
    } else {
        a
    }
}

/// The smaller of two scalar readings; ties keep the first.
pub open spec fn spec_min_i32(a: i32, b: i32) -> i32 {
    if a <= b {
        a
    } else {
        b
    }
}

/// The shared capability set of the measurement records: what the
/// aggregations need of each concrete record type.
pub trait MeasurementOps: Sized + Copy {
    /// Every fraction field is in canonical form.
    spec fn valid(self) -> bool;

    /// The field-by-field maximum of two records.
    spec fn spec_values_max(a: Self, b: Self) -> Self;

    /// The field-by-field minimum of two records.
    spec fn spec_values_min(a: Self, b: Self) -> Self;

    /// The field-by-field average, absent when an intermediate value
    /// cannot be represented.
    spec fn spec_average(s: Seq<Self>) -> Option<Self>;

    /// The field-by-field quasi-quantile.
    spec fn spec_quasi_n_tile(s: Seq<Self>, num: int, den: int) -> Self;

    /// Computes the field-by-field maximum of two records.
    fn values_max(&self, other: &Self) -> (r: Self)
        requires
            self.valid(),
            other.valid(),
        ensures
            r == Self::spec_values_max(*self, *other),
            r.valid(),
    ;

    /// Computes the field-by-field minimum of two records.
    fn values_min(&self, other: &Self) -> (r: Self)
        requires
            self.valid(),
            other.valid(),
        ensures
            r == Self::spec_values_min(*self, *other),
            r.valid(),
    ;

    /// Computes the field-by-field average of a non-empty window;
    /// `None` exactly when an intermediate value cannot be
    /// represented.
    fn average(measurements: &[Self]) -> (r: Option<Self>)
        requires
            measurements@.len() > 0,
            measurements@.len() <= i32::MAX,
            forall|k: int| 0 <= k < measurements@.len() ==> (#[trigger] measurements@[k]).valid(),
        ensures
            r == Self::spec_average(measurements@),
            r matches Some(m) ==> m.valid(),
    ;

    /// Computes the field-by-field quasi-quantile of a non-empty
    /// window.
    fn quasi_n_tile(measurements: &[Self], n_num: usize, n_den: usize) -> (r: Self)
        requires
            measurements@.len() > 0,
            n_den > 0,
            n_num <= n_den,
            ((measurements@.len() - 1) as int) * (n_num as int) <= usize::MAX as int,
            forall|k: int| 0 <= k < measurements@.len() ==> (#[trigger] measurements@[k]).valid(),
        ensures
            r == Self::spec_quasi_n_tile(measurements@, n_num as int, n_den as int),
            r.valid(),
    ;
}

/// A blood pressure reading: systolic and diastolic pressure in mmHg,
/// pulse in beats per minute, and an optional blood-oxygen saturation
/// percentage.
#[derive(Clone, Copy, Debug, PartialEq, Eq, Hash)]
pub struct BloodPressureMeasurement {
    pub id: i64,
    pub timestamp: i64,
    pub systolic_mmhg: i32,
    pub diastolic_mmhg: i32,
    pub pulse_bpm: i32,
    pub spo2_percent: Option<i32>,
}

/// The systolic readings of a window.
pub open spec fn bp_sys_seq(s: Seq<BloodPressureMeasurement>) -> Seq<i32> {
    s.map_values(|m: BloodPressureMeasurement| m.systolic_mmhg)
}

/// The diastolic readings of a window.
pub open spec fn bp_dia_seq(s: Seq<BloodPressureMeasurement>) -> Seq<i32> {
    s.map_values(|m: BloodPressureMeasurement| m.diastolic_mmhg)
}

/// The pulse readings of a window.
pub open spec fn bp_pulse_seq(s: Seq<BloodPressureMeasurement>) -> Seq<i32> {
    s.map_values(|m: BloodPressureMeasurement| m.pulse_bpm)
}

/// The blood-oxygen fields of a window, present or not.
pub open spec fn bp_spo2_opt_seq(s: Seq<BloodPressureMeasurement>) -> Seq<Option<i32>> {
    s.map_values(|m: BloodPressureMeasurement| m.spo2_percent)
}

/// The present blood-oxygen readings of a window, in order.
pub open spec fn bp_spo2_seq(s: Seq<BloodPressureMeasurement>) -> Seq<i32> {
    present_values(bp_spo2_opt_seq(s))
}

impl BloodPressureMeasurement {
    /// Assembles a blood pressure measurement.
    pub fn new(
        id: i64,
        timestamp: i64,
        systolic_mmhg: i32,
        diastolic_mmhg: i32,
        pulse_bpm: i32,
        spo2_percent: Option<i32>,
    ) -> (r: Self)
        ensures
            r == (BloodPressureMeasurement {
                id,
                timestamp,
                systolic_mmhg,
                diastolic_mmhg,
                pulse_bpm,
                spo2_percent,
            }),
    {
        BloodPressureMeasurement {
            id,
            timestamp,
            systolic_mmhg,
            diastolic_mmhg,
            pulse_bpm,
            spo2_percent,
        }
    }
}

impl MeasurementOps for BloodPressureMeasurement {
    open spec fn valid(self) -> bool {
        true
    }

    open spec fn spec_values_max(a: Self, b: Self) -> Self {
        BloodPressureMeasurement {
            id: SENTINEL_ID as i64,
            timestamp: spec_max_i64(a.timestamp, b.timestamp),
            systolic_mmhg: spec_max_i32(a.systolic_mmhg, b.systolic_mmhg),
            diastolic_mmhg: spec_max_i32(a.diastolic_mmhg, b.diastolic_mmhg),
            pulse_bpm: spec_max_i32(a.pulse_bpm, b.pulse_bpm),
            spo2_percent: spec_optional_max_i32(a.spo2_percent, b.spo2_percent),
        }
    }

    open spec fn spec_values_min(a: Self, b: Self) -> Self {
        BloodPressureMeasurement {
            id: SENTINEL_ID as i64,
            timestamp: spec_min_i64(a.timestamp, b.timestamp),
            systolic_mmhg: spec_min_i32(a.systolic_mmhg, b.systolic_mmhg),
            diastolic_mmhg: spec_min_i32(a.diastolic_mmhg, b.diastolic_mmhg),
            pulse_bpm: spec_min_i32(a.pulse_bpm, b.pulse_bpm),
            spo2_percent: spec_optional_min_i32(a.spo2_percent, b.spo2_percent),
        }
    }

    open spec fn spec_average(s: Seq<Self>) -> Option<Self> {
        let sys = spec_avg_i32(bp_sys_seq(s));
        let dia = spec_avg_i32(bp_dia_seq(s));
        let pulse = spec_avg_i32(bp_pulse_seq(s));
        let sp = bp_spo2_seq(s);
        if sys is None || dia is None || pulse is None {
            None
        } else if sp.len() > 0 && spec_avg_i32(sp) is None {
            None
        } else {
            Some(
                BloodPressureMeasurement {
                    id: SENTINEL_ID as i64,
                    timestamp: s[0].timestamp,
                    systolic_mmhg: sys->Some_0,
                    diastolic_mmhg: dia->Some_0,
                    pulse_bpm: pulse->Some_0,
                    spo2_percent: if sp.len() == 0 {
                        None
                    } else {
                        Some(spec_avg_i32(sp)->Some_0)
                    },
                },
            )
        }
    }

    open spec fn spec_quasi_n_tile(s: Seq<Self>, num: int, den: int) -> Self {
        let sp = bp_spo2_seq(s);
        BloodPressureMeasurement {
            id: SENTINEL_ID as i64,
            timestamp: s[0].timestamp,
            systolic_mmhg: sorted_select_i32(bp_sys_seq(s), num, den),
            diastolic_mmhg: sorted_select_i32(bp_dia_seq(s), num, den),
            pulse_bpm: sorted_select_i32(bp_pulse_seq(s), num, den),
            spo2_percent: if sp.len() == 0 {
                None
            } else {
                Some(sorted_select_i32(sp, num, den))
            },
        }
    }

    fn values_max(&self, other: &Self) -> (r: Self) {
        BloodPressureMeasurement {
            id: SENTINEL_ID,
            timestamp: if self.timestamp <= other.timestamp {
                other.timestamp
            } else {
                self.timestamp
            },
            systolic_mmhg: if self.systolic_mmhg <= other.systolic_mmhg {
                other.systolic_mmhg
            } else {
                self.systolic_mmhg
            },
            diastolic_mmhg: if self.diastolic_mmhg <= other.diastolic_mmhg {
                other.diastolic_mmhg
            } else {
                self.diastolic_mmhg
            },
            pulse_bpm: if self.pulse_bpm <= other.pulse_bpm {
                other.pulse_bpm
            } else {
                self.pulse_bpm
            },
            spo2_percent: optional_max(self.spo2_percent, other.spo2_percent),
        }
    }

    fn values_min(&self, other: &Self) -> (r: Self) {
        BloodPressureMeasurement {
            id: SENTINEL_ID,
            timestamp: if self.timestamp <= other.timestamp {
                self.timestamp
            } else {
                other.timestamp
            },
            systolic_mmhg: if self.systolic_mmhg <= other.systolic_mmhg {
                self.systolic_mmhg
            } else {
                other.systolic_mmhg
            },
            diastolic_mmhg: if self.diastolic_mmhg <= other.diastolic_mmhg {
                self.diastolic_mmhg
            } else {
                other.diastolic_mmhg
            },
            pulse_bpm: if self.pulse_bpm <= other.pulse_bpm {
                self.pulse_bpm
            } else {
                other.pulse_bpm
            },
            spo2_percent: optional_min(self.spo2_percent, other.spo2_percent),
        }
    }

    fn average(measurements: &[Self]) -> (r: Option<Self>) {
        let ghost s = measurements@;
        let n = measurements.len();
        let mut sys: Vec<i32> = Vec::new();
        let mut dia: Vec<i32> = Vec::new();
        let mut pulse: Vec<i32> = Vec::new();
        let mut spo2s: Vec<i32> = Vec::new();
        let mut i: usize = 0;
        while i < n
            invariant
                0 <= i <= n,
                n == s.len(),
                s == measurements@,
                sys@ == bp_sys_seq(s.take(i as int)),
                dia@ == bp_dia_seq(s.take(i as int)),
                pulse@ == bp_pulse_seq(s.take(i as int)),
                spo2s@ == bp_spo2_seq(s.take(i as int)),
            decreases n - i,
        {
            let m = measurements[i];
            proof {
                assert(s.take(i + 1).drop_last() =~= s.take(i as int));
                assert(bp_sys_seq(s.take(i + 1)) =~= bp_sys_seq(s.take(i as int)).push(
                    m.systolic_mmhg,
                ));
                assert(bp_dia_seq(s.take(i + 1)) =~= bp_dia_seq(s.take(i as int)).push(
                    m.diastolic_mmhg,
                ));
                assert(bp_pulse_seq(s.take(i + 1)) =~= bp_pulse_seq(s.take(i as int)).push(
                    m.pulse_bpm,
                ));
                assert(bp_spo2_opt_seq(s.take(i + 1)) =~= bp_spo2_opt_seq(
                    s.take(i as int),
                ).push(m.spo2_percent));
                assert(bp_spo2_opt_seq(s.take(i + 1)).drop_last() =~= bp_spo2_opt_seq(
                    s.take(i as int),
                ));
            }
            sys.push(m.systolic_mmhg);
            dia.push(m.diastolic_mmhg);
            pulse.push(m.pulse_bpm);
            match m.spo2_percent {
                Some(v) => {
                    spo2s.push(v);
                },
                None => {},
            }
            i = i + 1;
        }
        proof {
            assert(s.take(n as int) =~= s);
            lemma_present_values_len(bp_spo2_opt_seq(s));
        }
        let sys_avg = match avg_i32(&sys) {
            Some(a) => a,
            None => {
                return None;
            },
        };
        let dia_avg = match avg_i32(&dia) {
            Some(a) => a,
            None => {
                return None;
            },
        };
        let pulse_avg = match avg_i32(&pulse) {
            Some(a) => a,
            None => {
                return None;
            },
        };
        let spo2_avg: Option<i32> = if spo2s.len() > 0 {
            match avg_i32(&spo2s) {
                Some(a) => Some(a),
                None => {
                    return None;
                },
            }
        } else {
            None
        };
        Some(
            BloodPressureMeasurement {
                id: SENTINEL_ID,
                timestamp: measurements[0].timestamp,
                systolic_mmhg: sys_avg,
                diastolic_mmhg: dia_avg,
                pulse_bpm: pulse_avg,
                spo2_percent: spo2_avg,
            },
        )
    }

    fn quasi_n_tile(measurements: &[Self], n_num: usize, n_den: usize) -> (r: Self) {
        let ghost s = measurements@;
        let n = measurements.len();
        let mut sys: Vec<i32> = Vec::new();
        let mut dia: Vec<i32> = Vec::new();
        let mut pulse: Vec<i32> = Vec::new();
        let mut spo2s: Vec<i32> = Vec::new();
        let mut i: usize = 0;
        while i < n
            invariant
                0 <= i <= n,
                n == s.len(),
                s == measurements@,
                sys@ == bp_sys_seq(s.take(i as int)),
                dia@ == bp_dia_seq(s.take(i as int)),
                pulse@ == bp_pulse_seq(s.take(i as int)),
                spo2s@ == bp_spo2_seq(s.take(i as int)),
            decreases n - i,
        {
            let m = measurements[i];
            proof {
                assert(s.take(i + 1).drop_last() =~= s.take(i as int));
                assert(bp_sys_seq(s.take(i + 1)) =~= bp_sys_seq(s.take(i as int)).push(
                    m.systolic_mmhg,
                ));
                assert(bp_dia_seq(s.take(i + 1)) =~= bp_dia_seq(s.take(i as int)).push(
                    m.diastolic_mmhg,
                ));
                assert(bp_pulse_seq(s.take(i + 1)) =~= bp_pulse_seq(s.take(i as int)).push(
                    m.pulse_bpm,
                ));
                assert(bp_spo2_opt_seq(s.take(i + 1)) =~= bp_spo2_opt_seq(
                    s.take(i as int),
                ).push(m.spo2_percent));
                assert(bp_spo2_opt_seq(s.take(i + 1)).drop_last() =~= bp_spo2_opt_seq(
                    s.take(i as int),
                ));
            }
            sys.push(m.systolic_mmhg);
            dia.push(m.diastolic_mmhg);
            pulse.push(m.pulse_bpm);
            match m.spo2_percent {
                Some(v) => {
                    spo2s.push(v);
                },
                None => {},
            }
            i = i + 1;
        }
        proof {
            assert(s.take(n as int) =~= s);
            lemma_present_values_len(bp_spo2_opt_seq(s));
            assert(((spo2s@.len() - 1) as int) * (n_num as int) <= ((s.len() - 1) as int) * (
            n_num as int)) by (nonlinear_arith)
                requires
                    0 <= spo2s@.len() <= s.len(),
                    n_num >= 0,
            ;
        }
        let sys_q = select_i32(&sys, n_num, n_den);
        let dia_q = select_i32(&dia, n_num, n_den);
        let pulse_q = select_i32(&pulse, n_num, n_den);
        let spo2_q: Option<i32> = if spo2s.len() > 0 {
            Some(select_i32(&spo2s, n_num, n_den))
        } else {
            None
        };
        BloodPressureMeasurement {
            id: SENTINEL_ID,
            timestamp: measurements[0].timestamp,
            systolic_mmhg: sys_q,
            diastolic_mmhg: dia_q,
            pulse_bpm: pulse_q,
            spo2_percent: spo2_q,
        }
    }
}


/// A body mass reading: the mass in kilograms, an optional waist
/// circumference in centimeters, and an optional derived body-mass
/// index.
#[derive(Clone, Copy, Debug, PartialEq, Eq, Hash)]
pub struct BodyMassMeasurement {
    pub id: i64,
    pub timestamp: i64,
    pub mass_kg: Fraction,
    pub waist_circum_cm: Option<Fraction>,
    pub bmi: Option<Fraction>,
}

/// The mass readings of a window.
pub open spec fn mass_kg_seq(s: Seq<BodyMassMeasurement>) -> Seq<Fraction> {
    s.map_values(|m: BodyMassMeasurement| m.mass_kg)
}

/// The waist circumference fields of a window, present or not.
pub open spec fn mass_waist_opt_seq(s: Seq<BodyMassMeasurement>) -> Seq<Option<Fraction>> {
    s.map_values(|m: BodyMassMeasurement| m.waist_circum_cm)
}

/// The present waist circumferences of a window, in order.
pub open spec fn mass_waist_seq(s: Seq<BodyMassMeasurement>) -> Seq<Fraction> {
    present_values(mass_waist_opt_seq(s))
}

/// The body-mass-index fields of a window, present or not.
pub open spec fn mass_bmi_opt_seq(s: Seq<BodyMassMeasurement>) -> Seq<Option<Fraction>> {
    s.map_values(|m: BodyMassMeasurement| m.bmi)
}

/// The present body-mass indices of a window, in order.
pub open spec fn mass_bmi_seq(s: Seq<BodyMassMeasurement>) -> Seq<Fraction> {
    present_values(mass_bmi_opt_seq(s))
}

impl BodyMassMeasurement {
    /// Assembles a body mass measurement.
    pub fn new(
        id: i64,
        timestamp: i64,
        mass_kg: Fraction,
        waist_circum_cm: Option<Fraction>,
        bmi: Option<Fraction>,
    ) -> (r: Self)
        ensures
            r == (BodyMassMeasurement { id, timestamp, mass_kg, waist_circum_cm, bmi }),
    {
        BodyMassMeasurement { id, timestamp, mass_kg, waist_circum_cm, bmi }
    }
}

impl MeasurementOps for BodyMassMeasurement {
    open spec fn valid(self) -> bool {
        &&& self.mass_kg.wf()
        &&& self.waist_circum_cm matches Some(w) ==> w.wf()
        &&& self.bmi matches Some(b) ==> b.wf()
    }

    open spec fn spec_values_max(a: Self, b: Self) -> Self {
        BodyMassMeasurement {
            id: SENTINEL_ID as i64,
            timestamp: spec_max_i64(a.timestamp, b.timestamp),
            mass_kg: crate::fraction::spec_frac_max(a.mass_kg, b.mass_kg),
            waist_circum_cm: spec_optional_max_frac(a.waist_circum_cm, b.waist_circum_cm),
            bmi: spec_optional_max_frac(a.bmi, b.bmi),
        }
    }

    open spec fn spec_values_min(a: Self, b: Self) -> Self {
        BodyMassMeasurement {
            id: SENTINEL_ID as i64,
            timestamp: spec_min_i64(a.timestamp, b.timestamp),
            mass_kg: crate::fraction::spec_frac_min(a.mass_kg, b.mass_kg),
            waist_circum_cm: spec_optional_min_frac(a.waist_circum_cm, b.waist_circum_cm),
            bmi: spec_optional_min_frac(a.bmi, b.bmi),
        }
    }

    open spec fn spec_average(s: Seq<Self>) -> Option<Self> {
        let mass = spec_avg_frac(mass_kg_seq(s));
        let waist = mass_waist_seq(s);
        let bmis = mass_bmi_seq(s);
        if mass is None {
            None
        } else if waist.len() > 0 && spec_avg_frac(waist) is None {
            None
        } else if bmis.len() > 0 && spec_avg_frac(bmis) is None {
            None
        } else {
            Some(
                BodyMassMeasurement {
                    id: SENTINEL_ID as i64,
                    timestamp: s[0].timestamp,
                    mass_kg: mass->Some_0,
                    waist_circum_cm: if waist.len() == 0 {
                        None
                    } else {
                        Some(spec_avg_frac(waist)->Some_0)
                    },
                    bmi: if bmis.len() == 0 {
                        None
                    } else {
                        Some(spec_avg_frac(bmis)->Some_0)
                    },
                },
            )
        }
    }

    open spec fn spec_quasi_n_tile(s: Seq<Self>, num: int, den: int) -> Self {
        let waist = mass_waist_seq(s);
        let bmis = mass_bmi_seq(s);
        BodyMassMeasurement {
            id: SENTINEL_ID as i64,
            timestamp: s[0].timestamp,
            mass_kg: sorted_select_frac(mass_kg_seq(s), num, den),
            waist_circum_cm: if waist.len() == 0 {
                None
            } else {
                Some(sorted_select_frac(waist, num, den))
            },
            bmi: if bmis.len() == 0 {
                None
            } else {
                Some(sorted_select_frac(bmis, num, den))
            },
        }
    }

    fn values_max(&self, other: &Self) -> (r: Self) {
        BodyMassMeasurement {
            id: SENTINEL_ID,
            timestamp: if self.timestamp <= other.timestamp {
                other.timestamp
            } else {
                self.timestamp
            },
            mass_kg: crate::fraction::frac_max(&self.mass_kg, &other.mass_kg),
            waist_circum_cm: optional_max_frac(self.waist_circum_cm, other.waist_circum_cm),
            bmi: optional_max_frac(self.bmi, other.bmi),
        }
    }

    fn values_min(&self, other: &Self) -> (r: Self) {
        BodyMassMeasurement {
            id: SENTINEL_ID,
            timestamp: if self.timestamp <= other.timestamp {
                self.timestamp
            } else {
                other.timestamp
            },
            mass_kg: crate::fraction::frac_min(&self.mass_kg, &other.mass_kg),
            waist_circum_cm: optional_min_frac(self.waist_circum_cm, other.waist_circum_cm),
            bmi: optional_min_frac(self.bmi, other.bmi),
        }
    }

    fn average(measurements: &[Self]) -> (r: Option<Self>) {
        let ghost s = measurements@;
        let n = measurements.len();
        let mut masses: Vec<Fraction> = Vec::new();
        let mut waists: Vec<Fraction> = Vec::new();
        let mut bmis: Vec<Fraction> = Vec::new();
        let mut i: usize = 0;
        while i < n
            invariant
                0 <= i <= n,
                n == s.len(),
                s == measurements@,
                forall|k: int| 0 <= k < s.len() ==> (#[trigger] s[k]).valid(),
                masses@ == mass_kg_seq(s.take(i as int)),
                waists@ == mass_waist_seq(s.take(i as int)),
                bmis@ == mass_bmi_seq(s.take(i as int)),
                forall|k: int| 0 <= k < masses@.len() ==> (#[trigger] masses@[k]).wf(),
                forall|k: int| 0 <= k < waists@.len() ==> (#[trigger] waists@[k]).wf(),
                forall|k: int| 0 <= k < bmis@.len() ==> (#[trigger] bmis@[k]).wf(),
            decreases n - i,
        {
            let m = measurements[i];
            proof {
                assert(s.take(i + 1).drop_last() =~= s.take(i as int));
                assert(mass_kg_seq(s.take(i + 1)) =~= mass_kg_seq(s.take(i as int)).push(
                    m.mass_kg,
                ));
                assert(mass_waist_opt_seq(s.take(i + 1)) =~= mass_waist_opt_seq(
                    s.take(i as int),
                ).push(m.waist_circum_cm));
                assert(mass_waist_opt_seq(s.take(i + 1)).drop_last() =~= mass_waist_opt_seq(
                    s.take(i as int),
                ));
                assert(mass_bmi_opt_seq(s.take(i + 1)) =~= mass_bmi_opt_seq(
                    s.take(i as int),
                ).push(m.bmi));
                assert(mass_bmi_opt_seq(s.take(i + 1)).drop_last() =~= mass_bmi_opt_seq(
                    s.take(i as int),
                ));
            }
            masses.push(m.mass_kg);
            match m.waist_circum_cm {
                Some(w) => {
                    waists.push(w);
                },
                None => {},
            }
            match m.bmi {
                Some(b) => {
                    bmis.push(b);
                },
                None => {},
            }
            i = i + 1;
        }
        proof {
            assert(s.take(n as int) =~= s);
            lemma_present_values_len(mass_waist_opt_seq(s));
            lemma_present_values_len(mass_bmi_opt_seq(s));
        }
        let mass_avg = match avg_frac(&masses) {
            Some(a) => a,
            None => {
                return None;
            },
        };
        let waist_avg: Option<Fraction> = if waists.len() > 0 {
            match avg_frac(&waists) {
                Some(a) => Some(a),
                None => {
                    return None;
                },
            }
        } else {
            None
        };
        let bmi_avg: Option<Fraction> = if bmis.len() > 0 {
            match avg_frac(&bmis) {
                Some(a) => Some(a),
                None => {
                    return None;
                },
            }
        } else {
            None
        };
        Some(
            BodyMassMeasurement {
                id: SENTINEL_ID,
                timestamp: measurements[0].timestamp,
                mass_kg: mass_avg,
                waist_circum_cm: waist_avg,
                bmi: bmi_avg,
            },
        )
    }

    fn quasi_n_tile(measurements: &[Self], n_num: usize, n_den: usize) -> (r: Self) {
        let ghost s = measurements@;
        let n = measurements.len();
        let mut masses: Vec<Fraction> = Vec::new();
        let mut waists: Vec<Fraction> = Vec::new();
        let mut bmis: Vec<Fraction> = Vec::new();
        let mut i: usize = 0;
        while i < n
            invariant
                0 <= i <= n,
                n == s.len(),
                s == measurements@,
                forall|k: int| 0 <= k < s.len() ==> (#[trigger] s[k]).valid(),
                masses@ == mass_kg_seq(s.take(i as int)),
                waists@ == mass_waist_seq(s.take(i as int)),
                bmis@ == mass_bmi_seq(s.take(i as int)),
                forall|k: int| 0 <= k < masses@.len() ==> (#[trigger] masses@[k]).wf(),
                forall|k: int| 0 <= k < waists@.len() ==> (#[trigger] waists@[k]).wf(),
                forall|k: int| 0 <= k < bmis@.len() ==> (#[trigger] bmis@[k]).wf(),
            decreases n - i,
        {
            let m = measurements[i];
            proof {
                assert(s.take(i + 1).drop_last() =~= s.take(i as int));
                assert(mass_kg_seq(s.take(i + 1)) =~= mass_kg_seq(s.take(i as int)).push(
                    m.mass_kg,
                ));
                assert(mass_waist_opt_seq(s.take(i + 1)) =~= mass_waist_opt_seq(
                    s.take(i as int),
                ).push(m.waist_circum_cm));
                assert(mass_waist_opt_seq(s.take(i + 1)).drop_last() =~= mass_waist_opt_seq(
                    s.take(i as int),
                ));
                assert(mass_bmi_opt_seq(s.take(i + 1)) =~= mass_bmi_opt_seq(
                    s.take(i as int),
                ).push(m.bmi));
                assert(mass_bmi_opt_seq(s.take(i + 1)).drop_last() =~= mass_bmi_opt_seq(
                    s.take(i as int),
                ));
            }
            masses.push(m.mass_kg);
            match m.waist_circum_cm {
                Some(w) => {
                    waists.push(w);
                },
                None => {},
            }
            match m.bmi {
                Some(b) => {
                    bmis.push(b);
                },
                None => {},
            }
            i = i + 1;
        }
        proof {
            assert(s.take(n as int) =~= s);
            lemma_present_values_len(mass_waist_opt_seq(s));
            lemma_present_values_len(mass_bmi_opt_seq(s));
            assert(((waists@.len() - 1) as int) * (n_num as int) <= ((s.len() - 1) as int) * (
            n_num as int)) by (nonlinear_arith)
                requires
                    0 <= waists@.len() <= s.len(),
                    n_num >= 0,
            ;
            assert(((bmis@.len() - 1) as int) * (n_num as int) <= ((s.len() - 1) as int) * (
            n_num as int)) by (nonlinear_arith)
                requires
                    0 <= bmis@.len() <= s.len(),
                    n_num >= 0,
            ;
        }
        let mass_q = select_frac(&masses, n_num, n_den);
        let waist_q: Option<Fraction> = if waists.len() > 0 {
            Some(select_frac(&waists, n_num, n_den))
        } else {
            None
        };
        let bmi_q: Option<Fraction> = if bmis.len() > 0 {
            Some(select_frac(&bmis, n_num, n_den))
        } else {
            None
        };
        BodyMassMeasurement {
            id: SENTINEL_ID,
            timestamp: measurements[0].timestamp,
            mass_kg: mass_q,
            waist_circum_cm: waist_q,
            bmi: bmi_q,
        }
    }
}


/// A body temperature reading at a named measurement site.
#[derive(Clone, Copy, Debug, PartialEq, Eq, Hash)]
pub struct BodyTemperatureMeasurement {
    pub id: i64,
    pub timestamp: i64,
    pub location_id: i64,
    pub temperature_celsius: Fraction,
}

/// The temperature readings of a window.
pub open spec fn temp_seq(s: Seq<BodyTemperatureMeasurement>) -> Seq<Fraction> {
    s.map_values(|m: BodyTemperatureMeasurement| m.temperature_celsius)
}

impl BodyTemperatureMeasurement {
    /// Assembles a body temperature measurement.
    pub fn new(id: i64, timestamp: i64, location_id: i64, temperature_celsius: Fraction) -> (r:
        Self)
        ensures
            r == (BodyTemperatureMeasurement { id, timestamp, location_id, temperature_celsius }),
    {
        BodyTemperatureMeasurement { id, timestamp, location_id, temperature_celsius }
    }
}

impl MeasurementOps for BodyTemperatureMeasurement {
    open spec fn valid(self) -> bool {
        self.temperature_celsius.wf()
    }

    open spec fn spec_values_max(a: Self, b: Self) -> Self {
        BodyTemperatureMeasurement {
            id: SENTINEL_ID as i64,
            timestamp: spec_max_i64(a.timestamp, b.timestamp),
            location_id: spec_max_i64(a.location_id, b.location_id),
            temperature_celsius: crate::fraction::spec_frac_max(
                a.temperature_celsius,
                b.temperature_celsius,
            ),
        }
    }

    open spec fn spec_values_min(a: Self, b: Self) -> Self {
        BodyTemperatureMeasurement {
            id: SENTINEL_ID as i64,
            timestamp: spec_min_i64(a.timestamp, b.timestamp),
            location_id: spec_min_i64(a.location_id, b.location_id),
            // the larger temperature, where every other field takes the
            // smaller value: almost certainly a copy-paste slip, but
            // downstream consumers may rely on it, so it is kept
            temperature_celsius: crate::fraction::spec_frac_max(
                a.temperature_celsius,
                b.temperature_celsius,
            ),
        }
    }

    open spec fn spec_average(s: Seq<Self>) -> Option<Self> {
        match spec_avg_frac(temp_seq(s)) {
            Some(t) => Some(
                BodyTemperatureMeasurement {
                    id: SENTINEL_ID as i64,
                    timestamp: s[0].timestamp,
                    location_id: s[0].location_id,
                    temperature_celsius: t,
                },
            ),
            None => None,
        }
    }

    open spec fn spec_quasi_n_tile(s: Seq<Self>, num: int, den: int) -> Self {
        BodyTemperatureMeasurement {
            id: SENTINEL_ID as i64,
            timestamp: s[0].timestamp,
            location_id: s[0].location_id,
            temperature_celsius: sorted_select_frac(temp_seq(s), num, den),
        }
    }

    fn values_max(&self, other: &Self) -> (r: Self) {
        BodyTemperatureMeasurement {
            id: SENTINEL_ID,
            timestamp: if self.timestamp <= other.timestamp {
                other.timestamp
            } else {
                self.timestamp
            },
            location_id: if self.location_id <= other.location_id {
                other.location_id
            } else {
                self.location_id
            },
            temperature_celsius: crate::fraction::frac_max(
                &self.temperature_celsius,
                &other.temperature_celsius,
            ),
        }
    }

    fn values_min(&self, other: &Self) -> (r: Self) {
        BodyTemperatureMeasurement {
            id: SENTINEL_ID,
            timestamp: if self.timestamp <= other.timestamp {
                self.timestamp
            } else {
                other.timestamp
            },
            location_id: if self.location_id <= other.location_id {
                self.location_id
            } else {
                other.location_id
            },
            temperature_celsius: crate::fraction::frac_max(
                &self.temperature_celsius,
                &other.temperature_celsius,
            ),
        }
    }

    fn average(measurements: &[Self]) -> (r: Option<Self>) {
        let ghost s = measurements@;
        let n = measurements.len();
        let mut temps: Vec<Fraction> = Vec::new();
        let mut i: usize = 0;
        while i < n
            invariant
                0 <= i <= n,
                n == s.len(),
                s == measurements@,
                forall|k: int| 0 <= k < s.len() ==> (#[trigger] s[k]).valid(),
                temps@ == temp_seq(s.take(i as int)),
                forall|k: int| 0 <= k < temps@.len() ==> (#[trigger] temps@[k]).wf(),
            decreases n - i,
        {
            let m = measurements[i];
            proof {
                assert(s.take(i + 1).drop_last() =~= s.take(i as int));
                assert(temp_seq(s.take(i + 1)) =~= temp_seq(s.take(i as int)).push(
                    m.temperature_celsius,
                ));
            }
            temps.push(m.temperature_celsius);
            i = i + 1;
        }
        proof {
            assert(s.take(n as int) =~= s);
        }
        let t = match avg_frac(&temps) {
            Some(t) => t,
            None => {
                return None;
            },
        };
        Some(
            BodyTemperatureMeasurement {
                id: SENTINEL_ID,
                timestamp: measurements[0].timestamp,
                location_id: measurements[0].location_id,
                temperature_celsius: t,
            },
        )
    }

    fn quasi_n_tile(measurements: &[Self], n_num: usize, n_den: usize) -> (r: Self) {
        let ghost s = measurements@;
        let n = measurements.len();
        let mut temps: Vec<Fraction> = Vec::new();
        let mut i: usize = 0;
        while i < n
            invariant
                0 <= i <= n,
                n == s.len(),
                s == measurements@,
                forall|k: int| 0 <= k < s.len() ==> (#[trigger] s[k]).valid(),
                temps@ == temp_seq(s.take(i as int)),
                forall|k: int| 0 <= k < temps@.len() ==> (#[trigger] temps@[k]).wf(),
            decreases n - i,
        {
            let m = measurements[i];
            proof {
                assert(s.take(i + 1).drop_last() =~= s.take(i as int));
                assert(temp_seq(s.take(i + 1)) =~= temp_seq(s.take(i as int)).push(
                    m.temperature_celsius,
                ));
            }
            temps.push(m.temperature_celsius);
            i = i + 1;
        }
        proof {
            assert(s.take(n as int) =~= s);
        }
        let t = select_frac(&temps, n_num, n_den);
        BodyTemperatureMeasurement {
            id: SENTINEL_ID,
            timestamp: measurements[0].timestamp,
            location_id: measurements[0].location_id,
            temperature_celsius: t,
        }
    }
}

/// A blood sugar reading, stored canonically in mmol/L.
#[derive(Clone, Copy, Debug, PartialEq, Eq, Hash)]
pub struct BloodSugarMeasurement {
    pub id: i64,
    pub timestamp: i64,
    pub sugar_mmol_per_l: Fraction,
}

/// The blood sugar readings of a window.
pub open spec fn sugar_seq(s: Seq<BloodSugarMeasurement>) -> Seq<Fraction> {
    s.map_values(|m: BloodSugarMeasurement| m.sugar_mmol_per_l)
}

impl BloodSugarMeasurement {
    /// Assembles a blood sugar measurement from the canonical unit.
    pub fn new(id: i64, timestamp: i64, sugar_mmol_per_l: Fraction) -> (r: Self)
        ensures
            r == (BloodSugarMeasurement { id, timestamp, sugar_mmol_per_l }),
    {
        BloodSugarMeasurement { id, timestamp, sugar_mmol_per_l }
    }

    /// Assembles a blood sugar measurement from a reading in mg/dL,
    /// converting to the canonical unit; `None` when the converted
    /// value cannot be represented.
    pub fn new_mg_per_dl(id: i64, timestamp: i64, sugar_mg_per_dl: Fraction) -> (r: Option<Self>)
        requires
            sugar_mg_per_dl.wf(),
        ensures
            r == match crate::derived::spec_mg_per_dl_to_mmol_per_l(sugar_mg_per_dl) {
                Some(v) => Some(BloodSugarMeasurement { id, timestamp, sugar_mmol_per_l: v }),
                None => None::<BloodSugarMeasurement>,
            },
            r matches Some(m) ==> m.valid(),
    {
        match crate::derived::mg_per_dl_to_mmol_per_l(&sugar_mg_per_dl) {
            Some(v) => Some(BloodSugarMeasurement { id, timestamp, sugar_mmol_per_l: v }),
            None => None,
        }
    }

    /// The reading in mg/dL, derived on demand for display; `None`
    /// when the converted value cannot be represented.
    pub fn sugar_mg_per_dl(&self) -> (r: Option<Fraction>)
        requires
            self.valid(),
        ensures
            r == crate::derived::spec_mmol_per_l_to_mg_per_dl(self.sugar_mmol_per_l),
            r matches Some(f) ==> f.wf(),
    {
        crate::derived::mmol_per_l_to_mg_per_dl(&self.sugar_mmol_per_l)
    }
}

impl MeasurementOps for BloodSugarMeasurement {
    open spec fn valid(self) -> bool {
        self.sugar_mmol_per_l.wf()
    }

    open spec fn spec_values_max(a: Self, b: Self) -> Self {
        BloodSugarMeasurement {
            id: SENTINEL_ID as i64,
            timestamp: spec_max_i64(a.timestamp, b.timestamp),
            sugar_mmol_per_l: crate::fraction::spec_frac_max(
                a.sugar_mmol_per_l,
                b.sugar_mmol_per_l,
            ),
        }
    }

    open spec fn spec_values_min(a: Self, b: Self) -> Self {
        BloodSugarMeasurement {
            id: SENTINEL_ID as i64,
            timestamp: spec_min_i64(a.timestamp, b.timestamp),
            sugar_mmol_per_l: crate::fraction::spec_frac_min(
                a.sugar_mmol_per_l,
                b.sugar_mmol_per_l,
            ),
        }
    }

    open spec fn spec_average(s: Seq<Self>) -> Option<Self> {
        match spec_avg_frac(sugar_seq(s)) {
            Some(t) => Some(
                BloodSugarMeasurement {
                    id: SENTINEL_ID as i64,
                    timestamp: s[0].timestamp,
                    sugar_mmol_per_l: t,
                },
            ),
            None => None,
        }
    }

    open spec fn spec_quasi_n_tile(s: Seq<Self>, num: int, den: int) -> Self {
        BloodSugarMeasurement {
            id: SENTINEL_ID as i64,
            timestamp: s[0].timestamp,
            sugar_mmol_per_l: sorted_select_frac(sugar_seq(s), num, den),
        }
    }

    fn values_max(&self, other: &Self) -> (r: Self) {
        BloodSugarMeasurement {
            id: SENTINEL_ID,
            timestamp: if self.timestamp <= other.timestamp {
                other.timestamp
            } else {
                self.timestamp
            },
            sugar_mmol_per_l: crate::fraction::frac_max(
                &self.sugar_mmol_per_l,
                &other.sugar_mmol_per_l,
            ),
        }
    }

    fn values_min(&self, other: &Self) -> (r: Self) {
        BloodSugarMeasurement {
            id: SENTINEL_ID,
            timestamp: if self.timestamp <= other.timestamp {
                self.timestamp
            } else {
                other.timestamp
            },
            sugar_mmol_per_l: crate::fraction::frac_min(
                &self.sugar_mmol_per_l,
                &other.sugar_mmol_per_l,
            ),
        }
    }

    fn average(measurements: &[Self]) -> (r: Option<Self>) {
        let ghost s = measurements@;
        let n = measurements.len();
        let mut sugars: Vec<Fraction> = Vec::new();
        let mut i: usize = 0;
        while i < n
            invariant
                0 <= i <= n,
                n == s.len(),
                s == measurements@,
                forall|k: int| 0 <= k < s.len() ==> (#[trigger] s[k]).valid(),
                sugars@ == sugar_seq(s.take(i as int)),
                forall|k: int| 0 <= k < sugars@.len() ==> (#[trigger] sugars@[k]).wf(),
            decreases n - i,
        {
            let m = measurements[i];
            proof {
                assert(s.take(i + 1).drop_last() =~= s.take(i as int));
                assert(sugar_seq(s.take(i + 1)) =~= sugar_seq(s.take(i as int)).push(
                    m.sugar_mmol_per_l,
                ));
            }
            sugars.push(m.sugar_mmol_per_l);
            i = i + 1;
        }
        proof {
            assert(s.take(n as int) =~= s);
        }
        let t = match avg_frac(&sugars) {
            Some(t) => t,
            None => {
                return None;
            },
        };
        Some(
            BloodSugarMeasurement {
                id: SENTINEL_ID,
                timestamp: measurements[0].timestamp,
                sugar_mmol_per_l: t,
            },
        )
    }

    fn quasi_n_tile(measurements: &[Self], n_num: usize, n_den: usize) -> (r: Self) {
        let ghost s = measurements@;
        let n = measurements.len();
        let mut sugars: Vec<Fraction> = Vec::new();
        let mut i: usize = 0;
        while i < n
            invariant
                0 <= i <= n,
                n == s.len(),
                s == measurements@,
                forall|k: int| 0 <= k < s.len() ==> (#[trigger] s[k]).valid(),
                sugars@ == sugar_seq(s.take(i as int)),
                forall|k: int| 0 <= k < sugars@.len() ==> (#[trigger] sugars@[k]).wf(),
            decreases n - i,
        {
            let m = measurements[i];
            proof {
                assert(s.take(i + 1).drop_last() =~= s.take(i as int));
                assert(sugar_seq(s.take(i + 1)) =~= sugar_seq(s.take(i as int)).push(
                    m.sugar_mmol_per_l,
                ));
            }
            sugars.push(m.sugar_mmol_per_l);
            i = i + 1;
        }
        proof {
            assert(s.take(n as int) =~= s);
        }
        let t = select_frac(&sugars, n_num, n_den);
        BloodSugarMeasurement {
            id: SENTINEL_ID,
            timestamp: measurements[0].timestamp,
            sugar_mmol_per_l: t,
        }
    }
}

/// A long-term blood sugar (HbA1c) reading, stored canonically in
/// mmol/mol.
#[derive(Clone, Copy, Debug, PartialEq, Eq, Hash)]
pub struct LongTermBloodSugarMeasurement {
    pub id: i64,
    pub timestamp: i64,
    pub hba1c_mmol_per_mol: Fraction,
}

/// The HbA1c readings of a window.
pub open spec fn hba1c_seq(s: Seq<LongTermBloodSugarMeasurement>) -> Seq<Fraction> {
    s.map_values(|m: LongTermBloodSugarMeasurement| m.hba1c_mmol_per_mol)
}

impl LongTermBloodSugarMeasurement {
    /// Assembles a long-term blood sugar measurement from the
    /// canonical unit.
    pub fn new(id: i64, timestamp: i64, hba1c_mmol_per_mol: Fraction) -> (r: Self)
        ensures
            r == (LongTermBloodSugarMeasurement { id, timestamp, hba1c_mmol_per_mol }),
    {
        LongTermBloodSugarMeasurement { id, timestamp, hba1c_mmol_per_mol }
    }

    /// Assembles a long-term blood sugar measurement from a DCCT
    /// percentage; `None` when the transformed value cannot be
    /// represented.
    pub fn new_dcct_percent(id: i64, timestamp: i64, hba1c_dcct_percent: Fraction) -> (r: Option<
        Self,
    >)
        requires
            hba1c_dcct_percent.wf(),
        ensures
            r == match crate::derived::spec_dcct_percent_to_mmol_per_mol(hba1c_dcct_percent) {
                Some(v) => Some(
                    LongTermBloodSugarMeasurement { id, timestamp, hba1c_mmol_per_mol: v },
                ),
                None => None::<LongTermBloodSugarMeasurement>,
            },
            r matches Some(m) ==> m.valid(),
    {
        match crate::derived::dcct_percent_to_mmol_per_mol(&hba1c_dcct_percent) {
            Some(v) => Some(LongTermBloodSugarMeasurement { id, timestamp, hba1c_mmol_per_mol: v }),
            None => None,
        }
    }

    /// The reading as a DCCT percentage, derived on demand for
    /// display; `None` when the transformed value cannot be
    /// represented.
    pub fn hba1c_dcct_percent(&self) -> (r: Option<Fraction>)
        requires
            self.valid(),
        ensures
            r == crate::derived::spec_mmol_per_mol_to_dcct_percent(self.hba1c_mmol_per_mol),
            r matches Some(f) ==> f.wf(),
    {
        crate::derived::mmol_per_mol_to_dcct_percent(&self.hba1c_mmol_per_mol)
    }
}

impl MeasurementOps for LongTermBloodSugarMeasurement {
    open spec fn valid(self) -> bool {
        self.hba1c_mmol_per_mol.wf()
    }

    open spec fn spec_values_max(a: Self, b: Self) -> Self {
        LongTermBloodSugarMeasurement {
            id: SENTINEL_ID as i64,
            timestamp: spec_max_i64(a.timestamp, b.timestamp),
            hba1c_mmol_per_mol: crate::fraction::spec_frac_max(
                a.hba1c_mmol_per_mol,
                b.hba1c_mmol_per_mol,
            ),
        }
    }

    open spec fn spec_values_min(a: Self, b: Self) -> Self {
        LongTermBloodSugarMeasurement {
            id: SENTINEL_ID as i64,
            timestamp: spec_min_i64(a.timestamp, b.timestamp),
            hba1c_mmol_per_mol: crate::fraction::spec_frac_min(
                a.hba1c_mmol_per_mol,
                b.hba1c_mmol_per_mol,
            ),
        }
    }

    open spec fn spec_average(s: Seq<Self>) -> Option<Self> {
        match spec_avg_frac(hba1c_seq(s)) {
            Some(t) => Some(
                LongTermBloodSugarMeasurement {
                    id: SENTINEL_ID as i64,
                    timestamp: s[0].timestamp,
                    hba1c_mmol_per_mol: t,
                },
            ),
            None => None,
        }
    }

    open spec fn spec_quasi_n_tile(s: Seq<Self>, num: int, den: int) -> Self {
        LongTermBloodSugarMeasurement {
            id: SENTINEL_ID as i64,
            timestamp: s[0].timestamp,
            hba1c_mmol_per_mol: sorted_select_frac(hba1c_seq(s), num, den),
        }
    }

    fn values_max(&self, other: &Self) -> (r: Self) {
        LongTermBloodSugarMeasurement {
            id: SENTINEL_ID,
            timestamp: if self.timestamp <= other.timestamp {
                other.timestamp
            } else {
                self.timestamp
            },
            hba1c_mmol_per_mol: crate::fraction::frac_max(
                &self.hba1c_mmol_per_mol,
                &other.hba1c_mmol_per_mol,
            ),
        }
    }

    fn values_min(&self, other: &Self) -> (r: Self) {
        LongTermBloodSugarMeasurement {
            id: SENTINEL_ID,
            timestamp: if self.timestamp <= other.timestamp {
                self.timestamp
            } else {
                other.timestamp
            },
            hba1c_mmol_per_mol: crate::fraction::frac_min(
                &self.hba1c_mmol_per_mol,
                &other.hba1c_mmol_per_mol,
            ),
        }
    }

    fn average(measurements: &[Self]) -> (r: Option<Self>) {
        let ghost s = measurements@;
        let n = measurements.len();
        let mut values: Vec<Fraction> = Vec::new();
        let mut i: usize = 0;
        while i < n
            invariant
                0 <= i <= n,
                n == s.len(),
                s == measurements@,
                forall|k: int| 0 <= k < s.len() ==> (#[trigger] s[k]).valid(),
                values@ == hba1c_seq(s.take(i as int)),
                forall|k: int| 0 <= k < values@.len() ==> (#[trigger] values@[k]).wf(),
            decreases n - i,
        {
            let m = measurements[i];
            proof {
                assert(s.take(i + 1).drop_last() =~= s.take(i as int));
                assert(hba1c_seq(s.take(i + 1)) =~= hba1c_seq(s.take(i as int)).push(
                    m.hba1c_mmol_per_mol,
                ));
            }
            values.push(m.hba1c_mmol_per_mol);
            i = i + 1;
        }
        proof {
            assert(s.take(n as int) =~= s);
        }
        let t = match avg_frac(&values) {
            Some(t) => t,
            None => {
                return None;
            },
        };
        Some(
            LongTermBloodSugarMeasurement {
                id: SENTINEL_ID,
                timestamp: measurements[0].timestamp,
                hba1c_mmol_per_mol: t,
            },
        )
    }

    fn quasi_n_tile(measurements: &[Self], n_num: usize, n_den: usize) -> (r: Self) {
        let ghost s = measurements@;
        let n = measurements.len();
        let mut values: Vec<Fraction> = Vec::new();
        let mut i: usize = 0;
        while i < n
            invariant
                0 <= i <= n,
                n == s.len(),
                s == measurements@,
                forall|k: int| 0 <= k < s.len() ==> (#[trigger] s[k]).valid(),
                values@ == hba1c_seq(s.take(i as int)),
                forall|k: int| 0 <= k < values@.len() ==> (#[trigger] values@[k]).wf(),
            decreases n - i,
        {
            let m = measurements[i];
            proof {
                assert(s.take(i + 1).drop_last() =~= s.take(i as int));
                assert(hba1c_seq(s.take(i + 1)) =~= hba1c_seq(s.take(i as int)).push(
                    m.hba1c_mmol_per_mol,
                ));
            }
            values.push(m.hba1c_mmol_per_mol);
            i = i + 1;
        }
        proof {
            assert(s.take(n as int) =~= s);
        }
        let t = select_frac(&values, n_num, n_den);
        LongTermBloodSugarMeasurement {
            id: SENTINEL_ID,
            timestamp: measurements[0].timestamp,
            hba1c_mmol_per_mol: t,
        }
    }
}

/// A named site at which body temperature is taken.
#[derive(Clone, Debug, PartialEq, Eq, Hash)]
pub struct BodyTemperatureLocation {
    pub id: i64,
    pub name: String,
}

impl BodyTemperatureLocation {
    /// Assembles a temperature location.
    pub fn new(id: i64, name: String) -> (r: Self)
        ensures
            r.id == id,
            r.name == name,
    {
        BodyTemperatureLocation { id, name }
    }
}

/// One day of blood pressure measurements, slotted into morning,
/// midday and evening readings, with any further readings kept aside.
#[derive(Clone, Debug, PartialEq, Eq, Hash)]
pub struct DailyBloodPressureMeasurements {
    pub date_string: String,
    pub morning: Option<BloodPressureMeasurement>,
    pub midday: Option<BloodPressureMeasurement>,
    pub evening: Option<BloodPressureMeasurement>,
    pub other: Vec<BloodPressureMeasurement>,
}

impl DailyBloodPressureMeasurements {
    /// Assembles a day of measurements.
    pub fn new(
        date_string: String,
        morning: Option<BloodPressureMeasurement>,
        midday: Option<BloodPressureMeasurement>,
        evening: Option<BloodPressureMeasurement>,
        other: Vec<BloodPressureMeasurement>,
    ) -> (r: Self)
        ensures
            r.date_string == date_string,
            r.morning == morning,
            r.midday == midday,
            r.evening == evening,
            r.other == other,
    {
        DailyBloodPressureMeasurements { date_string, morning, midday, evening, other }
    }

    /// An empty day.
    pub fn new_empty(date_string: String) -> (r: Self)
        ensures
            r.date_string == date_string,
            r.morning is None,
            r.midday is None,
            r.evening is None,
            r.other@.len() == 0,
    {
        Self::new(date_string, None, None, None, Vec::new())
    }
}

/// The fixed six-figure statistics bundle over one measurement type:
/// maximum, upper quasi-quartile, average, quasi-median, lower
/// quasi-quartile and minimum.
#[derive(Clone, Copy, Debug, PartialEq, Eq, Hash)]
pub struct MeasurementStatistics<T> {
    pub maximum: T,
    pub quasi_q3: T,
    pub average: T,
    pub quasi_q2: T,
    pub quasi_q1: T,
    pub minimum: T,
}


/// The configured day parts, as hours of the day: readings are
/// slotted into morning, midday and evening windows.
#[derive(Clone, Copy, Debug, PartialEq, Eq, Hash)]
pub struct Hours {
    pub morning_start: u32,
    pub morning_end: u32,
    pub midday_start: u32,
    pub midday_end: u32,
    pub evening_start: u32,
}

/// A reading before the morning window still belongs to the evening
/// of the previous day.
pub open spec fn spec_counts_as_previous_day(hour: u32, hours: Hours) -> bool {
    hour < hours.morning_start
}

/// Whether a reading at the given hour belongs to the previous day.
pub fn counts_as_previous_day(hour: u32, hours: &Hours) -> (r: bool)
    ensures
        r == spec_counts_as_previous_day(hour, *hours),
{
    hour < hours.morning_start
}

impl DailyBloodPressureMeasurements {
    /// Slots a reading into its day part: the evening slot for a
    /// reading in the night or after the evening start, the morning
    /// and midday slots for their windows; each slot keeps its first
    /// reading, and everything else is kept aside in arrival order.
    pub fn slot(&mut self, measurement: BloodPressureMeasurement, this_hour: u32, hours: &Hours)
        ensures
            final(self).date_string == old(self).date_string,
            if this_hour < hours.morning_start && old(self).evening is None {
                &&& final(self).evening == Some(measurement)
                &&& final(self).morning == old(self).morning
                &&& final(self).midday == old(self).midday
                &&& final(self).other == old(self).other
            } else if hours.morning_start <= this_hour < hours.morning_end && old(
                self,
            ).morning is None {
                &&& final(self).morning == Some(measurement)
                &&& final(self).midday == old(self).midday
                &&& final(self).evening == old(self).evening
                &&& final(self).other == old(self).other
            } else if hours.midday_start <= this_hour < hours.midday_end && old(
                self,
            ).midday is None {
                &&& final(self).midday == Some(measurement)
                &&& final(self).morning == old(self).morning
                &&& final(self).evening == old(self).evening
                &&& final(self).other == old(self).other
            } else if this_hour >= hours.evening_start && old(self).evening is None {
                &&& final(self).evening == Some(measurement)
                &&& final(self).morning == old(self).morning
                &&& final(self).midday == old(self).midday
                &&& final(self).other == old(self).other
            } else {
                &&& final(self).other@ == old(self).other@.push(measurement)
                &&& final(self).morning == old(self).morning
                &&& final(self).midday == old(self).midday
                &&& final(self).evening == old(self).evening
            },
    {
        if this_hour < hours.morning_start && self.evening.is_none() {
            // night: counts as the evening of the previous day
            self.evening = Some(measurement);
        } else if this_hour >= hours.morning_start && this_hour < hours.morning_end
            && self.morning.is_none() {
            self.morning = Some(measurement);
        } else if this_hour >= hours.midday_start && this_hour < hours.midday_end
            && self.midday.is_none() {
            self.midday = Some(measurement);
        } else if this_hour >= hours.evening_start && self.evening.is_none() {
            self.evening = Some(measurement);
        } else {
            self.other.push(measurement);
        }
    }
}

} // verus!
