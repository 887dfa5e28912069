//! Aggregation over a window of measurements of one type: extrema,
//! average and quasi-quantiles, and the assembled statistics bundle.
//!
//! Every entry point takes a non-empty window seriously: with no
//! measurements there is no statistics bundle (`None`), never a
//! default-valued record.

use vstd::prelude::*;
use crate::model::{MeasurementOps, MeasurementStatistics};

verus! {

/// The fold of the field-by-field maximum over a non-empty window,
/// from the first element up.
pub open spec fn fold_values_max<T: MeasurementOps>(s: Seq<T>) -> T
    recommends
        s.len() > 0,
    decreases s.len(),
{
    if s.len() <= 1 {
        s[0]
    } else {
        T::spec_values_max(fold_values_max(s.drop_last()), s.last())
    }
}

/// The fold of the field-by-field minimum over a non-empty window,
/// from the first element up.
pub open spec fn fold_values_min<T: MeasurementOps>(s: Seq<T>) -> T
    recommends
        s.len() > 0,
    decreases s.len(),
{
    if s.len() <= 1 {
        s[0]
    } else {
        T::spec_values_min(fold_values_min(s.drop_last()), s.last())
    }
}

/// The field-by-field minimum and maximum of a window, in a single
/// pass; `None` exactly for an empty window.
pub fn aggregate_extrema<T: MeasurementOps>(measurements: &[T]) -> (r: Option<(T, T)>)
    requires
        forall|k: int| 0 <= k < measurements@.len() ==> (#[trigger] measurements@[k]).valid(),
    ensures
        measurements@.len() == 0 <==> r is None,
        r matches Some(mm) ==> {
            &&& mm.0 == fold_values_min(measurements@)
            &&& mm.1 == fold_values_max(measurements@)
            &&& mm.0.valid()
            &&& mm.1.valid()
        },
{
    let ghost s = measurements@;
    let n = measurements.len();
    if n == 0 {
        return None;
    }
    let mut mn = measurements[0];
    let mut mx = measurements[0];
    let mut i: usize = 1;
    proof {
        assert(s.take(1)[0] == s[0]);
    }
    while i < n
        invariant
            1 <= i <= n,
            n == s.len(),
            s == measurements@,
            forall|k: int| 0 <= k < s.len() ==> (#[trigger] s[k]).valid(),
            mn == fold_values_min(s.take(i as int)),
            mx == fold_values_max(s.take(i as int)),
            mn.valid(),
            mx.valid(),
        decreases n - i,
    {
        let m = measurements[i];
        proof {
            assert(s.take(i + 1).drop_last() =~= s.take(i as int));
            assert(s.take(i + 1).last() == s[i as int]);
        }
        mn = mn.values_min(&m);
        mx = mx.values_max(&m);
        i = i + 1;
    }
    proof {
        assert(s.take(n as int) =~= s);
    }
    Some((mn, mx))
}

/// The field-by-field average of a window; `None` for an empty window
/// and when an intermediate value cannot be represented.
pub fn aggregate_average<T: MeasurementOps>(measurements: &[T]) -> (r: Option<T>)
    requires
        measurements@.len() <= i32::MAX,
        forall|k: int| 0 <= k < measurements@.len() ==> (#[trigger] measurements@[k]).valid(),
    ensures
        r == if measurements@.len() == 0 {
            None::<T>
        } else {
            T::spec_average(measurements@)
        },
        r matches Some(m) ==> m.valid(),
{
    if measurements.len() == 0 {
        return None;
    }
    T::average(measurements)
}

/// The field-by-field quasi-quantile of a window; `None` exactly for
/// an empty window.
pub fn aggregate_quasi_n_tile<T: MeasurementOps>(measurements: &[T], n_num: usize, n_den: usize) -> (r:
    Option<T>)
    requires
        n_den > 0,
        n_num <= n_den,
        ((measurements@.len() - 1) as int) * (n_num as int) <= usize::MAX as int,
        forall|k: int| 0 <= k < measurements@.len() ==> (#[trigger] measurements@[k]).valid(),
    ensures
        measurements@.len() == 0 <==> r is None,
        r matches Some(m) ==> m == T::spec_quasi_n_tile(
            measurements@,
            n_num as int,
            n_den as int,
        ) && m.valid(),
{
    if measurements.len() == 0 {
        return None;
    }
    Some(T::quasi_n_tile(measurements, n_num, n_den))
}

/// The statistics bundle of a window: maximum, upper quasi-quartile,
/// average, quasi-median, lower quasi-quartile and minimum.  `None`
/// for an empty window, and when an average cannot be represented.
pub fn aggregate_statistics<T: MeasurementOps>(measurements: &[T]) -> (r: Option<
    MeasurementStatistics<T>,
>)
    requires
        measurements@.len() <= i32::MAX,
        ((measurements@.len() - 1) as int) * 3 <= usize::MAX as int,
        forall|k: int| 0 <= k < measurements@.len() ==> (#[trigger] measurements@[k]).valid(),
    ensures
        r matches Some(st) ==> {
            &&& measurements@.len() > 0
            &&& st.maximum == fold_values_max(measurements@)
            &&& st.minimum == fold_values_min(measurements@)
            &&& Some(st.average) == T::spec_average(measurements@)
            &&& st.quasi_q1 == T::spec_quasi_n_tile(measurements@, 1, 4)
            &&& st.quasi_q2 == T::spec_quasi_n_tile(measurements@, 1, 2)
            &&& st.quasi_q3 == T::spec_quasi_n_tile(measurements@, 3, 4)
        },
        r is None <==> measurements@.len() == 0 || T::spec_average(measurements@) is None,
{
    let extrema = match aggregate_extrema(measurements) {
        Some(e) => e,
        None => {
            return None;
        },
    };
    let average = match T::average(measurements) {
        Some(a) => a,
        None => {
            return None;
        },
    };
    proof {
        assert(((measurements@.len() - 1) as int) * 1 <= ((measurements@.len() - 1) as int) * 3)
            by (nonlinear_arith)
            requires
                measurements@.len() >= 1,
        ;
    }
    let quasi_q1 = T::quasi_n_tile(measurements, 1, 4);
    let quasi_q2 = T::quasi_n_tile(measurements, 1, 2);
    let quasi_q3 = T::quasi_n_tile(measurements, 3, 4);
    Some(
        MeasurementStatistics {
            maximum: extrema.1,
            quasi_q3,
            average,
            quasi_q2,
            quasi_q1,
            minimum: extrema.0,
        },
    )
}

} // verus!
