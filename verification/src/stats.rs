//! Field-level statistics helpers: overflow-checked sums, exact
//! averages, verified sorting and the quasi-quantile index.

use vstd::prelude::*;
use vstd::relations::{sorted_by, total_ordering};
use vstd::seq_lib::lemma_sorted_unique;
use crate::fraction::{
    Fraction, frac_le_total, frac_order, in_i32, le_total, lemma_frac_order_total, spec_add,
    spec_make,
};

verus! {

/// The usual order on 32-bit integers, as a first-class relation.
pub open spec fn int_le() -> spec_fn(i32, i32) -> bool {
    |a: i32, b: i32| a <= b
}

/// The integer order is total.
pub proof fn lemma_int_le_total()
    ensures
        total_ordering(int_le()),
{
}

/// Sorts 32-bit integers ascending; the result is the sorted
/// permutation of the input.
pub fn sort_i32(v: &Vec<i32>) -> (r: Vec<i32>)
    ensures
        r@ == v@.sort_by(int_le()),
        r@.to_multiset() == v@.to_multiset(),
        sorted_by(r@, int_le()),
        r@.len() == v@.len(),
{
    broadcast use vstd::seq_lib::group_to_multiset_ensures;

    let mut out: Vec<i32> = Vec::new();
    let mut i: usize = 0;
    while i < v.len()
        invariant
            0 <= i <= v@.len(),
            sorted_by(out@, int_le()),
            out@.to_multiset() == v@.take(i as int).to_multiset(),
            out@.len() == i,
        decreases v@.len() - i,
    {
        let x = v[i];
        let mut pos: usize = 0;
        while pos < out.len() && out[pos] <= x
            invariant
                0 <= pos <= out@.len(),
                forall|k: int| 0 <= k < pos ==> out@[k] <= x,
            decreases out@.len() - pos,
        {
            pos = pos + 1;
        }
        let ghost old_out = out@;
        out.insert(pos, x);
        proof {
            assert(v@.take(i + 1).drop_last() =~= v@.take(i as int));
            assert(v@.take(i + 1) =~= v@.take(i as int).push(x));
            vstd::seq_lib::to_multiset_insert(old_out, pos as int, x);
            assert(out@.to_multiset() =~= old_out.to_multiset().insert(x));
            vstd::seq_lib::to_multiset_build(v@.take(i as int), x);
            assert(out@.to_multiset() =~= v@.take(i + 1).to_multiset());
            assert forall|a: int, b: int| 0 <= a < b < out@.len() implies int_le()(
                out@[a],
                out@[b],
            ) by {
                if b < pos {
                    assert(out@[a] == old_out[a] && out@[b] == old_out[b]);
                } else if a < pos && b == pos {
                    assert(out@[b] == x && out@[a] == old_out[a]);
                } else if a < pos && b > pos {
                    assert(out@[a] == old_out[a] && out@[b] == old_out[b - 1]);
                } else if a == pos {
                    assert(out@[a] == x && out@[b] == old_out[b - 1]);
                    assert(pos < old_out.len() ==> x < old_out[pos as int]);
                    assert(pos < b - 1 ==> int_le()(old_out[pos as int], old_out[b - 1]));
                } else {
                    assert(out@[a] == old_out[a - 1] && out@[b] == old_out[b - 1]);
                }
            }
        }
        i = i + 1;
    }
    proof {
        assert(v@.take(v@.len() as int) =~= v@);
        lemma_int_le_total();
        v@.lemma_sort_by_ensures(int_le());
        lemma_sorted_unique(out@, v@.sort_by(int_le()), int_le());
    }
    out
}

/// Sorts fractions by rational value; the result is the sorted
/// permutation of the input.
pub fn sort_frac(v: &Vec<Fraction>) -> (r: Vec<Fraction>)
    requires
        forall|k: int| 0 <= k < v@.len() ==> (#[trigger] v@[k]).wf(),
    ensures
        r@ == v@.sort_by(frac_order()),
        r@.to_multiset() == v@.to_multiset(),
        sorted_by(r@, frac_order()),
        r@.len() == v@.len(),
        forall|k: int| 0 <= k < r@.len() ==> (#[trigger] r@[k]).wf(),
    decreases v@.len(),
{
    broadcast use vstd::seq_lib::group_to_multiset_ensures;

    let mut out: Vec<Fraction> = Vec::new();
    let mut i: usize = 0;
    while i < v.len()
        invariant
            0 <= i <= v@.len(),
            forall|k: int| 0 <= k < v@.len() ==> (#[trigger] v@[k]).wf(),
            sorted_by(out@, frac_order()),
            out@.to_multiset() == v@.take(i as int).to_multiset(),
            out@.len() == i,
            forall|k: int| 0 <= k < out@.len() ==> (#[trigger] out@[k]).wf(),
        decreases v@.len() - i,
    {
        let x = v[i];
        let mut pos: usize = 0;
        while pos < out.len() && le_total(&out[pos], &x)
            invariant
                0 <= pos <= out@.len(),
                forall|k: int| 0 <= k < out@.len() ==> (#[trigger] out@[k]).wf(),
                x.wf(),
                forall|k: int| 0 <= k < pos ==> frac_le_total(#[trigger] out@[k], x),
            decreases out@.len() - pos,
        {
            pos = pos + 1;
        }
        let ghost old_out = out@;
        out.insert(pos, x);
        proof {
            lemma_frac_order_total();
            assert(v@.take(i + 1).drop_last() =~= v@.take(i as int));
            assert(v@.take(i + 1) =~= v@.take(i as int).push(x));
            vstd::seq_lib::to_multiset_insert(old_out, pos as int, x);
            assert(out@.to_multiset() =~= old_out.to_multiset().insert(x));
            vstd::seq_lib::to_multiset_build(v@.take(i as int), x);
            assert(out@.to_multiset() =~= v@.take(i + 1).to_multiset());
            assert forall|a: int, b: int| 0 <= a < b < out@.len() implies frac_order()(
                out@[a],
                out@[b],
            ) by {
                let leq = frac_order();
                if b < pos {
                    assert(out@[a] == old_out[a] && out@[b] == old_out[b]);
                } else if a < pos && b == pos {
                    assert(out@[b] == x && out@[a] == old_out[a]);
                } else if a < pos && b > pos {
                    assert(out@[a] == old_out[a] && out@[b] == old_out[b - 1]);
                } else if a == pos {
                    assert(out@[a] == x && out@[b] == old_out[b - 1]);
                    assert(pos < old_out.len() ==> !frac_le_total(old_out[pos as int], x));
                    assert(!leq(old_out[pos as int], x) ==> leq(x, old_out[pos as int]));
                    assert(pos < b - 1 ==> leq(old_out[pos as int], old_out[b - 1]));
                } else {
                    assert(out@[a] == old_out[a - 1] && out@[b] == old_out[b - 1]);
                }
            }
        }
        i = i + 1;
    }
    proof {
        assert(v@.take(v@.len() as int) =~= v@);
        lemma_frac_order_total();
        v@.lemma_sort_by_ensures(frac_order());
        lemma_sorted_unique(out@, v@.sort_by(frac_order()), frac_order());
    }
    out
}

/// The sum of 32-bit integers, or `None` as soon as a prefix sum
/// leaves the range.
pub open spec fn spec_sum_i32(s: Seq<i32>) -> Option<int>
    decreases s.len(),
{
    if s.len() == 0 {
        Some(0)
    } else {
        match spec_sum_i32(s.drop_last()) {
            Some(acc) => if in_i32(acc + s.last()) {
                Some(acc + s.last())
            } else {
                None
            },
            None => None,
        }
    }
}

/// Sums 32-bit integers with an explicit overflow report.
pub fn sum_i32(v: &Vec<i32>) -> (r: Option<i32>)
    ensures
        match r {
            Some(t) => spec_sum_i32(v@) == Some(t as int),
            None => spec_sum_i32(v@) is None,
        },
{
    let mut acc: i32 = 0;
    let mut i: usize = 0;
    while i < v.len()
        invariant
            0 <= i <= v@.len(),
            spec_sum_i32(v@.take(i as int)) == Some(acc as int),
        decreases v@.len() - i,
    {
        proof {
            assert(v@.take(i + 1).drop_last() =~= v@.take(i as int));
        }
        let x = v[i];
        if x >= 0 {
            if acc > i32::MAX - x {
                proof {
                    lemma_sum_i32_none(v@, i + 1);
                }
                return None;
            }
        } else {
            if acc < i32::MIN - x {
                proof {
                    lemma_sum_i32_none(v@, i + 1);
                }
                return None;
            }
        }
        acc = acc + x;
        i = i + 1;
    }
    proof {
        assert(v@.take(v@.len() as int) =~= v@);
    }
    Some(acc)
}

/// Once a prefix sum overflows, the whole sum overflows.
proof fn lemma_sum_i32_none(s: Seq<i32>, j: int)
    requires
        0 <= j <= s.len(),
        spec_sum_i32(s.take(j)) is None,
    ensures
        spec_sum_i32(s) is None,
    decreases s.len() - j,
{
    if j < s.len() {
        assert(s.take(j + 1).drop_last() =~= s.take(j));
        lemma_sum_i32_none(s, j + 1);
    } else {
        assert(s.take(j) =~= s);
    }
}

/// The zero fraction.
pub open spec fn frac_zero() -> Fraction {
    spec_make(0, 1)->Some_0
}

/// The sum of fractions in exact arithmetic, or `None` as soon as a
/// prefix sum cannot be represented.
pub open spec fn spec_sum_frac(s: Seq<Fraction>) -> Option<Fraction>
    decreases s.len(),
{
    if s.len() == 0 {
        Some(frac_zero())
    } else {
        match spec_sum_frac(s.drop_last()) {
            Some(acc) => spec_add(acc, s.last()),
            None => None,
        }
    }
}

/// Sums fractions exactly with an explicit overflow report.
pub fn sum_frac(v: &Vec<Fraction>) -> (r: Option<Fraction>)
    requires
        forall|k: int| 0 <= k < v@.len() ==> (#[trigger] v@[k]).wf(),
    ensures
        r == spec_sum_frac(v@),
        r matches Some(t) ==> t.wf(),
{
    proof {
        crate::fraction::lemma_spec_make_fits(0, 1);
        crate::fraction::lemma_spec_make(0, 1);
    }
    let mut acc = Fraction::from_i32(0);
    proof {
        crate::fraction::lemma_rat_eq_wf_unique(acc, frac_zero());
    }
    let mut i: usize = 0;
    while i < v.len()
        invariant
            0 <= i <= v@.len(),
            forall|k: int| 0 <= k < v@.len() ==> (#[trigger] v@[k]).wf(),
            spec_sum_frac(v@.take(i as int)) == Some(acc),
            acc.wf(),
        decreases v@.len() - i,
    {
        proof {
            assert(v@.take(i + 1).drop_last() =~= v@.take(i as int));
        }
        let x = v[i];
        acc = match acc.checked_add(&x) {
            Some(a) => a,
            None => {
                proof {
                    lemma_sum_frac_none(v@, i + 1);
                }
                return None;
            },
        };
        i = i + 1;
    }
    proof {
        assert(v@.take(v@.len() as int) =~= v@);
    }
    Some(acc)
}

/// Once a prefix sum fails, the whole sum fails.
proof fn lemma_sum_frac_none(s: Seq<Fraction>, j: int)
    requires
        0 <= j <= s.len(),
        spec_sum_frac(s.take(j)) is None,
    ensures
        spec_sum_frac(s) is None,
    decreases s.len() - j,
{
    if j < s.len() {
        assert(s.take(j + 1).drop_last() =~= s.take(j));
        lemma_sum_frac_none(s, j + 1);
    } else {
        assert(s.take(j) =~= s);
    }
}

/// Truncating division (the machine behavior of signed division)
/// for a positive divisor.
pub open spec fn div_trunc(a: int, b: int) -> int
    recommends
        b > 0,
{
    if a >= 0 {
        a / b
    } else {
        -((-a) / b)
    }
}

/// Divides a 32-bit value by a positive count, truncating toward
/// zero.
pub fn div_trunc_i32(a: i32, b: i32) -> (r: i32)
    requires
        b > 0,
    ensures
        r as int == div_trunc(a as int, b as int),
{
    if a >= 0 {
        let q = (a as u64) / (b as u64);
        q as i32
    } else {
        let m = ((-(a as i64)) as u64) / (b as u64);
        proof {
            assert((-(a as int)) / (b as int) <= -(a as int)) by (nonlinear_arith)
                requires
                    a < 0,
                    b > 0,
            ;
        }
        (-(m as i64)) as i32
    }
}

/// The truncated average of 32-bit integers: the checked sum divided
/// by the count.
pub open spec fn spec_avg_i32(s: Seq<i32>) -> Option<i32>
    recommends
        s.len() > 0,
{
    match spec_sum_i32(s) {
        Some(t) => Some(div_trunc(t, s.len() as int) as i32),
        None => None,
    }
}

/// Averages 32-bit integers; `None` exactly when the sum overflows.
pub fn avg_i32(v: &Vec<i32>) -> (r: Option<i32>)
    requires
        v@.len() > 0,
        v@.len() <= i32::MAX,
    ensures
        r == spec_avg_i32(v@),
{
    let t = match sum_i32(v) {
        Some(t) => t,
        None => {
            return None;
        },
    };
    let q = div_trunc_i32(t, v.len() as i32);
    proof {
        let ti = t as int;
        let li = v@.len() as int;
        if ti >= 0 {
            assert(0 <= ti / li <= ti) by (nonlinear_arith)
                requires
                    ti >= 0,
                    li > 0,
            ;
        } else {
            assert(0 <= (-ti) / li <= -ti) by (nonlinear_arith)
                requires
                    ti < 0,
                    li > 0,
            ;
        }
    }
    Some(q)
}

/// The exact average of fractions: the checked sum divided by the
/// count.
pub open spec fn spec_avg_frac(s: Seq<Fraction>) -> Option<Fraction>
    recommends
        0 < s.len() <= i32::MAX,
{
    match spec_sum_frac(s) {
        Some(t) => spec_make(t.num(), t.den() * s.len()),
        None => None,
    }
}

/// Averages fractions exactly; `None` exactly when an intermediate
/// cannot be represented.
pub fn avg_frac(v: &Vec<Fraction>) -> (r: Option<Fraction>)
    requires
        0 < v@.len() <= i32::MAX,
        forall|k: int| 0 <= k < v@.len() ==> (#[trigger] v@[k]).wf(),
    ensures
        r == spec_avg_frac(v@),
        r matches Some(t) ==> t.wf(),
{
    let t = match sum_frac(v) {
        Some(t) => t,
        None => {
            return None;
        },
    };
    let len_frac = Fraction::from_i32(v.len() as i32);
    let r = t.checked_div(&len_frac);
    proof {
        assert(t.num() * len_frac.den() == t.num());
    }
    r
}

/// The quasi-quantile index: `floor((count - 1) * num / den)`, and
/// zero for an empty population.
pub open spec fn quasi_index(count: int, num: int, den: int) -> int
    recommends
        den > 0,
{
    if count == 0 {
        0
    } else {
        ((count - 1) * num) / den
    }
}

/// Computes the quasi-quantile index by truncating integer division.
pub fn quasi_n_tile_index(count: usize, n_num: usize, n_den: usize) -> (r: usize)
    requires
        n_den > 0,
        n_num <= n_den,
        count > 0 ==> ((count - 1) as int) * (n_num as int) <= usize::MAX as int,
    ensures
        r as int == quasi_index(count as int, n_num as int, n_den as int),
        count > 0 ==> r < count,
{
    if count == 0 {
        return 0;
    }
    let scaled = (count - 1) * n_num;
    let idx = scaled / n_den;
    proof {
        let c = (count - 1) as int;
        let nn = n_num as int;
        let nd = n_den as int;
        assert(c * nn <= c * nd) by (nonlinear_arith)
            requires
                nn <= nd,
                c >= 0,
        ;
        vstd::arithmetic::div_mod::lemma_div_is_ordered(c * nn, c * nd, nd);
        assert(c * nd / nd == c) by (nonlinear_arith)
            requires
                nd > 0,
        ;
    }
    idx
}

/// The element at the quasi-quantile index of the ascending sort.
pub open spec fn sorted_select_i32(s: Seq<i32>, num: int, den: int) -> i32
    recommends
        s.len() > 0,
        den > 0,
{
    s.sort_by(int_le())[quasi_index(s.len() as int, num, den)]
}

/// The element at the quasi-quantile index of the fractions sorted by
/// rational value.
pub open spec fn sorted_select_frac(s: Seq<Fraction>, num: int, den: int) -> Fraction
    recommends
        s.len() > 0,
        den > 0,
{
    s.sort_by(frac_order())[quasi_index(s.len() as int, num, den)]
}

/// Sorts and selects the quasi-quantile element of 32-bit values.
pub fn select_i32(v: &Vec<i32>, n_num: usize, n_den: usize) -> (r: i32)
    requires
        v@.len() > 0,
        n_den > 0,
        n_num <= n_den,
        ((v@.len() - 1) as int) * (n_num as int) <= usize::MAX as int,
    ensures
        r == sorted_select_i32(v@, n_num as int, n_den as int),
{
    let sorted = sort_i32(v);
    let idx = quasi_n_tile_index(v.len(), n_num, n_den);
    sorted[idx]
}

/// Sorts and selects the quasi-quantile element of fractions.
pub fn select_frac(v: &Vec<Fraction>, n_num: usize, n_den: usize) -> (r: Fraction)
    requires
        v@.len() > 0,
        n_den > 0,
        n_num <= n_den,
        ((v@.len() - 1) as int) * (n_num as int) <= usize::MAX as int,
        forall|k: int| 0 <= k < v@.len() ==> (#[trigger] v@[k]).wf(),
    ensures
        r == sorted_select_frac(v@, n_num as int, n_den as int),
        r.wf(),
{
    let sorted = sort_frac(v);
    let idx = quasi_n_tile_index(v.len(), n_num, n_den);
    sorted[idx]
}

/// The larger of two optional values: a present value always beats an
/// absent one.
pub open spec fn spec_optional_max_i32(a: Option<i32>, b: Option<i32>) -> Option<i32> {
    match (a, b) {
        (Some(x), Some(y)) => if x <= y {
            Some(y)
        } else {
            Some(x)
        },
        (Some(x), None) => Some(x),
        (None, Some(y)) => Some(y),
        (None, None) => None,
    }
}

/// The smaller of two optional values: a present value always beats
/// an absent one.
pub open spec fn spec_optional_min_i32(a: Option<i32>, b: Option<i32>) -> Option<i32> {
    match (a, b) {
        (Some(x), Some(y)) => if x <= y {
            Some(x)
        } else {
            Some(y)
        },
        (Some(x), None) => Some(x),
        (None, Some(y)) => Some(y),
        (None, None) => None,
    }
}

/// The larger of two optional values; absent only when both are
/// absent.
pub fn optional_max(a: Option<i32>, b: Option<i32>) -> (r: Option<i32>)
    ensures
        r == spec_optional_max_i32(a, b),
{
    match (a, b) {
        (Some(x), Some(y)) => if x <= y {
            Some(y)
        } else {
            Some(x)
        },
        (Some(x), None) => Some(x),
        (None, Some(y)) => Some(y),
        (None, None) => None,
    }
}

/// The smaller of two optional values; absent only when both are
/// absent.
pub fn optional_min(a: Option<i32>, b: Option<i32>) -> (r: Option<i32>)
    ensures
        r == spec_optional_min_i32(a, b),
{
    match (a, b) {
        (Some(x), Some(y)) => if x <= y {
            Some(x)
        } else {
            Some(y)
        },
        (Some(x), None) => Some(x),
        (None, Some(y)) => Some(y),
        (None, None) => None,
    }
}

/// The larger of two optional fractions by rational value.
pub open spec fn spec_optional_max_frac(a: Option<Fraction>, b: Option<Fraction>) -> Option<
    Fraction,
> {
    match (a, b) {
        (Some(x), Some(y)) => Some(crate::fraction::spec_frac_max(x, y)),
        (Some(x), None) => Some(x),
        (None, Some(y)) => Some(y),
        (None, None) => None,
    }
}

/// The smaller of two optional fractions by rational value.
pub open spec fn spec_optional_min_frac(a: Option<Fraction>, b: Option<Fraction>) -> Option<
    Fraction,
> {
    match (a, b) {
        (Some(x), Some(y)) => Some(crate::fraction::spec_frac_min(x, y)),
        (Some(x), None) => Some(x),
        (None, Some(y)) => Some(y),
        (None, None) => None,
    }
}

/// The larger of two optional fractions; absent only when both are
/// absent.
pub fn optional_max_frac(a: Option<Fraction>, b: Option<Fraction>) -> (r: Option<Fraction>)
    requires
        a matches Some(x) ==> x.wf(),
        b matches Some(y) ==> y.wf(),
    ensures
        r == spec_optional_max_frac(a, b),
        r matches Some(f) ==> f.wf(),
{
    match (a, b) {
        (Some(x), Some(y)) => Some(crate::fraction::frac_max(&x, &y)),
        (Some(x), None) => Some(x),
        (None, Some(y)) => Some(y),
        (None, None) => None,
    }
}

/// The smaller of two optional fractions; absent only when both are
/// absent.
pub fn optional_min_frac(a: Option<Fraction>, b: Option<Fraction>) -> (r: Option<Fraction>)
    requires
        a matches Some(x) ==> x.wf(),
        b matches Some(y) ==> y.wf(),
    ensures
        r == spec_optional_min_frac(a, b),
        r matches Some(f) ==> f.wf(),
{
    match (a, b) {
        (Some(x), Some(y)) => Some(crate::fraction::frac_min(&x, &y)),
        (Some(x), None) => Some(x),
        (None, Some(y)) => Some(y),
        (None, None) => None,
    }
}

/// The values present in a sequence of optional values, in order.
pub open spec fn present_values<T>(s: Seq<Option<T>>) -> Seq<T>
    decreases s.len(),
{
    if s.len() == 0 {
        Seq::empty()
    } else {
        match s.last() {
            Some(x) => present_values(s.drop_last()).push(x),
            None => present_values(s.drop_last()),
        }
    }
}

/// The average of a single value is that value.
pub proof fn lemma_avg_i32_singleton(x: i32)
    ensures
        spec_avg_i32(seq![x]) == Some(x),
{
    let s = seq![x];
    assert(s.drop_last() =~= Seq::<i32>::empty());
    assert(spec_sum_i32(s) == Some(x as int)) by {
        reveal_with_fuel(spec_sum_i32, 3);
    }
    assert(div_trunc(x as int, 1) == x as int) by {
        if x >= 0 {
            assert(x as int / 1int == x as int);
        } else {
            assert((-(x as int)) / 1int == -(x as int));
        }
    }
}

/// The exact average of a single fraction is that fraction.
pub proof fn lemma_avg_frac_singleton(f: Fraction)
    requires
        f.wf(),
    ensures
        spec_avg_frac(seq![f]) == Some(f),
{
    let s = seq![f];
    assert(s.drop_last() =~= Seq::<Fraction>::empty());
    crate::fraction::lemma_spec_make_fits(0, 1);
    crate::fraction::lemma_spec_make(0, 1);
    let z = frac_zero();
    assert(crate::arith::gcd(0nat, 1nat) == crate::arith::gcd(1nat, 0nat)) by {
        assert(0nat % 1nat == 0);
    }
    assert(crate::arith::gcd(1nat, 0nat) == 1);
    assert(crate::fraction::canon_num(0, 1) == 0);
    assert(crate::fraction::canon_den(0, 1) == 1);
    assert(z.num() == 0 && z.den() == 1);
    assert(spec_sum_frac(s) == spec_add(z, f)) by {
        reveal_with_fuel(spec_sum_frac, 3);
    }
    assert(z.num() * f.den() + f.num() * z.den() == f.num());
    assert(z.den() * f.den() == f.den());
    crate::fraction::lemma_spec_make_canonical(f);
    assert(spec_sum_frac(s) == Some(f));
    assert(f.den() * s.len() == f.den());
}

/// On an odd number of already sorted values, the quasi-median is the
/// exact middle value.
pub proof fn lemma_select_middle_i32(s: Seq<i32>)
    requires
        s.len() % 2 == 1,
        sorted_by(s, int_le()),
    ensures
        sorted_select_i32(s, 1, 2) == s[(s.len() - 1) as int / 2],
{
    lemma_int_le_total();
    s.lemma_sort_by_ensures(int_le());
    lemma_sorted_unique(s, s.sort_by(int_le()), int_le());
    assert(quasi_index(s.len() as int, 1, 2) == (s.len() - 1) as int / 2) by {
        assert(((s.len() - 1) as int) * 1 == (s.len() - 1) as int);
    }
}

/// On an odd number of fractions already sorted by rational value,
/// the quasi-median is the exact middle value.
pub proof fn lemma_select_middle_frac(s: Seq<Fraction>)
    requires
        s.len() % 2 == 1,
        sorted_by(s, frac_order()),
    ensures
        sorted_select_frac(s, 1, 2) == s[(s.len() - 1) as int / 2],
{
    lemma_frac_order_total();
    s.lemma_sort_by_ensures(frac_order());
    lemma_sorted_unique(s, s.sort_by(frac_order()), frac_order());
    assert(quasi_index(s.len() as int, 1, 2) == (s.len() - 1) as int / 2) by {
        assert(((s.len() - 1) as int) * 1 == (s.len() - 1) as int);
    }
}

/// No more values are present than there are entries.
pub proof fn lemma_present_values_len<T>(s: Seq<Option<T>>)
    ensures
        present_values(s).len() <= s.len(),
    decreases s.len(),
{
    if s.len() > 0 {
        lemma_present_values_len(s.drop_last());
    }
}

} // verus!
