//! The three passes over a spectrum: ordering, the search for local maxima,
//! and the rating of each maximum against the noise.

use crate::backend::intensities;
use crate::backend::MSPoint;
use crate::scalar::ieee_div;
use crate::scalar::ieee_sub;
use crate::scalar::Scalar;
use vstd::prelude::*;
use vstd::relations::sorted_by;
use vstd::seq_lib::to_multiset_build;
use vstd::seq_lib::to_multiset_contains;
use vstd::seq_lib::to_multiset_insert;
use vstd::seq_lib::to_multiset_len;
use vstd::seq_lib::to_multiset_remove;
use vstd::seq_lib::lemma_sorted_unique;

verus! {

/// The ordinals of a run of numbers.
pub open spec fn ordinals(s: Seq<Scalar>) -> Seq<int> {
    s.map_values(|x: Scalar| x.ord())
}

/// No number is followed by a smaller one.
pub open spec fn ascending(s: Seq<Scalar>) -> bool {
    forall|i: int, j: int| 0 <= i <= j < s.len() ==> s[i].ord() <= s[j].ord()
}

/// The test for a number of ordinal `k`.
pub open spec fn has_ordinal(k: int) -> spec_fn(Scalar) -> bool {
    |x: Scalar| x.ord() == k
}

/// The numbers of `s` whose ordinal is `k`, in the order in which they stand.
pub open spec fn of_ordinal(s: Seq<Scalar>, k: int) -> Seq<Scalar> {
    s.filter(has_ordinal(k))
}

/// Whether `t` is `s` put in ascending order, numbers of one ordinal
/// standing in the order in which they stand in `s`. There is one such `t`
/// for every `s`.
pub open spec fn arranged(s: Seq<Scalar>, t: Seq<Scalar>) -> bool {
    &&& t.len() == s.len()
    &&& ascending(t)
    &&& forall|k: int| #[trigger] of_ordinal(t, k) == of_ordinal(s, k)
}

/// `slice::sort_by_key` of std, keyed by the ordinal: afterwards the vector
/// holds what it held before, in ascending order, and numbers of one ordinal
/// stand in the order in which they stood.
#[verifier::external_body]
fn stable_sort_by_ordinal(arr: &mut Vec<Scalar>)
    ensures
        arranged(old(arr)@, final(arr)@),
        final(arr)@.to_multiset() == old(arr)@.to_multiset(),
{
    arr.sort_by_key(|s| s.key());
}

/// Puts the numbers in ascending order. Numbers that compare equal keep
/// their order.
pub fn sort_in_place(arr: &mut Vec<Scalar>)
    ensures
        arranged(old(arr)@, final(arr)@),
        final(arr)@.to_multiset() == old(arr)@.to_multiset(),
{
    stable_sort_by_ordinal(arr);
}

/// The ordinal at the middle place of `v` once it is put in ascending order:
/// the upper of the two middle places where the length is even.
pub open spec fn upper_median(v: Seq<int>) -> int
    recommends
        v.len() > 0,
{
    v.sort()[(v.len() / 2) as int]
}

/// `m` is one of `vals`, and none of them is smaller.
pub open spec fn is_least(vals: Seq<Scalar>, m: Scalar) -> bool {
    &&& vals.contains(m)
    &&& forall|i: int| 0 <= i < vals.len() ==> m.ord() <= (#[trigger] vals[i]).ord()
}

/// `m` is one of `vals`, and none of them is larger.
pub open spec fn is_greatest(vals: Seq<Scalar>, m: Scalar) -> bool {
    &&& vals.contains(m)
    &&& forall|i: int| 0 <= i < vals.len() ==> (#[trigger] vals[i]).ord() <= m.ord()
}

/// How far each of `vals` lies from `level`, without sign.
pub open spec fn deviations(vals: Seq<Scalar>, level: Scalar) -> Seq<Scalar> {
    vals.map_values(|x: Scalar| Scalar { bits: ieee_sub(x.bits, level.bits) }.spec_abs())
}

/// Two runs that hold the same values hold the same values after each value
/// is sent through `f`.
pub proof fn lemma_map_keeps_contents<A, B>(s: Seq<A>, t: Seq<A>, f: spec_fn(A) -> B)
    requires
        s.to_multiset() == t.to_multiset(),
    ensures
        s.map_values(f).to_multiset() == t.map_values(f).to_multiset(),
    decreases s.len(),
{
    to_multiset_len(s);
    to_multiset_len(t);
    if s.len() == 0 {
        assert(s.map_values(f) =~= t.map_values(f));
    } else {
        let x = s.last();
        assert(s[s.len() - 1] == x);
        to_multiset_contains(s, x);
        to_multiset_contains(t, x);
        let j = choose|j: int| 0 <= j < t.len() && t[j] == x;
        let s1 = s.drop_last();
        let t1 = t.remove(j);
        assert(s1 =~= s.remove(s.len() - 1));
        to_multiset_remove(s, s.len() - 1);
        to_multiset_remove(t, j);
        lemma_map_keeps_contents(s1, t1, f);
        assert(s.map_values(f) =~= s1.map_values(f).push(f(x)));
        assert(t.map_values(f) =~= t1.map_values(f).insert(j, f(x)));
        to_multiset_build(s1.map_values(f), f(x));
        to_multiset_insert(t1.map_values(f), j, f(x));
    }
}

/// A run in ascending order that holds what `s` holds has the ordinals of
/// `s` in ascending order.
pub proof fn lemma_sorted_ordinals(s: Seq<Scalar>, t: Seq<Scalar>)
    requires
        t.to_multiset() == s.to_multiset(),
        ascending(t),
    ensures
        ordinals(t) == ordinals(s).sort(),
{
    let leq = |x: int, y: int| x <= y;
    lemma_map_keeps_contents(t, s, |x: Scalar| x.ord());
    ordinals(s).lemma_sort_ensures();
    assert(sorted_by(ordinals(t), leq));
    lemma_sorted_unique(ordinals(t), ordinals(s).sort(), leq);
}

/// Two runs in ascending order of one length, in which the numbers of each
/// ordinal are the same and stand in the same order, are one run.
pub proof fn lemma_same_runs(a: Seq<Scalar>, b: Seq<Scalar>)
    requires
        a.len() == b.len(),
        ascending(a),
        ascending(b),
        forall|k: int| #[trigger] of_ordinal(a, k) == of_ordinal(b, k),
    ensures
        a == b,
    decreases a.len(),
{
    if a.len() == 0 {
        assert(a =~= b);
    } else {
        let x = a.last();
        let y = b.last();
        let a1 = a.drop_last();
        let b1 = b.drop_last();
        assert(x.ord() == y.ord()) by {
            assert(has_ordinal(x.ord())(a[a.len() - 1]));
            a.lemma_filter_contains(has_ordinal(x.ord()), a.len() - 1);
            assert(of_ordinal(a, x.ord()).contains(x));
            assert(of_ordinal(a, x.ord()) == of_ordinal(b, x.ord()));
            b.lemma_filter_contains_rev(has_ordinal(x.ord()), x);
            let i = choose|i: int| 0 <= i < b.len() && b[i] == x;
            assert(b[i].ord() <= b[b.len() - 1].ord());
            assert(has_ordinal(y.ord())(b[b.len() - 1]));
            b.lemma_filter_contains(has_ordinal(y.ord()), b.len() - 1);
            assert(of_ordinal(b, y.ord()).contains(y));
            assert(of_ordinal(a, y.ord()) == of_ordinal(b, y.ord()));
            a.lemma_filter_contains_rev(has_ordinal(y.ord()), y);
            let j = choose|j: int| 0 <= j < a.len() && a[j] == y;
            assert(a[j].ord() <= a[a.len() - 1].ord());
        }
        assert forall|k: int| #[trigger] of_ordinal(a1, k) == of_ordinal(b1, k) by {
            reveal(Seq::filter);
            assert(of_ordinal(a, k) == of_ordinal(b, k));
            if x.ord() == k {
                assert(of_ordinal(a, k) == of_ordinal(a1, k).push(x));
                assert(of_ordinal(b, k) == of_ordinal(b1, k).push(y));
                assert(of_ordinal(a1, k) =~= of_ordinal(a, k).drop_last());
                assert(of_ordinal(b1, k) =~= of_ordinal(b, k).drop_last());
            } else {
                assert(of_ordinal(a, k) == of_ordinal(a1, k));
                assert(of_ordinal(b, k) == of_ordinal(b1, k));
            }
        }
        assert(x == y) by {
            reveal(Seq::filter);
            let k = x.ord();
            assert(of_ordinal(a, k) == of_ordinal(b, k));
            assert(of_ordinal(a, k) == of_ordinal(a1, k).push(x));
            assert(of_ordinal(b, k) == of_ordinal(b1, k).push(y));
            assert(of_ordinal(a, k).last() == x);
            assert(of_ordinal(b, k).last() == y);
        }
        lemma_same_runs(a1, b1);
        assert(a =~= a1.push(x));
        assert(b =~= b1.push(y));
    }
}

/// A run of numbers can be put in ascending order, equal numbers keeping
/// their order, in one way only.
pub proof fn lemma_arranged_unique(s: Seq<Scalar>, a: Seq<Scalar>, b: Seq<Scalar>)
    requires
        arranged(s, a),
        arranged(s, b),
    ensures
        a == b,
{
    assert forall|k: int| #[trigger] of_ordinal(a, k) == of_ordinal(b, k) by {
        assert(of_ordinal(a, k) == of_ordinal(s, k));
        assert(of_ordinal(b, k) == of_ordinal(s, k));
    }
    lemma_same_runs(a, b);
}

/// Whether the place `j` is among `places`.
pub open spec fn lists(places: Seq<usize>, j: int) -> bool {
    exists|a: int| 0 <= a < places.len() && #[trigger] places[a] == j
}

/// Whether the scan records place `m` of the ordinals `v`: the step to the
/// next place falls, and the step onto `m` did not. The step onto the first
/// place is measured from zero.
pub open spec fn is_maximum(v: Seq<int>, m: int) -> bool {
    &&& 0 <= m
    &&& m + 1 < v.len()
    &&& v[m] > v[m + 1]
    &&& if m == 0 {
        0 <= v[0]
    } else {
        v[m - 1] <= v[m]
    }
}

/// The places of the local maxima, in ascending order.
///
/// A place is recorded on the first falling step after a step that did not
/// fall, so a flat top is recorded at its last sample, and the last sample of
/// the spectrum never is.
pub fn get_maxima(pts: &Vec<MSPoint>) -> (maxima: Vec<usize>)
    ensures
        forall|a: int, b: int| 0 <= a < b < maxima@.len() ==> maxima@[a] < maxima@[b],
        forall|m: int| lists(maxima@, m) <==> is_maximum(ordinals(intensities(pts@)), m),
{
    let ghost v = ordinals(intensities(pts@));
    let mut rising = false;
    let mut last_int = Scalar::zero();
    let mut maxima: Vec<usize> = Vec::new();
    let mut i: usize = 0;
    while i < pts.len()
        invariant
            0 <= i <= pts@.len(),
            v == ordinals(intensities(pts@)),
            v.len() == pts@.len(),
            last_int.ord() == (if i == 0 { 0 } else { v[i - 1] }),
            rising == (i > 0 && (if i == 1 { 0 <= v[0] } else { v[i - 2] <= v[i - 1] })),
            forall|a: int, b: int| 0 <= a < b < maxima@.len() ==> maxima@[a] < maxima@[b],
            forall|a: int| 0 <= a < maxima@.len() ==> maxima@[a] + 1 < i,
            forall|m: int| lists(maxima@, m) <==> is_maximum(v, m) && m + 1 < i,
        decreases pts@.len() - i,
    {
        let pt = pts[i];
        let ghost before = maxima@;
        if last_int.gt(pt.int) {
            if rising {
                maxima.push(i - 1);
                assert(maxima@[maxima@.len() - 1] == i - 1);
                assert forall|m: int| lists(maxima@, m) implies is_maximum(v, m) && m + 1 < i + 1 by {
                    let k = choose|k: int| 0 <= k < maxima@.len() && maxima@[k] == m;
                    if k < before.len() {
                        assert(before[k] == m);
                        assert(lists(before, m));
                    }
                }
                assert forall|m: int| is_maximum(v, m) && m + 1 < i + 1 implies lists(maxima@, m) by {
                    if m + 1 < i {
                        assert(lists(before, m));
                        let k = choose|k: int| 0 <= k < before.len() && before[k] == m;
                        assert(maxima@[k] == m);
                    }
                }
            }
            rising = false;
        } else {
            rising = true;
        }
        last_int = pt.int;
        i += 1;
    }
    maxima
}

/// The ratio written at a maximum: the height of the sample over the noise
/// level, in units of the noise width.
pub open spec fn snr_of(height: Scalar, noise_level: Scalar, noise_width: Scalar) -> Scalar {
    Scalar { bits: ieee_div(ieee_sub(height.bits, noise_level.bits), noise_width.bits) }
}

/// Rates every maximum against the noise. Where the noise has no width,
/// nothing is written.
pub fn update_snrs(
    pts: &mut Vec<MSPoint>,
    maxima: &Vec<usize>,
    noise_level: Scalar,
    noise_width: Scalar,
)
    requires
        forall|a: int| 0 <= a < maxima@.len() ==> maxima@[a] < old(pts)@.len(),
    ensures
        final(pts)@.len() == old(pts)@.len(),
        forall|j: int|
            0 <= j < old(pts)@.len() ==> {
                &&& (#[trigger] final(pts)@[j]).mz == old(pts)@[j].mz
                &&& final(pts)@[j].int == old(pts)@[j].int
                &&& final(pts)@[j].snr == if noise_width.ord() > 0 && lists(maxima@, j) {
                    snr_of(old(pts)@[j].int, noise_level, noise_width)
                } else {
                    old(pts)@[j].snr
                }
            },
{
    if noise_width.gt(Scalar::zero()) {
        let mut a: usize = 0;
        while a < maxima.len()
            invariant
                0 <= a <= maxima@.len(),
                pts@.len() == old(pts)@.len(),
                forall|b: int| 0 <= b < maxima@.len() ==> maxima@[b] < pts@.len(),
                forall|j: int|
                    0 <= j < pts@.len() ==> {
                        &&& (#[trigger] pts@[j]).mz == old(pts)@[j].mz
                        &&& pts@[j].int == old(pts)@[j].int
                        &&& pts@[j].snr == if lists(maxima@.take(a as int), j) {
                            snr_of(old(pts)@[j].int, noise_level, noise_width)
                        } else {
                            old(pts)@[j].snr
                        }
                    },
            decreases maxima@.len() - a,
        {
            let i = maxima[a];
            let pt = pts[i];
            let snr = pt.int.minus(noise_level).over(noise_width);
            pts.set(i, MSPoint { mz: pt.mz, int: pt.int, snr });
            proof {
                let done = maxima@.take(a as int);
                let next = maxima@.take(a + 1);
                assert(next[a as int] == i);
                assert forall|j: int| lists(next, j) <==> (lists(done, j) || j == i) by {
                    if lists(done, j) {
                        let k = choose|k: int| 0 <= k < done.len() && done[k] == j;
                        assert(next[k] == j);
                    }
                    if lists(next, j) && j != i {
                        let k = choose|k: int| 0 <= k < next.len() && next[k] == j;
                        assert(done[k] == j);
                    }
                }
            }
            a += 1;
        }
        assert(maxima@.take(maxima@.len() as int) == maxima@);
    }
}

} // verus!
