//! Spectra, their derived statistics and the peaks chosen in them.

pub mod calcs;
pub mod parser;

use crate::backend::calcs::arranged;
use crate::backend::calcs::ascending;
use crate::backend::calcs::deviations;
use crate::backend::calcs::get_maxima;
use crate::backend::calcs::is_greatest;
use crate::backend::calcs::is_least;
use crate::backend::calcs::is_maximum;
use crate::backend::calcs::lemma_map_keeps_contents;
use crate::backend::calcs::lemma_sorted_ordinals;
use crate::backend::calcs::lists;
use crate::backend::calcs::ordinals;
use crate::backend::calcs::snr_of;
use crate::backend::calcs::sort_in_place;
use crate::backend::calcs::update_snrs;
use crate::backend::calcs::upper_median;
use crate::scalar::ieee_mul;
use crate::scalar::ieee_sub;
use crate::scalar::Scalar;
use crate::scalar::TWO;
use vstd::prelude::*;
use vstd::seq_lib::to_multiset_contains;

verus! {

/// One measured sample.
#[derive(Clone, Copy, Debug, PartialEq, Eq, Structural)]
pub struct MSPoint {
    /// Mass over charge: the key by which a spectrum is ordered.
    pub mz: Scalar,
    /// Measured intensity.
    pub int: Scalar,
    /// Signal-to-noise ratio; other than zero only at local maxima.
    pub snr: Scalar,
}

impl Default for MSPoint {
    fn default() -> (p: MSPoint)
        ensures
            p.mz.bits == 0,
            p.int.bits == 0,
            p.snr.bits == 0,
    {
        MSPoint { mz: Scalar::zero(), int: Scalar::zero(), snr: Scalar::zero() }
    }
}

/// What is known of a spectrum besides its samples. None of it bears on any
/// computation.
#[derive(Clone, Debug)]
pub struct Metadata {
    pub title: String,
    pub operator: String,
    pub contact: String,
    pub institution: String,
    pub instrument: String,
    /// When the spectrum was taken, in seconds since 1970-01-01 00:00:00 UTC.
    pub date: i64,
    pub path: String,
}

/// The intensities of a run of samples, in order.
pub open spec fn intensities(pts: Seq<MSPoint>) -> Seq<Scalar> {
    pts.map_values(|p: MSPoint| p.int)
}

/// The noise width that belongs to `vals` and the noise level `level`: twice
/// the median of the distances from the level.
pub open spec fn width_of(vals: Seq<Scalar>, level: Scalar) -> Scalar {
    Scalar { bits: ieee_mul(upper_median(ordinals(deviations(vals, level))) as u64, TWO) }
}

/// Whether `least`, `middle` and `greatest` are the first, the middle and
/// the last of `vals` put in ascending order, equal numbers keeping their
/// order. Of two middle places the upper one counts.
pub open spec fn ranked(vals: Seq<Scalar>, least: Scalar, middle: Scalar, greatest: Scalar) -> bool {
    exists|t: Seq<Scalar>|
        #![trigger arranged(vals, t)]
        {
            &&& arranged(vals, t)
            &&& least == t[0]
            &&& middle == t[t.len() as int / 2]
            &&& greatest == t[t.len() - 1]
        }
}

/// A spectrum as the contracts see it.
pub struct DatasetView {
    pub metadata: Metadata,
    pub points: Seq<MSPoint>,
    pub peaks: Seq<usize>,
    pub maxima: Seq<usize>,
    pub mz_min: Scalar,
    pub mz_max: Scalar,
    pub int_min: Scalar,
    pub int_max: Scalar,
    pub noise_level: Scalar,
    pub noise_width: Scalar,
    pub visible: bool,
}

impl DatasetView {
    /// What holds of every spectrum at all times: the statistics are those
    /// of the samples, the maxima are the places that the scan records, and
    /// the peaks are places of the spectrum, each listed once.
    pub open spec fn valid(self) -> bool {
        let vals = intensities(self.points);
        &&& self.points.len() > 0
        &&& self.mz_min == self.points[0].mz
        &&& self.mz_max == self.points[self.points.len() - 1].mz
        &&& ranked(vals, self.int_min, self.noise_level, self.int_max)
        &&& is_least(vals, self.int_min)
        &&& is_greatest(vals, self.int_max)
        &&& vals.contains(self.noise_level)
        &&& self.noise_level.ord() == upper_median(ordinals(vals))
        &&& self.noise_width == width_of(vals, self.noise_level)
        &&& forall|a: int, b: int|
            0 <= a < b < self.maxima.len() ==> self.maxima[a] < self.maxima[b]
        &&& forall|m: int| lists(self.maxima, m) <==> is_maximum(ordinals(vals), m)
        &&& forall|a: int| 0 <= a < self.maxima.len() ==> self.maxima[a] < self.points.len()
        &&& forall|a: int| 0 <= a < self.peaks.len() ==> self.peaks[a] < self.points.len()
        &&& self.peaks.no_duplicates()
    }
}

/// One loaded spectrum with its noise model, its local maxima and the peaks
/// chosen in it.
#[derive(Debug)]
pub struct Dataset {
    metadata: Metadata,
    points: Vec<MSPoint>,
    peaks: Vec<usize>,
    maxima: Vec<usize>,
    mz_min: Scalar,
    mz_max: Scalar,
    int_min: Scalar,
    int_max: Scalar,
    noise_level: Scalar,
    noise_width: Scalar,
    visible: bool,
}

impl View for Dataset {
    type V = DatasetView;

    closed spec fn view(&self) -> DatasetView {
        DatasetView {
            metadata: self.metadata,
            points: self.points@,
            peaks: self.peaks@,
            maxima: self.maxima@,
            mz_min: self.mz_min,
            mz_max: self.mz_max,
            int_min: self.int_min,
            int_max: self.int_max,
            noise_level: self.noise_level,
            noise_width: self.noise_width,
            visible: self.visible,
        }
    }
}

/// Why no spectrum could be made of a run of samples.
#[derive(Clone, Copy, Debug, PartialEq, Eq, Structural)]
pub enum DatasetError {
    /// The run holds no sample.
    NoPoints,
}

/// What `Dataset::neww` makes of the samples `pts`: the samples themselves
/// with every maximum rated, no peak chosen, and the spectrum shown.
pub open spec fn constructed(d: DatasetView, md: Metadata, pts: Seq<MSPoint>) -> bool {
    &&& d.valid()
    &&& d.metadata == md
    &&& d.points.len() == pts.len()
    &&& forall|j: int|
        0 <= j < pts.len() ==> {
            &&& (#[trigger] d.points[j]).mz == pts[j].mz
            &&& d.points[j].int == pts[j].int
            &&& d.points[j].snr == if d.noise_width.ord() > 0 && lists(d.maxima, j) {
                snr_of(pts[j].int, d.noise_level, d.noise_width)
            } else {
                pts[j].snr
            }
        }
    &&& d.peaks.len() == 0
    &&& d.visible
}

/// The peaks after the place `i` is chosen in a spectrum of `len` samples:
/// a place of the spectrum that is not yet a peak is added at the end, and
/// nothing else changes anything.
pub open spec fn with_peak(peaks: Seq<usize>, len: nat, i: usize) -> Seq<usize> {
    if i < len && !peaks.contains(i) {
        peaks.push(i)
    } else {
        peaks
    }
}

/// Whether a sample at `mz` lies outside the range from `lower` to `upper`,
/// to which both ends belong.
pub open spec fn outside(mz: Scalar, lower: Scalar, upper: Scalar) -> bool {
    mz.ord() < lower.ord() || mz.ord() > upper.ord()
}

/// The peaks that are left when those in the range from `lower` to `upper`
/// are removed.
pub open spec fn without_range(
    peaks: Seq<usize>,
    points: Seq<MSPoint>,
    lower: Scalar,
    upper: Scalar,
) -> Seq<usize> {
    peaks.filter(|i: usize| outside(points[i as int].mz, lower, upper))
}

/// The intensity that a peak must exceed: the given share of the largest
/// intensity, or the absolute bound where that is larger.
pub open spec fn threshold_of(int_max: Scalar, rel_int: Scalar, abs_int: Scalar) -> Scalar {
    let scaled = Scalar { bits: ieee_mul(int_max.bits, rel_int.bits) };
    if scaled.ord() < abs_int.ord() {
        abs_int
    } else {
        scaled
    }
}

/// Whether a sample stands out: its intensity exceeds the threshold and its
/// signal-to-noise ratio exceeds `ratio`.
pub open spec fn stands_out(p: MSPoint, threshold: Scalar, ratio: Scalar) -> bool {
    p.int.ord() > threshold.ord() && p.snr.ord() > ratio.ord()
}

/// The test for a place whose sample stands out and which is not among
/// `start`.
pub open spec fn is_new_peak(
    start: Seq<usize>,
    points: Seq<MSPoint>,
    threshold: Scalar,
    ratio: Scalar,
) -> spec_fn(usize) -> bool {
    |i: usize| stands_out(points[i as int], threshold, ratio) && !start.contains(i)
}

/// The maxima that stand out and are not among `start`, in their order.
pub open spec fn found(
    start: Seq<usize>,
    maxima: Seq<usize>,
    points: Seq<MSPoint>,
    threshold: Scalar,
    ratio: Scalar,
) -> Seq<usize> {
    maxima.filter(is_new_peak(start, points, threshold, ratio))
}

/// The peaks after a search: those kept from before, then the maxima that
/// stand out and were not among them.
pub open spec fn after_search(
    d: DatasetView,
    ratio: Scalar,
    abs_int: Scalar,
    rel_int: Scalar,
    overwrite: bool,
) -> Seq<usize> {
    let start = if overwrite {
        Seq::<usize>::empty()
    } else {
        d.peaks
    };
    start + found(start, d.maxima, d.points, threshold_of(d.int_max, rel_int, abs_int), ratio)
}

/// Whether `v` holds `i`.
fn holds(v: &Vec<usize>, i: usize) -> (b: bool)
    ensures
        b == v@.contains(i),
{
    let mut a: usize = 0;
    while a < v.len()
        invariant
            0 <= a <= v@.len(),
            forall|k: int| 0 <= k < a ==> v@[k] != i,
        decreases v@.len() - a,
    {
        if v[a] == i {
            return true;
        }
        a += 1;
    }
    false
}

impl Dataset {
    #[verifier::type_invariant]
    spec fn inv(self) -> bool {
        self@.valid()
    }

    /// Makes a spectrum of a run of samples that is not empty.
    pub fn neww(md: Metadata, pts: Vec<MSPoint>) -> (d: Dataset)
        requires
            pts@.len() > 0,
        ensures
            constructed(d@, md, pts@),
            d@.mz_min == pts@[0].mz,
            d@.mz_max == pts@[pts@.len() - 1].mz,
    {
        let mut pts = pts;
        let ghost given = pts@;
        let ghost vals = intensities(given);
        let n = pts.len();
        let mz_min = pts[0].mz;
        let mz_max = pts[n - 1].mz;

        let mut buf: Vec<Scalar> = Vec::with_capacity(n);
        let mut i: usize = 0;
        while i < n
            invariant
                n == pts@.len(),
                0 <= i <= n,
                buf@ == intensities(pts@).take(i as int),
            decreases n - i,
        {
            buf.push(pts[i].int);
            assert(buf@ == intensities(pts@).take(i + 1));
            i += 1;
        }
        assert(buf@ == vals);
        sort_in_place(&mut buf);
        let ghost sorted = buf@;

        let int_min = buf[0];
        let int_max = buf[n - 1];
        let noise_level = buf[n / 2];
        proof {
            lemma_sorted_ordinals(vals, sorted);
            lemma_same_members(sorted, vals);
            assert(sorted.contains(sorted[0]) && sorted.contains(sorted[n - 1]));
            assert(sorted.contains(sorted[n as int / 2]));
            assert forall|j: int| 0 <= j < vals.len() implies int_min.ord() <= (
            #[trigger] vals[j]).ord() <= int_max.ord() by {
                assert(vals.contains(vals[j]));
                let k = choose|k: int| 0 <= k < sorted.len() && sorted[k] == vals[j];
                assert(sorted[0].ord() <= sorted[k].ord() <= sorted[n - 1].ord());
            }
            assert(is_least(vals, int_min));
            assert(is_greatest(vals, int_max));
            assert(arranged(vals, sorted));
            assert(ranked(vals, int_min, noise_level, int_max));
        }

        let mut i: usize = 0;
        while i < n
            invariant
                n == buf@.len(),
                n == sorted.len(),
                0 <= i <= n,
                forall|j: int| 0 <= j < i ==> buf@[j] == deviations(sorted, noise_level)[j],
                forall|j: int| i <= j < n ==> buf@[j] == sorted[j],
            decreases n - i,
        {
            let dev = buf[i].minus(noise_level).abs();
            buf.set(i, dev);
            i += 1;
        }
        assert(buf@ == deviations(sorted, noise_level));
        sort_in_place(&mut buf);
        let spread = buf[n / 2];
        let noise_width = spread.times(Scalar::two());
        proof {
            let devs = deviations(vals, noise_level);
            lemma_map_keeps_contents(
                sorted,
                vals,
                |x: Scalar| Scalar { bits: ieee_sub(x.bits, noise_level.bits) }.spec_abs(),
            );
            lemma_sorted_ordinals(devs, buf@);
            lemma_same_members(buf@, devs);
            assert(buf@.contains(spread));
            assert(!spread.negative());
            assert(spread.bits == upper_median(ordinals(devs)) as u64);
        }

        let maxima = get_maxima(&pts);
        proof {
            assert forall|a: int| 0 <= a < maxima@.len() implies maxima@[a] < pts@.len() by {
                assert(lists(maxima@, maxima@[a] as int));
            }
        }
        update_snrs(&mut pts, &maxima, noise_level, noise_width);
        assert(intensities(pts@) == vals);
        Dataset {
            metadata: md,
            points: pts,
            peaks: Vec::new(),
            maxima,
            mz_min,
            mz_max,
            int_min,
            int_max,
            noise_level,
            noise_width,
            visible: true,
        }
    }

    /// Chooses the sample at place `i` as a peak. A place outside the
    /// spectrum, or one that is a peak already, changes nothing.
    pub fn pushpeak(&mut self, i: usize)
        ensures
            final(self)@.valid(),
            final(self)@ == (DatasetView {
                peaks: with_peak(old(self)@.peaks, old(self)@.points.len(), i),
                ..old(self)@
            }),
    {
        proof {
            use_type_invariant(&*self);
        }
        if self.points.len() > i && !holds(&self.peaks, i) {
            let mut peaks: Vec<usize> = Vec::new();
            std::mem::swap(&mut peaks, &mut self.peaks);
            let ghost before = peaks@;
            peaks.push(i);
            proof {
                assert forall|a: int, b: int|
                    0 <= a < peaks@.len() && 0 <= b < peaks@.len() && a != b implies peaks@[a]
                    != peaks@[b] by {
                    if a < before.len() {
                        assert(before.contains(before[a]));
                    }
                    if b < before.len() {
                        assert(before.contains(before[b]));
                    }
                }
            }
            self.peaks = peaks;
        }
    }

    /// Removes the peaks whose mass over charge lies in the range from
    /// `lower` to `upper`, both ends included. The other peaks keep their
    /// order.
    pub fn removepeaks(&mut self, lower: Scalar, upper: Scalar)
        ensures
            final(self)@.valid(),
            final(self)@ == (DatasetView {
                peaks: without_range(old(self)@.peaks, old(self)@.points, lower, upper),
                ..old(self)@
            }),
    {
        proof {
            use_type_invariant(&*self);
        }
        let ghost keep = |i: usize| outside(self.points@[i as int].mz, lower, upper);
        let mut kept: Vec<usize> = Vec::new();
        let mut a: usize = 0;
        while a < self.peaks.len()
            invariant
                0 <= a <= self.peaks@.len(),
                self@.valid(),
                self@ == old(self)@,
                keep == |i: usize| outside(self.points@[i as int].mz, lower, upper),
                kept@ == self.peaks@.take(a as int).filter(keep),
                kept@.no_duplicates(),
                forall|k: int|
                    0 <= k < kept@.len() ==> self.peaks@.take(a as int).contains(
                        #[trigger] kept@[k],
                    ),
            decreases self.peaks@.len() - a,
        {
            let i = self.peaks[a];
            let ghost done = self.peaks@.take(a as int);
            let ghost before = kept@;
            proof {
                assert(self.peaks@.take(a + 1) == done.push(i));
                done.lemma_filter_push(i, keep);
                assert(!done.contains(i)) by {
                    if done.contains(i) {
                        let k = choose|k: int| 0 <= k < done.len() && done[k] == i;
                        assert(self.peaks@[k] == self.peaks@[a as int]);
                    }
                }
            }
            let mz = self.points[i].mz;
            if mz.lt(lower) || mz.gt(upper) {
                kept.push(i);
                proof {
                    assert forall|x: int, y: int|
                        0 <= x < kept@.len() && 0 <= y < kept@.len() && x
                            != y implies kept@[x] != kept@[y] by {
                        if x < before.len() {
                            assert(done.contains(before[x]));
                        }
                        if y < before.len() {
                            assert(done.contains(before[y]));
                        }
                    }
                }
            }
            proof {
                assert forall|k: int| 0 <= k < kept@.len() implies self.peaks@.take(
                    a + 1,
                ).contains(#[trigger] kept@[k]) by {
                    if k < before.len() {
                        assert(done.contains(before[k]));
                        let j = choose|j: int| 0 <= j < done.len() && done[j] == before[k];
                        assert(self.peaks@.take(a + 1)[j] == kept@[k]);
                    } else {
                        assert(self.peaks@.take(a + 1)[a as int] == kept@[k]);
                    }
                }
            }
            a += 1;
        }
        proof {
            assert(self.peaks@.take(self.peaks@.len() as int) == self.peaks@);
            assert forall|k: int| 0 <= k < kept@.len() implies kept@[k] < self.points@.len() by {
                assert(self.peaks@.contains(kept@[k]));
            }
        }
        self.peaks = kept;
    }

    /// Chooses as peaks the maxima whose intensity exceeds the larger of
    /// `abs_int` and the share `rel_int` of the largest intensity, and whose
    /// signal-to-noise ratio exceeds `ratio`. With `overwrite` the peaks
    /// chosen before are dropped first; without it they stay, and none is
    /// listed twice.
    pub fn find_peaks(&mut self, ratio: Scalar, abs_int: Scalar, rel_int: Scalar, overwrite: bool)
        ensures
            final(self)@.valid(),
            final(self)@ == (DatasetView {
                peaks: after_search(old(self)@, ratio, abs_int, rel_int, overwrite),
                ..old(self)@
            }),
    {
        proof {
            use_type_invariant(&*self);
        }
        if overwrite {
            self.peaks = Vec::new();
        }
        let ghost start = self.peaks@;
        let threshold = self.int_max.times(rel_int).max(abs_int);
        let mut a: usize = 0;
        while a < self.maxima.len()
            invariant
                0 <= a <= self.maxima@.len(),
                self@.valid(),
                start == if overwrite {
                    Seq::<usize>::empty()
                } else {
                    old(self)@.peaks
                },
                threshold == threshold_of(old(self)@.int_max, rel_int, abs_int),
                self@ == (DatasetView {
                    peaks: start + found(
                        start,
                        old(self)@.maxima.take(a as int),
                        old(self)@.points,
                        threshold,
                        ratio,
                    ),
                    ..old(self)@
                }),
            decreases self.maxima@.len() - a,
        {
            let i = self.maxima[a];
            let ghost done = self.maxima@.take(a as int);
            let ghost so_far = found(start, done, self.points@, threshold, ratio);
            proof {
                assert(self@.maxima == self.maxima@ && self@.points == self.points@);
                assert(self@.maxima[a as int] == i);
                assert(self.maxima@.take(a + 1) == done.push(i));
                done.lemma_filter_push(i, is_new_peak(start, self.points@, threshold, ratio));
                assert(!so_far.contains(i)) by {
                    if so_far.contains(i) {
                        done.lemma_filter_contains_rev(
                            is_new_peak(start, self.points@, threshold, ratio),
                            i,
                        );
                        let k = choose|k: int| 0 <= k < done.len() && done[k] == i;
                        assert(self@.maxima[k] < self@.maxima[a as int]);
                    }
                }
                assert((start + so_far).contains(i) <==> start.contains(i)) by {
                    if (start + so_far).contains(i) {
                        let k = choose|k: int|
                            0 <= k < (start + so_far).len() && (start + so_far)[k] == i;
                        if k < start.len() {
                            assert(start[k] == i);
                        } else {
                            assert(so_far[k - start.len()] == i);
                        }
                    }
                    if start.contains(i) {
                        let k = choose|k: int| 0 <= k < start.len() && start[k] == i;
                        assert((start + so_far)[k] == i);
                    }
                }
                assert((start + so_far).push(i) == start + so_far.push(i));
            }
            let pt = self.points[i];
            if pt.int.gt(threshold) && pt.snr.gt(ratio) {
                self.pushpeak(i);
            }
            a += 1;
        }
        assert(self.maxima@.take(self.maxima@.len() as int) == self.maxima@);
    }

    /// Shows or hides the spectrum.
    pub fn set_visible(&mut self, visible: bool)
        ensures
            final(self)@.valid(),
            final(self)@ == (DatasetView { visible, ..old(self)@ }),
    {
        proof {
            use_type_invariant(&*self);
        }
        self.visible = visible;
    }

    pub fn metadata(&self) -> (md: &Metadata)
        ensures
            *md == self@.metadata,
    {
        &self.metadata
    }

    /// The samples, in the order in which they were given.
    pub fn points(&self) -> (pts: &Vec<MSPoint>)
        ensures
            pts@ == self@.points,
            self@.valid(),
    {
        proof {
            use_type_invariant(self);
        }
        &self.points
    }

    /// The places of the chosen peaks, in the order in which they were
    /// chosen.
    pub fn peaks(&self) -> (peaks: &Vec<usize>)
        ensures
            peaks@ == self@.peaks,
            self@.valid(),
    {
        proof {
            use_type_invariant(self);
        }
        &self.peaks
    }

    /// The places of the local maxima, in ascending order.
    pub fn maxima(&self) -> (maxima: &Vec<usize>)
        ensures
            maxima@ == self@.maxima,
            self@.valid(),
    {
        proof {
            use_type_invariant(self);
        }
        &self.maxima
    }

    /// The mass over charge of the first sample.
    pub fn mz_min(&self) -> (m: Scalar)
        ensures
            m == self@.mz_min,
            m == self@.points[0].mz,
    {
        proof {
            use_type_invariant(self);
        }
        self.mz_min
    }

    /// The mass over charge of the last sample.
    pub fn mz_max(&self) -> (m: Scalar)
        ensures
            m == self@.mz_max,
            m == self@.points[self@.points.len() - 1].mz,
    {
        proof {
            use_type_invariant(self);
        }
        self.mz_max
    }

    /// The smallest intensity.
    pub fn int_min(&self) -> (m: Scalar)
        ensures
            m == self@.int_min,
            is_least(intensities(self@.points), m),
    {
        proof {
            use_type_invariant(self);
        }
        self.int_min
    }

    /// The largest intensity.
    pub fn int_max(&self) -> (m: Scalar)
        ensures
            m == self@.int_max,
            is_greatest(intensities(self@.points), m),
    {
        proof {
            use_type_invariant(self);
        }
        self.int_max
    }

    /// The median intensity.
    pub fn noise_level(&self) -> (m: Scalar)
        ensures
            m == self@.noise_level,
            m.ord() == upper_median(ordinals(intensities(self@.points))),
    {
        proof {
            use_type_invariant(self);
        }
        self.noise_level
    }

    /// Twice the median distance of the intensities from the noise level.
    pub fn noise_width(&self) -> (m: Scalar)
        ensures
            m == self@.noise_width,
            m == width_of(intensities(self@.points), self@.noise_level),
    {
        proof {
            use_type_invariant(self);
        }
        self.noise_width
    }

    /// Whether the spectrum is shown.
    pub fn visible(&self) -> (b: bool)
        ensures
            b == self@.visible,
    {
        self.visible
    }

    /// Makes a spectrum of a run of samples, or says that the run is empty.
    pub fn construct(md: Metadata, pts: Vec<MSPoint>) -> (r: Result<Dataset, DatasetError>)
        ensures
            pts@.len() == 0 <==> r == Err::<Dataset, DatasetError>(DatasetError::NoPoints),
            pts@.len() > 0 ==> r is Ok && constructed(r->Ok_0@, md, pts@),
    {
        if pts.len() == 0 {
            Err(DatasetError::NoPoints)
        } else {
            Ok(Dataset::neww(md, pts))
        }
    }
}

/// The range of mass over charge and of intensity that shown data spans.
#[derive(Clone, Copy, Debug, PartialEq, Eq, Structural)]
pub struct Bounds {
    pub mz_min: Scalar,
    pub mz_max: Scalar,
    pub int_min: Scalar,
    pub int_max: Scalar,
}

/// The smaller of two numbers, the first where they are equal.
pub open spec fn lesser(a: Scalar, b: Scalar) -> Scalar {
    if b.ord() < a.ord() {
        b
    } else {
        a
    }
}

/// The larger of two numbers, the first where they are equal.
pub open spec fn greater(a: Scalar, b: Scalar) -> Scalar {
    if a.ord() < b.ord() {
        b
    } else {
        a
    }
}

/// The bounds of one spectrum.
pub open spec fn bounds_of(d: DatasetView) -> Bounds {
    Bounds { mz_min: d.mz_min, mz_max: d.mz_max, int_min: d.int_min, int_max: d.int_max }
}

/// The bounds `b`, widened so that they take in the spectrum `d`.
pub open spec fn widened(b: Bounds, d: DatasetView) -> Bounds {
    Bounds {
        mz_min: lesser(b.mz_min, d.mz_min),
        mz_max: greater(b.mz_max, d.mz_max),
        int_min: lesser(b.int_min, d.int_min),
        int_max: greater(b.int_max, d.int_max),
    }
}

/// The bounds of a run of spectra: those of the first, widened by each of
/// the others in turn. An empty run has none.
pub open spec fn folded(sets: Seq<DatasetView>) -> Option<Bounds>
    decreases sets.len(),
{
    if sets.len() == 0 {
        None
    } else {
        match folded(sets.drop_last()) {
            None => Some(bounds_of(sets.last())),
            Some(b) => Some(widened(b, sets.last())),
        }
    }
}

/// The loaded spectra as the contracts see them.
pub struct DataView {
    pub sets: Seq<DatasetView>,
    pub bounds: Option<Bounds>,
    pub curr_ds: usize,
}

impl DataView {
    /// What holds of the loaded spectra at all times: each is valid, the
    /// bounds are those of all of them together, and the current one is one
    /// of them.
    pub open spec fn valid(self) -> bool {
        &&& forall|i: int| 0 <= i < self.sets.len() ==> (#[trigger] self.sets[i]).valid()
        &&& self.bounds == folded(self.sets)
        &&& if self.sets.len() == 0 {
            self.curr_ds == 0
        } else {
            self.curr_ds < self.sets.len()
        }
    }

    /// Nothing loaded.
    pub open spec fn empty() -> DataView {
        DataView { sets: Seq::empty(), bounds: None, curr_ds: 0 }
    }

    /// The loaded spectra with the one at place `i` replaced by `d`.
    pub open spec fn with_set(self, i: int, d: DatasetView) -> DataView {
        DataView { sets: self.sets.update(i, d), ..self }
    }
}

/// The loaded spectra after `d` is added: it comes last, the bounds take it
/// in, and it is the current one.
pub open spec fn appended(c: DataView, d: DatasetView) -> DataView {
    DataView {
        sets: c.sets.push(d),
        bounds: Some(
            match c.bounds {
                None => bounds_of(d),
                Some(b) => widened(b, d),
            },
        ),
        curr_ds: c.sets.len() as usize,
    }
}

/// The loaded spectra after the one at place `index` is made the current
/// one: it is shown from then on, whether or not it was before. A place
/// that holds no spectrum changes nothing.
pub open spec fn selected(c: DataView, index: usize) -> DataView {
    if index < c.sets.len() {
        DataView {
            sets: c.sets.update(
                index as int,
                DatasetView { visible: true, ..c.sets[index as int] },
            ),
            curr_ds: index,
            ..c
        }
    } else {
        c
    }
}

/// All loaded spectra, the one that is worked on, and the bounds of all of
/// them together.
#[derive(Debug)]
pub struct Data {
    sets: Vec<Dataset>,
    bounds: Option<Bounds>,
    curr_ds: usize,
}

impl View for Data {
    type V = DataView;

    closed spec fn view(&self) -> DataView {
        DataView {
            sets: self.sets@.map_values(|d: Dataset| d@),
            bounds: self.bounds,
            curr_ds: self.curr_ds,
        }
    }
}

impl Default for Data {
    fn default() -> (c: Data)
        ensures
            c@.valid(),
            c@ == DataView::empty(),
    {
        Data::new()
    }
}

impl Data {
    #[verifier::type_invariant]
    spec fn inv(self) -> bool {
        self@.valid()
    }

    /// No spectrum loaded.
    pub fn new() -> (c: Data)
        ensures
            c@.valid(),
            c@ == DataView::empty(),
    {
        let c = Data { sets: Vec::new(), bounds: None, curr_ds: 0 };
        assert(c@.sets =~= Seq::empty());
        c
    }

    /// Adds a spectrum, if there is one to add. It becomes the current
    /// one, and the bounds are widened to take it in.
    pub fn push(&mut self, ds: Option<Dataset>)
        ensures
            final(self)@.valid(),
            final(self)@ == match ds {
                None => old(self)@,
                Some(d) => appended(old(self)@, d@),
            },
    {
        proof {
            use_type_invariant(&*self);
        }
        if let Some(d) = ds {
            proof {
                use_type_invariant(&d);
            }
            let mut taken = Data::new();
            std::mem::swap(self, &mut taken);
            let Data { sets, bounds, curr_ds: _ } = taken;
            let mut sets = sets;
            let ghost before = sets@.map_values(|d: Dataset| d@);
            let bounds = if sets.len() > 0 {
                match bounds {
                    Some(b) => Bounds {
                        mz_min: b.mz_min.min(d.mz_min),
                        mz_max: b.mz_max.max(d.mz_max),
                        int_min: b.int_min.min(d.int_min),
                        int_max: b.int_max.max(d.int_max),
                    },
                    None => Bounds {
                        mz_min: d.mz_min,
                        mz_max: d.mz_max,
                        int_min: d.int_min,
                        int_max: d.int_max,
                    },
                }
            } else {
                Bounds {
                    mz_min: d.mz_min,
                    mz_max: d.mz_max,
                    int_min: d.int_min,
                    int_max: d.int_max,
                }
            };
            sets.push(d);
            let curr_ds = sets.len() - 1;
            proof {
                let after = sets@.map_values(|d: Dataset| d@);
                assert(after =~= before.push(d@));
                assert(after.drop_last() =~= before);
            }
            *self = Data { sets, bounds: Some(bounds), curr_ds };
        }
    }

    /// Drops every spectrum.
    pub fn reset(&mut self)
        ensures
            final(self)@.valid(),
            final(self)@ == DataView::empty(),
    {
        *self = Data::new();
    }

    /// Makes the spectrum at place `index` the current one and shows it.
    /// Says whether it was hidden until now. A place that holds no spectrum
    /// changes nothing.
    pub fn select(&mut self, index: usize) -> (shown: bool)
        ensures
            final(self)@.valid(),
            final(self)@ == selected(old(self)@, index),
            shown == (index < old(self)@.sets.len() && !old(self)@.sets[index as int].visible),
    {
        proof {
            use_type_invariant(&*self);
        }
        if index < self.sets.len() {
            let mut taken = Data::new();
            std::mem::swap(self, &mut taken);
            let Data { sets, bounds, curr_ds: _ } = taken;
            let mut sets = sets;
            let ghost before = sets@.map_values(|d: Dataset| d@);
            let shown = !sets[index].visible;
            if shown {
                sets[index].set_visible(true);
            }
            proof {
                let after = sets@.map_values(|d: Dataset| d@);
                assert(after =~= before.update(
                    index as int,
                    DatasetView { visible: true, ..before[index as int] },
                ));
                lemma_folded_by_bounds(before, after);
            }
            *self = Data { sets, bounds, curr_ds: index };
            shown
        } else {
            false
        }
    }

    /// Shows the spectrum at place `index` if it is hidden, and hides it if
    /// it is shown. A place that holds no spectrum changes nothing.
    pub fn toggle_visibility(&mut self, index: usize)
        ensures
            final(self)@.valid(),
            final(self)@ == if index < old(self)@.sets.len() {
                old(self)@.with_set(
                    index as int,
                    DatasetView {
                        visible: !old(self)@.sets[index as int].visible,
                        ..old(self)@.sets[index as int]
                    },
                )
            } else {
                old(self)@
            },
    {
        proof {
            use_type_invariant(&*self);
        }
        if index < self.sets.len() {
            let mut taken = Data::new();
            std::mem::swap(self, &mut taken);
            let Data { sets, bounds, curr_ds } = taken;
            let mut sets = sets;
            let ghost before = sets@.map_values(|d: Dataset| d@);
            let visible = sets[index].visible;
            sets[index].set_visible(!visible);
            proof {
                let after = sets@.map_values(|d: Dataset| d@);
                assert(after =~= before.update(
                    index as int,
                    DatasetView { visible: !visible, ..before[index as int] },
                ));
                lemma_folded_by_bounds(before, after);
            }
            *self = Data { sets, bounds, curr_ds };
        }
    }

    /// Chooses the sample at place `i` of the current spectrum as a peak.
    /// Without a spectrum nothing changes.
    pub fn pushpeak(&mut self, i: usize)
        ensures
            final(self)@.valid(),
            final(self)@ == if old(self)@.sets.len() > 0 {
                let d = old(self)@.sets[old(self)@.curr_ds as int];
                old(self)@.with_set(
                    old(self)@.curr_ds as int,
                    DatasetView { peaks: with_peak(d.peaks, d.points.len(), i), ..d },
                )
            } else {
                old(self)@
            },
    {
        proof {
            use_type_invariant(&*self);
        }
        if self.curr_ds < self.sets.len() {
            let mut taken = Data::new();
            std::mem::swap(self, &mut taken);
            let Data { sets, bounds, curr_ds } = taken;
            let mut sets = sets;
            let ghost before = sets@.map_values(|d: Dataset| d@);
            sets[curr_ds].pushpeak(i);
            proof {
                let after = sets@.map_values(|d: Dataset| d@);
                let d = before[curr_ds as int];
                assert(after =~= before.update(
                    curr_ds as int,
                    DatasetView { peaks: with_peak(d.peaks, d.points.len(), i), ..d },
                ));
                lemma_folded_by_bounds(before, after);
            }
            *self = Data { sets, bounds, curr_ds };
        }
    }

    /// Searches the current spectrum for peaks, dropping those chosen
    /// before. Without a spectrum nothing changes.
    pub fn find_peaks(&mut self, ratio: Scalar, abs_int: Scalar, rel_int: Scalar)
        ensures
            final(self)@.valid(),
            final(self)@ == if old(self)@.sets.len() > 0 {
                let d = old(self)@.sets[old(self)@.curr_ds as int];
                old(self)@.with_set(
                    old(self)@.curr_ds as int,
                    DatasetView { peaks: after_search(d, ratio, abs_int, rel_int, true), ..d },
                )
            } else {
                old(self)@
            },
    {
        proof {
            use_type_invariant(&*self);
        }
        if self.sets.len() > self.curr_ds {
            let mut taken = Data::new();
            std::mem::swap(self, &mut taken);
            let Data { sets, bounds, curr_ds } = taken;
            let mut sets = sets;
            let ghost before = sets@.map_values(|d: Dataset| d@);
            sets[curr_ds].find_peaks(ratio, abs_int, rel_int, true);
            proof {
                let after = sets@.map_values(|d: Dataset| d@);
                let d = before[curr_ds as int];
                assert(after =~= before.update(
                    curr_ds as int,
                    DatasetView { peaks: after_search(d, ratio, abs_int, rel_int, true), ..d },
                ));
                lemma_folded_by_bounds(before, after);
            }
            *self = Data { sets, bounds, curr_ds };
        }
    }

    /// Removes from the current spectrum the peaks whose mass over charge
    /// lies in the range from `lower` to `upper`. Without a spectrum nothing
    /// changes.
    pub fn removepeaks(&mut self, lower: Scalar, upper: Scalar)
        ensures
            final(self)@.valid(),
            final(self)@ == if old(self)@.sets.len() > 0 {
                let d = old(self)@.sets[old(self)@.curr_ds as int];
                old(self)@.with_set(
                    old(self)@.curr_ds as int,
                    DatasetView { peaks: without_range(d.peaks, d.points, lower, upper), ..d },
                )
            } else {
                old(self)@
            },
    {
        proof {
            use_type_invariant(&*self);
        }
        if self.sets.len() > self.curr_ds {
            let mut taken = Data::new();
            std::mem::swap(self, &mut taken);
            let Data { sets, bounds, curr_ds } = taken;
            let mut sets = sets;
            let ghost before = sets@.map_values(|d: Dataset| d@);
            sets[curr_ds].removepeaks(lower, upper);
            proof {
                let after = sets@.map_values(|d: Dataset| d@);
                let d = before[curr_ds as int];
                assert(after =~= before.update(
                    curr_ds as int,
                    DatasetView { peaks: without_range(d.peaks, d.points, lower, upper), ..d },
                ));
                lemma_folded_by_bounds(before, after);
            }
            *self = Data { sets, bounds, curr_ds };
        }
    }

    /// The loaded spectra, in the order in which they were added.
    pub fn sets(&self) -> (sets: &Vec<Dataset>)
        ensures
            sets@.map_values(|d: Dataset| d@) == self@.sets,
            self@.valid(),
    {
        proof {
            use_type_invariant(self);
        }
        &self.sets
    }

    /// The bounds of all loaded spectra together; none where nothing is
    /// loaded.
    pub fn bounds(&self) -> (b: Option<Bounds>)
        ensures
            b == self@.bounds,
            b == folded(self@.sets),
    {
        proof {
            use_type_invariant(self);
        }
        self.bounds
    }

    /// The place of the current spectrum.
    pub fn curr_ds(&self) -> (i: usize)
        ensures
            i == self@.curr_ds,
            self@.sets.len() > 0 ==> i < self@.sets.len(),
    {
        proof {
            use_type_invariant(self);
        }
        self.curr_ds
    }
}

/// The bounds of a run of spectra depend on the bounds of each alone.
pub proof fn lemma_folded_by_bounds(s: Seq<DatasetView>, t: Seq<DatasetView>)
    requires
        s.len() == t.len(),
        forall|i: int| 0 <= i < s.len() ==> bounds_of(#[trigger] s[i]) == bounds_of(t[i]),
    ensures
        folded(s) == folded(t),
    decreases s.len(),
{
    if s.len() > 0 {
        lemma_folded_by_bounds(s.drop_last(), t.drop_last());
        assert(bounds_of(s[s.len() - 1]) == bounds_of(t[t.len() - 1]));
    }
}

/// Choosing a place of the spectrum twice is choosing it once: the second
/// time changes nothing, the place is listed once, and the peaks chosen
/// before stand where they stood.
pub proof fn lemma_pushpeak_twice(peaks: Seq<usize>, len: nat, i: usize)
    requires
        peaks.no_duplicates(),
        i < len,
    ensures
        with_peak(with_peak(peaks, len, i), len, i) == with_peak(peaks, len, i),
        exists|a: int| 0 <= a < with_peak(peaks, len, i).len() && with_peak(peaks, len, i)[a] == i,
        forall|a: int, b: int|
            0 <= a < with_peak(peaks, len, i).len() && 0 <= b < with_peak(peaks, len, i).len()
                && with_peak(peaks, len, i)[a] == i && with_peak(peaks, len, i)[b] == i ==> a == b,
        with_peak(peaks, len, i).take(peaks.len() as int) == peaks,
{
    let once = with_peak(peaks, len, i);
    if peaks.contains(i) {
        let a = choose|a: int| 0 <= a < peaks.len() && peaks[a] == i;
        assert(once[a] == i);
    } else {
        assert(once[peaks.len() as int] == i);
        assert(once.contains(i));
        assert forall|a: int, b: int|
            0 <= a < once.len() && 0 <= b < once.len() && once[a] == i && once[b] == i implies a
            == b by {
            if a < peaks.len() {
                assert(peaks.contains(peaks[a]));
            }
            if b < peaks.len() {
                assert(peaks.contains(peaks[b]));
            }
        }
    }
    assert(once.take(peaks.len() as int) =~= peaks);
}

/// A search that drops the peaks chosen before chooses the maxima that
/// stand out, and no other place.
pub proof fn lemma_search_overwrites(d: DatasetView, ratio: Scalar, abs_int: Scalar, rel_int: Scalar)
    ensures
        after_search(d, ratio, abs_int, rel_int, true) == d.maxima.filter(
            |i: usize|
                stands_out(d.points[i as int], threshold_of(d.int_max, rel_int, abs_int), ratio),
        ),
{
    let threshold = threshold_of(d.int_max, rel_int, abs_int);
    let none = Seq::<usize>::empty();
    lemma_filter_agrees(
        d.maxima,
        is_new_peak(none, d.points, threshold, ratio),
        |i: usize| stands_out(d.points[i as int], threshold, ratio),
    );
    assert(none + found(none, d.maxima, d.points, threshold, ratio) =~= found(
        none,
        d.maxima,
        d.points,
        threshold,
        ratio,
    ));
}

/// A search that keeps the peaks chosen before finds nothing new when it
/// is made a second time with the same bounds.
pub proof fn lemma_search_twice(d: DatasetView, ratio: Scalar, abs_int: Scalar, rel_int: Scalar)
    ensures
        after_search(
            DatasetView { peaks: after_search(d, ratio, abs_int, rel_int, false), ..d },
            ratio,
            abs_int,
            rel_int,
            false,
        ) == after_search(d, ratio, abs_int, rel_int, false),
{
    let threshold = threshold_of(d.int_max, rel_int, abs_int);
    let first = found(d.peaks, d.maxima, d.points, threshold, ratio);
    let once = d.peaks + first;
    let again = is_new_peak(once, d.points, threshold, ratio);
    assert forall|a: int| 0 <= a < d.maxima.len() implies !again(#[trigger] d.maxima[a]) by {
        let i = d.maxima[a];
        if stands_out(d.points[i as int], threshold, ratio) {
            if d.peaks.contains(i) {
                let k = choose|k: int| 0 <= k < d.peaks.len() && d.peaks[k] == i;
                assert(once[k] == i);
            } else {
                assert(is_new_peak(d.peaks, d.points, threshold, ratio)(d.maxima[a]));
                d.maxima.lemma_filter_contains(
                    is_new_peak(d.peaks, d.points, threshold, ratio),
                    a,
                );
                let k = choose|k: int| 0 <= k < first.len() && first[k] == i;
                assert(once[d.peaks.len() + k] == i);
            }
            assert(once.contains(i));
        }
    }
    d.maxima.lemma_all_neg_filter_empty(again);
    assert(once + found(once, d.maxima, d.points, threshold, ratio) =~= once);
}

/// Two tests that agree on every member of a run pick the same members.
pub proof fn lemma_filter_agrees<A>(s: Seq<A>, p: spec_fn(A) -> bool, q: spec_fn(A) -> bool)
    requires
        forall|i: int| 0 <= i < s.len() ==> p(#[trigger] s[i]) == q(s[i]),
    ensures
        s.filter(p) == s.filter(q),
    decreases s.len(),
{
    reveal(Seq::filter);
    if s.len() > 0 {
        lemma_filter_agrees(s.drop_last(), p, q);
    }
}

/// The bounds of loaded spectra span each of them, and each bound is that of
/// one of them.
pub proof fn lemma_folded_spans(sets: Seq<DatasetView>)
    requires
        sets.len() > 0,
    ensures
        folded(sets) is Some,
        forall|i: int|
            0 <= i < sets.len() ==> {
                &&& folded(sets)->Some_0.mz_min.ord() <= (#[trigger] sets[i]).mz_min.ord()
                &&& folded(sets)->Some_0.mz_max.ord() >= sets[i].mz_max.ord()
                &&& folded(sets)->Some_0.int_min.ord() <= sets[i].int_min.ord()
                &&& folded(sets)->Some_0.int_max.ord() >= sets[i].int_max.ord()
            },
        exists|i: int| 0 <= i < sets.len() && folded(sets)->Some_0.mz_min == sets[i].mz_min,
        exists|i: int| 0 <= i < sets.len() && folded(sets)->Some_0.mz_max == sets[i].mz_max,
        exists|i: int| 0 <= i < sets.len() && folded(sets)->Some_0.int_min == sets[i].int_min,
        exists|i: int| 0 <= i < sets.len() && folded(sets)->Some_0.int_max == sets[i].int_max,
    decreases sets.len(),
{
    let rest = sets.drop_last();
    let last = sets.len() - 1;
    if rest.len() > 0 {
        lemma_folded_spans(rest);
        let b = folded(rest)->Some_0;
        let a0 = choose|i: int| 0 <= i < rest.len() && b.mz_min == rest[i].mz_min;
        let a1 = choose|i: int| 0 <= i < rest.len() && b.mz_max == rest[i].mz_max;
        let a2 = choose|i: int| 0 <= i < rest.len() && b.int_min == rest[i].int_min;
        let a3 = choose|i: int| 0 <= i < rest.len() && b.int_max == rest[i].int_max;
        let f = folded(sets)->Some_0;
        assert(f.mz_min == sets[a0].mz_min || f.mz_min == sets[last].mz_min);
        assert(f.mz_max == sets[a1].mz_max || f.mz_max == sets[last].mz_max);
        assert(f.int_min == sets[a2].int_min || f.int_min == sets[last].int_min);
        assert(f.int_max == sets[a3].int_max || f.int_max == sets[last].int_max);
        assert forall|i: int| 0 <= i < sets.len() implies {
            &&& f.mz_min.ord() <= (#[trigger] sets[i]).mz_min.ord()
            &&& f.mz_max.ord() >= sets[i].mz_max.ord()
            &&& f.int_min.ord() <= sets[i].int_min.ord()
            &&& f.int_max.ord() >= sets[i].int_max.ord()
        } by {
            if i < last {
                assert(rest[i] == sets[i]);
            }
        }
    } else {
        assert(folded(rest) is None);
        assert(folded(sets)->Some_0 == bounds_of(sets[last]));
    }
}

/// Making a spectrum the current one shows it, and hides none.
pub proof fn lemma_selection_shows(c: DataView, index: usize)
    requires
        index < c.sets.len(),
    ensures
        selected(c, index).curr_ds == index,
        selected(c, index).sets.len() == c.sets.len(),
        selected(c, index).sets[index as int].visible,
        forall|j: int|
            0 <= j < c.sets.len() && c.sets[j].visible ==> (#[trigger] selected(
                c,
                index,
            ).sets[j]).visible,
{
}

/// Two runs that hold the same values have the same members.
pub proof fn lemma_same_members(s: Seq<Scalar>, t: Seq<Scalar>)
    requires
        s.to_multiset() == t.to_multiset(),
    ensures
        forall|x: Scalar| s.contains(x) <==> t.contains(x),
{
    assert forall|x: Scalar| s.contains(x) <==> t.contains(x) by {
        to_multiset_contains(s, x);
        to_multiset_contains(t, x);
    }
}

} // verus!
