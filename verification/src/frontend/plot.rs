//! What a selection in the plot points at.

use crate::backend::Data;
use crate::backend::MSPoint;
use crate::scalar::Scalar;
use vstd::prelude::*;

verus! {

/// What the pointer is doing in the plot.
#[derive(Debug, Clone, Copy, Eq, PartialEq, Structural)]
pub enum Interaction {
    Idle,
}

impl Default for Interaction {
    fn default() -> (i: Interaction)
        ensures
            i is Idle,
    {
        Interaction::Idle
    }
}

/// Whether a sample lies in the selection that runs from `lower` to
/// `upper`, to which neither end belongs.
pub open spec fn highlighted(p: MSPoint, lower: Scalar, upper: Scalar) -> bool {
    p.mz.ord() > lower.ord() && p.mz.ord() < upper.ord()
}

/// Whether place `i` holds the highest sample of the selection: the first
/// of them where several are as high.
pub open spec fn is_highest(points: Seq<MSPoint>, lower: Scalar, upper: Scalar, i: int) -> bool {
    &&& 0 <= i < points.len()
    &&& highlighted(points[i], lower, upper)
    &&& forall|j: int|
        0 <= j < points.len() && highlighted(#[trigger] points[j], lower, upper) ==> {
            &&& points[j].int.ord() <= points[i].int.ord()
            &&& j < i ==> points[j].int.ord() < points[i].int.ord()
        }
}

/// The place of the highest sample of the current spectrum in the
/// selection from `lower` to `upper`; none where nothing is loaded or the
/// selection holds no sample.
pub fn max_pt_in_highlight(data: &Data, lower: Scalar, upper: Scalar) -> (r: Option<usize>)
    ensures
        match r {
            Some(i) => data@.sets.len() > 0 && is_highest(
                data@.sets[data@.curr_ds as int].points,
                lower,
                upper,
                i as int,
            ),
            None => data@.sets.len() > 0 ==> forall|j: int|
                0 <= j < data@.sets[data@.curr_ds as int].points.len() ==> !highlighted(
                    #[trigger] data@.sets[data@.curr_ds as int].points[j],
                    lower,
                    upper,
                ),
        },
{
    let sets = data.sets();
    let curr = data.curr_ds();
    if sets.len() > curr {
        let points = sets[curr].points();
        assert(points@ == data@.sets[curr as int].points);
        let mut best: Option<usize> = None;
        let mut j: usize = 0;
        while j < points.len()
            invariant
                0 <= j <= points@.len(),
                match best {
                    Some(i) => i < j && is_highest(points@.take(j as int), lower, upper, i as int),
                    None => forall|k: int|
                        0 <= k < j ==> !highlighted(#[trigger] points@[k], lower, upper),
                },
            decreases points@.len() - j,
        {
            let p = points[j];
            let ghost seen = points@.take(j as int);
            let ghost next = points@.take(j + 1);
            proof {
                assert(forall|k: int| 0 <= k < j ==> next[k] == seen[k]);
                assert(next[j as int] == p);
            }
            if p.mz.gt(lower) && p.mz.lt(upper) {
                match best {
                    Some(i) => {
                        if p.int.gt(points[i].int) {
                            best = Some(j);
                        }
                    },
                    None => {
                        best = Some(j);
                    },
                }
            }
            j += 1;
        }
        assert(points@.take(points@.len() as int) == points@);
        best
    } else {
        None
    }
}

} // verus!
