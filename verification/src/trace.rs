//! Nearest-hit resolution and the shading recursion cutoff.
//!
//! A ray is tested against every primitive in scene order; each test yields
//! an optional hit distance. Distances arrive here as ordered keys
//! (nonnegative binary64 distances compare the same as their bit patterns,
//! so the caller hands bit patterns in). Selecting the winning hit, and
//! counting occlusion samples against a cutoff, is exact integer work and
//! is verified here.

use vstd::prelude::*;

verus! {

/// Reflection depth beyond which shading returns the neutral color
/// instead of spawning another ray.
pub const MAX_REFLECTION_DEPTH: u32 = 5;

/// True exactly when shading at `depth` must stop recursing.
pub fn reflection_terminated(depth: u32) -> (r: bool)
    ensures
        r <==> depth > MAX_REFLECTION_DEPTH,
{
    depth > MAX_REFLECTION_DEPTH
}

/// The winning hit among the optional hit distances, one per primitive in
/// scene order: the first index that holds the smallest distance, `None`
/// exactly when every primitive was missed.
pub fn nearest_hit(dists: &Vec<Option<u64>>) -> (r: Option<usize>)
    ensures
        match r {
            None => forall|i: int| 0 <= i < dists@.len() ==> dists@[i] is None,
            Some(w) => w < dists@.len() && dists@[w as int] is Some && (forall|j: int|
                0 <= j < dists@.len() && #[trigger] dists@[j] is Some ==> dists@[w as int]->0
                    <= dists@[j]->0) && (forall|j: int|
                0 <= j < w && #[trigger] dists@[j] is Some ==> dists@[w as int]->0 < dists@[j]->0),
        },
{
    let mut best: Option<usize> = None;
    let mut i: usize = 0;
    while i < dists.len()
        invariant
            i <= dists@.len(),
            match best {
                None => forall|j: int| 0 <= j < i ==> dists@[j] is None,
                Some(w) => w < i && dists@[w as int] is Some && (forall|j: int|
                    0 <= j < i && #[trigger] dists@[j] is Some ==> dists@[w as int]->0
                        <= dists@[j]->0) && (forall|j: int|
                    0 <= j < w && #[trigger] dists@[j] is Some ==> dists@[w as int]->0
                        < dists@[j]->0),
            },
        decreases dists@.len() - i,
    {
        if let Some(d) = dists[i] {
            match best {
                None => {
                    best = Some(i);
                },
                Some(w) => {
                    // Keep the earlier hit on equal distances.
                    if d < dists[w].unwrap() {
                        best = Some(i);
                    }
                },
            }
        }
        i = i + 1;
    }
    best
}

/// How many of the optional sample distances lie strictly below the
/// cutoff.
pub open spec fn spec_count_below(s: Seq<Option<u64>>, cutoff: u64) -> nat
    decreases s.len(),
{
    if s.len() == 0 {
        0
    } else {
        spec_count_below(s.drop_last(), cutoff) + (if s.last() is Some && s.last()->0 < cutoff {
            1nat
        } else {
            0nat
        })
    }
}

/// Count the occlusion samples whose hit lies strictly closer than
/// `cutoff`; a missed sample never counts. The occlusion estimate itself is
/// `1 - count/samples`, formed by the caller.
pub fn count_below(dists: &Vec<Option<u64>>, cutoff: u64) -> (n: usize)
    ensures
        n == spec_count_below(dists@, cutoff),
        n <= dists@.len(),
{
    let mut n: usize = 0;
    let mut i: usize = 0;
    while i < dists.len()
        invariant
            i <= dists@.len(),
            n <= i,
            n == spec_count_below(dists@.take(i as int), cutoff),
        decreases dists@.len() - i,
    {
        proof {
            assert(dists@.take(i + 1 as int).drop_last() =~= dists@.take(i as int));
            assert(dists@.take(i + 1 as int).last() == dists@[i as int]);
        }
        if let Some(d) = dists[i] {
            if d < cutoff {
                n = n + 1;
            }
        }
        i = i + 1;
    }
    proof {
        assert(dists@.take(dists@.len() as int) =~= dists@);
    }
    n
}

/// An isolated point is fully lit: when no sample hit below the cutoff
/// (every nearby obstacle, if hit at all, lies at or beyond it), the
/// occlusion count is zero, whatever the number of samples, so the
/// estimate `1 - count/samples` is one.
pub proof fn lemma_unoccluded(s: Seq<Option<u64>>, cutoff: u64)
    requires
        forall|i: int| 0 <= i < s.len() && #[trigger] s[i] is Some ==> s[i]->0 >= cutoff,
    ensures
        spec_count_below(s, cutoff) == 0,
    decreases s.len(),
{
    if s.len() > 0 {
        lemma_unoccluded(s.drop_last(), cutoff);
    }
}

} // verus!
