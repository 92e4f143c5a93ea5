//! Distances as integer keys, and the two scans over them.
//!
//! The host measures distances; this crate only compares them.  A distance is
//! handed over as a *key*: an unsigned integer such that a smaller key stands
//! for a smaller distance.  The bit pattern of a non-negative single-precision
//! number is such a key.  A *sighting table* has one row per observer (a tower
//! or a projectile), and a row holds one key per live target, in the order in
//! which the host lists the targets.

use vstd::prelude::*;

verus! {

/// The row of observer `i` in a sighting table.  An observer for which the
/// table has no row sees no target.
pub open spec fn row(sightings: Seq<Vec<u32>>, i: int) -> Seq<u32> {
    if 0 <= i < sightings.len() {
        sightings[i]@
    } else {
        Seq::empty()
    }
}

/// Target `i` is the nearest: no target has a smaller key, and every target
/// listed before it has a larger one.
pub open spec fn is_nearest(keys: Seq<u32>, i: int) -> bool {
    &&& 0 <= i < keys.len()
    &&& forall|k: int| 0 <= k < keys.len() ==> keys[i] <= #[trigger] keys[k]
    &&& forall|k: int| 0 <= k < i ==> keys[i] < #[trigger] keys[k]
}

/// The nearest target of a row, if the row holds any target.
pub open spec fn nearest(keys: Seq<u32>) -> Option<usize> {
    if keys.len() == 0 {
        None
    } else {
        Some(choose|i: usize| is_nearest(keys, i as int))
    }
}

/// Target `j` is the first of the row that lies within `radius`.
pub open spec fn is_first_within(keys: Seq<u32>, radius: u32, j: int) -> bool {
    &&& 0 <= j < keys.len()
    &&& keys[j] < radius
    &&& forall|k: int| 0 <= k < j ==> #[trigger] keys[k] >= radius
}

/// Whether any target of the row lies within `radius`.
pub open spec fn any_within(keys: Seq<u32>, radius: u32) -> bool {
    exists|j: int| 0 <= j < keys.len() && #[trigger] keys[j] < radius
}

/// The first target of a row that lies within `radius`, if there is one.
pub open spec fn first_within(keys: Seq<u32>, radius: u32) -> Option<usize> {
    if any_within(keys, radius) {
        Some(choose|j: usize| is_first_within(keys, radius, j as int))
    } else {
        None
    }
}

/// Picks the target with the smallest key; among equal keys, the one listed
/// first.  An empty row has no nearest target.
pub fn nearest_target(keys: &Vec<u32>) -> (target: Option<usize>)
    ensures
        target == nearest(keys@),
        target is None <==> keys.len() == 0,
        target matches Some(i) ==> is_nearest(keys@, i as int),
{
    if keys.len() == 0 {
        return None;
    }
    let mut best: usize = 0;
    let mut i: usize = 1;
    while i < keys.len()
        invariant
            1 <= i <= keys.len(),
            best < i,
            forall|k: int| 0 <= k < i ==> keys[best as int] <= #[trigger] keys[k],
            forall|k: int| 0 <= k < best ==> keys[best as int] < #[trigger] keys[k],
        decreases keys.len() - i,
    {
        if keys[i] < keys[best] {
            best = i;
        }
        i += 1;
    }
    proof {
        lemma_nearest_is(keys@, best);
    }
    Some(best)
}

/// Finds the first target of the row whose key is strictly below `radius`.
pub fn first_hit(keys: &Vec<u32>, radius: u32) -> (found: Option<usize>)
    ensures
        found == first_within(keys@, radius),
        found is None <==> !any_within(keys@, radius),
        found matches Some(j) ==> is_first_within(keys@, radius, j as int),
{
    let mut j: usize = 0;
    while j < keys.len()
        invariant
            j <= keys.len(),
            forall|k: int| 0 <= k < j ==> #[trigger] keys[k] >= radius,
        decreases keys.len() - j,
    {
        if keys[j] < radius {
            proof {
                lemma_first_within_is(keys@, radius, j);
            }
            return Some(j);
        }
        j += 1;
    }
    None
}

/// A row has one nearest target at most: the target that `is_nearest`
/// describes is the one that `nearest` names.
pub proof fn lemma_nearest_is(keys: Seq<u32>, i: usize)
    requires
        is_nearest(keys, i as int),
    ensures
        nearest(keys) == Some(i),
{
    let n = choose|n: usize| is_nearest(keys, n as int);
    if i < n {
        assert(keys[n as int] < keys[i as int]);
    } else if n < i {
        assert(keys[i as int] < keys[n as int]);
    }
}

/// A row has one first target within the radius at most: the target that
/// `is_first_within` describes is the one that `first_within` names.
pub proof fn lemma_first_within_is(keys: Seq<u32>, radius: u32, j: usize)
    requires
        is_first_within(keys, radius, j as int),
    ensures
        first_within(keys, radius) == Some(j),
{
    let n = choose|n: usize| is_first_within(keys, radius, n as int);
    if j < n {
        assert(keys[j as int] >= radius);
    } else if n < j {
        assert(keys[n as int] >= radius);
    }
}

/// Where one target is strictly nearer than every other, it is the one that
/// is chosen.
pub proof fn law_strict_minimum_is_nearest(keys: Seq<u32>, i: usize)
    requires
        i < keys.len(),
        forall|k: int| 0 <= k < keys.len() && k != i ==> keys[i as int] < #[trigger] keys[k],
    ensures
        nearest(keys) == Some(i),
{
    lemma_nearest_is(keys, i);
}

/// Among targets that are equally near, the one listed first is chosen.
pub proof fn law_ties_go_to_the_first(keys: Seq<u32>, i: usize, j: usize)
    requires
        i < j < keys.len() <= usize::MAX,
        keys[i as int] == keys[j as int],
    ensures
        nearest(keys) != Some(j),
{
    lemma_some_nearest(keys);
    let n = choose|n: usize| is_nearest(keys, n as int);
    if n == j {
        assert(keys[j as int] < keys[i as int]);
    }
}

/// The target that is chosen is a nearest one: no target of the row has a
/// smaller key.
pub proof fn law_nearest_is_minimal(keys: Seq<u32>)
    requires
        0 < keys.len() <= usize::MAX,
    ensures
        nearest(keys) matches Some(i) && is_nearest(keys, i as int),
{
    lemma_some_nearest(keys);
}

/// The target that is hit is the first of the row within the radius, and
/// there is one whenever any target lies within the radius.
pub proof fn law_first_within_is_first(keys: Seq<u32>, radius: u32)
    requires
        keys.len() <= usize::MAX,
    ensures
        first_within(keys, radius) is Some <==> any_within(keys, radius),
        first_within(keys, radius) matches Some(j) ==> is_first_within(keys, radius, j as int),
{
    if any_within(keys, radius) {
        let w = choose|w: int| 0 <= w < keys.len() && keys[w] < radius;
        let first = lemma_some_first_within(keys, radius, w);
        assert(is_first_within(keys, radius, (first as usize) as int));
    }
}

/// Before any target within the radius stands a first one.
proof fn lemma_some_first_within(keys: Seq<u32>, radius: u32, w: int) -> (j: int)
    requires
        0 <= w < keys.len(),
        keys[w] < radius,
    ensures
        0 <= j <= w,
        is_first_within(keys, radius, j),
    decreases w,
{
    if exists|k: int| 0 <= k < w && keys[k] < radius {
        let k = choose|k: int| 0 <= k < w && keys[k] < radius;
        lemma_some_first_within(keys, radius, k)
    } else {
        w
    }
}

/// Every row that holds a target has a nearest one.
proof fn lemma_some_nearest(keys: Seq<u32>)
    requires
        0 < keys.len() <= usize::MAX,
    ensures
        exists|i: usize| is_nearest(keys, i as int),
    decreases keys.len(),
{
    let last = (keys.len() - 1) as usize;
    if last == 0 {
        assert(is_nearest(keys, last as int));
    } else {
        let earlier = keys.drop_last();
        lemma_some_nearest(earlier);
        let best = choose|i: usize| is_nearest(earlier, i as int);
        assert forall|k: int| 0 <= k < last implies keys[best as int] <= #[trigger] keys[k] && (k
            < best ==> keys[best as int] < keys[k]) by {
            assert(earlier[k] == keys[k]);
        }
        if keys[last as int] < keys[best as int] {
            assert(is_nearest(keys, last as int));
        } else {
            assert(is_nearest(keys, best as int));
        }
    }
}

} // verus!
