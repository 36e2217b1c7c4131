//! Which of several point sizes stands in best for the one that was asked for.
use vstd::prelude::*;

verus! {

/// How far a size is from the one that was asked for.
pub open spec fn distance(size: i16, requested: i16) -> int {
    if size < requested {
        requested - size
    } else {
        size - requested
    }
}

/// `a` stands in better than `b`: it is closer to the size that was asked for, or as close and
/// larger.
pub open spec fn nearer(a: i16, b: i16, requested: i16) -> bool {
    ||| distance(a, requested) < distance(b, requested)
    ||| distance(a, requested) == distance(b, requested) && a > b
}

/// `size` is one of `sizes`, and stands in better than every other.
pub open spec fn is_nearest(sizes: Set<i16>, requested: i16, size: i16) -> bool {
    &&& sizes.contains(size)
    &&& forall|other: i16| #[trigger]
        sizes.contains(other) ==> other == size || nearer(size, other, requested)
}

/// The one of `sizes` that stands in best.
pub open spec fn nearest(sizes: Set<i16>, requested: i16) -> i16 {
    choose|size: i16| is_nearest(sizes, requested, size)
}

/// No two sizes stand in equally well.
pub proof fn lemma_nearest_unique(sizes: Set<i16>, requested: i16, size: i16)
    requires
        is_nearest(sizes, requested, size),
    ensures
        nearest(sizes, requested) == size,
{
    let chosen = nearest(sizes, requested);
    assert(is_nearest(sizes, requested, chosen));
    assert(sizes.contains(chosen));
    assert(sizes.contains(size));
}

/// Tells whether `a` stands in better than `b`.
pub fn is_nearer(a: i16, b: i16, requested: i16) -> (better: bool)
    ensures
        better == nearer(a, b, requested),
{
    let a_away: i32 = away(a, requested);
    let b_away: i32 = away(b, requested);
    a_away < b_away || (a_away == b_away && a > b)
}

fn away(size: i16, requested: i16) -> (steps: i32)
    ensures
        steps == distance(size, requested),
{
    if size < requested {
        requested as i32 - size as i32
    } else {
        size as i32 - requested as i32
    }
}

} // verus!
