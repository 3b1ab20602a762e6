//! A trait that yields the next value of a type in its implied total order,
//! with base domains, structural composition of products and sums, and the
//! analysis of tagged-union shapes that orders their alternatives.
use vstd::prelude::*;

pub mod base;
pub mod compose;
pub mod laws;
pub mod shape;

verus! {

/// Allows getting the next sequential value.
///
/// Every implementation describes its domain by a position function `rank`
/// onto `0 .. count()`: the minimum has position zero, the successor of a
/// value sits one position further, and the last position has no successor.
pub trait Next: Sized {
    /// The minimum value of the domain, where the sequence starts.
    spec fn spec_first() -> Self;

    /// The successor of `self`, or `None` when `self` is the maximum.
    spec fn spec_next(self) -> Option<Self>;

    /// The position of `self` in the sequence that starts at the minimum.
    spec fn rank(self) -> nat;

    /// The number of values of the domain.
    spec fn count() -> nat;

    /// The sequence starts at the minimum, each successor moves one position on,
    /// and only the last position lacks a successor.
    proof fn lemma_rank(v: Self)
        ensures
            Self::spec_first().rank() == 0,
            v.rank() < Self::count(),
            v.spec_next() is None <==> v.rank() + 1 == Self::count(),
            v.spec_next() matches Some(w) ==> w.rank() == v.rank() + 1,
    ;

    /// Distinct values have distinct positions.
    proof fn lemma_rank_injective(a: Self, b: Self)
        ensures
            a.rank() == b.rank() ==> a == b,
    ;

    /// Makes the minimum value. Every call gives the same value.
    fn first() -> (r: Self)
        ensures
            r == Self::spec_first(),
    ;

    /// Gets the next value, consuming `self`.
    fn next(self) -> (r: Option<Self>)
        ensures
            r == self.spec_next(),
    ;
}

} // verus!
