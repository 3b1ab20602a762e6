//! Laws that hold of every domain and of the analysis of shapes.
use vstd::prelude::*;

use crate::compose::Sum;
use crate::shape::{assigned, is_order_of, lists_variant, VariantOrder, Discriminant};
use crate::Next;

verus! {

/// The value reached after `k` steps from the minimum, or `None` once a step
/// found no successor.
pub open spec fn walk<T: Next>(k: nat) -> Option<T>
    decreases k,
{
    if k == 0 {
        Some(T::spec_first())
    } else {
        match walk::<T>((k - 1) as nat) {
            Some(v) => v.spec_next(),
            None => None,
        }
    }
}

/// Stepping from the minimum of any domain reaches, at step `k`, the value at
/// position `k` while `k` is below the domain's size, and nothing after that.
proof fn lemma_walk_rank<T: Next>(k: nat)
    ensures
        k < T::count() ==> (walk::<T>(k) matches Some(v) && v.rank() == k),
        k >= T::count() ==> walk::<T>(k) is None,
    decreases k,
{
    T::lemma_rank(T::spec_first());
    if k > 0 {
        lemma_walk_rank::<T>((k - 1) as nat);
        if let Some(v) = walk::<T>((k - 1) as nat) {
            T::lemma_rank(v);
            if let Some(w) = v.spec_next() {
                T::lemma_rank(w);
            }
        }
    }
}

/// Repeatedly applying the successor from the minimum visits every value of
/// the domain exactly once, in the domain's order, and ends with exactly one
/// absent result, which comes from the maximum and only from it.
pub proof fn lemma_walk_visits_every_value<T: Next>(v: T, j: nat, k: nat)
    ensures
        walk::<T>(v.rank()) == Some(v),
        j < k < T::count() ==> walk::<T>(j) != walk::<T>(k),
        k < T::count() ==> walk::<T>(k) is Some,
        k >= T::count() ==> walk::<T>(k) is None,
        v.spec_next() is None <==> v.rank() + 1 == T::count(),
{
    T::lemma_rank(v);
    lemma_walk_rank::<T>(v.rank());
    lemma_walk_rank::<T>(j);
    lemma_walk_rank::<T>(k);
    T::lemma_rank_injective(walk::<T>(v.rank()).unwrap(), v);
}

/// The empty record is the unique value of its domain, is the minimum, and
/// has no successor.
pub proof fn lemma_empty_record(v: ())
    ensures
        v == <() as Next>::spec_first(),
        v.spec_next() is None,
        <() as Next>::count() == 1,
{
}

/// The successor is a function of the value alone: equal values have equal
/// successors, however often it is asked for.
pub proof fn lemma_next_deterministic<T: Next>(a: T, b: T)
    requires
        a == b,
    ensures
        a.spec_next() == b.spec_next(),
{
}

/// A tagged union starts at the minimum of its lowest alternative, and an
/// exhausted payload of that alternative carries into the minimum of the
/// next one.
pub proof fn lemma_sum_carry<A: Next, B: Next>(a: A, b: B)
    ensures
        Sum::<A, B>::spec_first() == Sum::<A, B>::First(A::spec_first()),
        a.spec_next() is None ==> Sum::<A, B>::First(a).spec_next() == Some(
            Sum::<A, B>::Rest(B::spec_first()),
        ),
        b.spec_next() is None ==> Sum::<A, B>::Rest(b).spec_next() is None,
{
}

/// In a resolved order of alternatives, whatever their declaration order, the
/// first entry has the lowest discriminant of all, and each entry is followed
/// by the alternative with the next higher discriminant.
pub proof fn lemma_order_by_discriminant(order: Seq<VariantOrder>, d: Seq<Discriminant>, p: int, k: int)
    requires
        is_order_of(order, d, d.len() as int),
        0 <= p < d.len(),
        0 <= k < order.len(),
    ensures
        order[0].discriminant <= assigned(d, p),
        order[k].discriminant < assigned(d, p) && k + 1 < order.len() ==> order[k + 1].discriminant
            <= assigned(d, p),
        order[k].discriminant < assigned(d, p) ==> k + 1 < order.len(),
{
    assert(lists_variant(order, p));
    let m = choose|m: int| 0 <= m < order.len() && order[m].variant == p;
    assert(order[m].discriminant == assigned(d, p));
    if m > 0 {
        assert(order[0].discriminant < order[m].discriminant);
    }
    if order[k].discriminant < assigned(d, p) {
        if m < k {
            assert(order[m].discriminant < order[k].discriminant);
        }
        if m > k + 1 {
            assert(order[k + 1].discriminant < order[m].discriminant);
        }
    }
}

} // verus!
