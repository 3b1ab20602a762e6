//! Composite domains. A product (a tuple) advances its last field first and
//! carries leftward; a sum advances its first alternative's payload and,
//! once that is exhausted, moves to the minimum of the remaining ones.
use vstd::prelude::*;

use crate::Next;

verus! {

/// Two mixed-radix digits below their bounds form a number below the product.
proof fn lemma_digits_bound(i: nat, j: nat, ci: nat, cj: nat)
    requires
        i < ci,
        j < cj,
    ensures
        i * cj + j < ci * cj,
{
    assert(i * cj + j < ci * cj) by (nonlinear_arith)
        requires
            i < ci,
            j < cj,
    ;
}

/// Mixed-radix digits are determined by the number they form.
proof fn lemma_digits_unique(i1: nat, j1: nat, i2: nat, j2: nat, cj: nat)
    requires
        j1 < cj,
        j2 < cj,
        i1 * cj + j1 == i2 * cj + j2,
    ensures
        i1 == i2,
        j1 == j2,
{
    let x = (i1 * cj + j1) as int;
    vstd::arithmetic::div_mod::lemma_fundamental_div_mod_converse(x, cj as int, i1 as int, j1 as int);
    vstd::arithmetic::div_mod::lemma_fundamental_div_mod_converse(x, cj as int, i2 as int, j2 as int);
}

/// Stepping past the last value of the low digit carries into the high one.
proof fn lemma_digits_carry(i: nat, cj: nat)
    requires
        cj > 0,
    ensures
        i * cj + (cj - 1) + 1 == (i + 1) * cj,
{
    assert(i * cj + (cj - 1) + 1 == (i + 1) * cj) by (nonlinear_arith)
        requires
            cj > 0,
    ;
}

/// The number formed by two digits is last exactly when both digits are last.
proof fn lemma_digits_last(i: nat, j: nat, ci: nat, cj: nat)
    requires
        i < ci,
        j < cj,
    ensures
        i * cj + j + 1 == ci * cj <==> (i + 1 == ci && j + 1 == cj),
{
    lemma_digits_carry((ci - 1) as nat, cj);
    if i * cj + j + 1 == ci * cj {
        lemma_digits_unique(i, j, (ci - 1) as nat, (cj - 1) as nat, cj);
    }
}

/// The step of a product whose leading part is `head` and whose last field is
/// `last`: advance `last`, or reset it and advance `head`.
pub open spec fn carry_next<H: Next, L: Next>(head: H, last: L) -> Option<(H, L)> {
    match last.spec_next() {
        Some(l) => Some((head, l)),
        None => match head.spec_next() {
            Some(h) => Some((h, L::spec_first())),
            None => None,
        },
    }
}

/// The rank law for a product of a leading part and a last field.
proof fn lemma_carry_rank<H: Next, L: Next>(head: H, last: L)
    ensures
        ({
            let r = head.rank() * L::count() + last.rank();
            let c = H::count() * L::count();
            &&& H::spec_first().rank() * L::count() + L::spec_first().rank() == 0
            &&& r < c
            &&& carry_next(head, last) is None <==> r + 1 == c
            &&& carry_next(head, last) matches Some(w) ==> w.0.rank() * L::count() + w.1.rank() == r + 1
        }),
{
    H::lemma_rank(head);
    L::lemma_rank(last);
    lemma_digits_bound(head.rank(), last.rank(), H::count(), L::count());
    lemma_digits_last(head.rank(), last.rank(), H::count(), L::count());
    assert(0 * L::count() == 0);
    match last.spec_next() {
        Some(l) => {},
        None => match head.spec_next() {
            Some(h) => {
                H::lemma_rank(h);
                L::lemma_rank(L::spec_first());
                lemma_digits_carry(head.rank(), L::count());
            },
            None => {},
        },
    }
}

/// Two products with equal ranks are equal.
proof fn lemma_carry_injective<H: Next, L: Next>(h1: H, l1: L, h2: H, l2: L)
    requires
        h1.rank() * L::count() + l1.rank() == h2.rank() * L::count() + l2.rank(),
    ensures
        h1 == h2,
        l1 == l2,
{
    L::lemma_rank(l1);
    L::lemma_rank(l2);
    lemma_digits_unique(h1.rank(), l1.rank(), h2.rank(), l2.rank(), L::count());
    H::lemma_rank_injective(h1, h2);
    L::lemma_rank_injective(l1, l2);
}

/// A record of one field follows that field.
impl<A: Next> Next for (A,) {
    open spec fn spec_first() -> (A,) {
        (A::spec_first(),)
    }

    fn first() -> (r: (A,)) {
        (A::first(),)
    }

    open spec fn spec_next(self) -> Option<(A,)> {
        match self.0.spec_next() {
            Some(a) => Some((a,)),
            None => None,
        }
    }

    open spec fn rank(self) -> nat {
        self.0.rank()
    }

    open spec fn count() -> nat {
        A::count()
    }

    proof fn lemma_rank(v: (A,)) {
        A::lemma_rank(v.0);
    }

    proof fn lemma_rank_injective(a: (A,), b: (A,)) {
        A::lemma_rank_injective(a.0, b.0);
    }

    fn next(self) -> (r: Option<(A,)>) {
        match self.0.next() {
            Some(a) => Some((a,)),
            None => None,
        }
    }
}

/// A record of two fields: the second varies fastest.
impl<A: Next, B: Next> Next for (A, B) {
    open spec fn spec_first() -> (A, B) {
        (A::spec_first(), B::spec_first())
    }

    fn first() -> (r: (A, B)) {
        (A::first(), B::first())
    }

    open spec fn spec_next(self) -> Option<(A, B)> {
        carry_next(self.0, self.1)
    }

    open spec fn rank(self) -> nat {
        self.0.rank() * B::count() + self.1.rank()
    }

    open spec fn count() -> nat {
        A::count() * B::count()
    }

    proof fn lemma_rank(v: (A, B)) {
        lemma_carry_rank(v.0, v.1);
    }

    proof fn lemma_rank_injective(a: (A, B), b: (A, B)) {
        if a.rank() == b.rank() {
            lemma_carry_injective(a.0, a.1, b.0, b.1);
        }
    }

    fn next(self) -> (r: Option<(A, B)>) {
        let (a, b) = self;
        match b.next() {
            Some(b) => Some((a, b)),
            None => match a.next() {
                Some(a) => Some((a, B::first())),
                None => None,
            },
        }
    }
}

/// A record of three fields: the third varies fastest, then the second.
impl<A: Next, B: Next, C: Next> Next for (A, B, C) {
    open spec fn spec_first() -> (A, B, C) {
        (A::spec_first(), B::spec_first(), C::spec_first())
    }

    fn first() -> (r: (A, B, C)) {
        (A::first(), B::first(), C::first())
    }

    open spec fn spec_next(self) -> Option<(A, B, C)> {
        match carry_next((self.0, self.1), self.2) {
            Some((h, l)) => Some((h.0, h.1, l)),
            None => None,
        }
    }

    open spec fn rank(self) -> nat {
        (self.0, self.1).rank() * C::count() + self.2.rank()
    }

    open spec fn count() -> nat {
        <(A, B)>::count() * C::count()
    }

    proof fn lemma_rank(v: (A, B, C)) {
        lemma_carry_rank((v.0, v.1), v.2);
    }

    proof fn lemma_rank_injective(a: (A, B, C), b: (A, B, C)) {
        if a.rank() == b.rank() {
            lemma_carry_injective((a.0, a.1), a.2, (b.0, b.1), b.2);
        }
    }

    fn next(self) -> (r: Option<(A, B, C)>) {
        let (a, b, c) = self;
        match c.next() {
            Some(c) => Some((a, b, c)),
            None => match (a, b).next() {
                Some((a, b)) => Some((a, b, C::first())),
                None => None,
            },
        }
    }
}

/// A record of four fields: the fourth varies fastest, the first slowest.
impl<A: Next, B: Next, C: Next, D: Next> Next for (A, B, C, D) {
    open spec fn spec_first() -> (A, B, C, D) {
        (A::spec_first(), B::spec_first(), C::spec_first(), D::spec_first())
    }

    fn first() -> (r: (A, B, C, D)) {
        (A::first(), B::first(), C::first(), D::first())
    }

    open spec fn spec_next(self) -> Option<(A, B, C, D)> {
        match carry_next((self.0, self.1, self.2), self.3) {
            Some((h, l)) => Some((h.0, h.1, h.2, l)),
            None => None,
        }
    }

    open spec fn rank(self) -> nat {
        (self.0, self.1, self.2).rank() * D::count() + self.3.rank()
    }

    open spec fn count() -> nat {
        <(A, B, C)>::count() * D::count()
    }

    proof fn lemma_rank(v: (A, B, C, D)) {
        lemma_carry_rank((v.0, v.1, v.2), v.3);
    }

    proof fn lemma_rank_injective(a: (A, B, C, D), b: (A, B, C, D)) {
        if a.rank() == b.rank() {
            lemma_carry_injective((a.0, a.1, a.2), a.3, (b.0, b.1, b.2), b.3);
        }
    }

    fn next(self) -> (r: Option<(A, B, C, D)>) {
        let (a, b, c, d) = self;
        match d.next() {
            Some(d) => Some((a, b, c, d)),
            None => match (a, b, c).next() {
                Some((a, b, c)) => Some((a, b, c, D::first())),
                None => None,
            },
        }
    }
}

/// A tagged union of alternatives ordered by discriminant: `First` holds the
/// payload of the lowest alternative, `Rest` a value of the others. Unions of
/// more alternatives nest in `Rest`.
#[derive(PartialEq, Eq, Debug, Clone, Copy)]
pub enum Sum<A, B> {
    First(A),
    Rest(B),
}

/// The alternatives follow one another: every payload of `First` precedes the
/// minimum of `Rest`.
impl<A: Next, B: Next> Next for Sum<A, B> {
    open spec fn spec_first() -> Sum<A, B> {
        Sum::First(A::spec_first())
    }

    fn first() -> (r: Sum<A, B>) {
        Sum::First(A::first())
    }

    open spec fn spec_next(self) -> Option<Sum<A, B>> {
        match self {
            Sum::First(a) => match a.spec_next() {
                Some(a) => Some(Sum::First(a)),
                None => Some(Sum::Rest(B::spec_first())),
            },
            Sum::Rest(b) => match b.spec_next() {
                Some(b) => Some(Sum::Rest(b)),
                None => None,
            },
        }
    }

    open spec fn rank(self) -> nat {
        match self {
            Sum::First(a) => a.rank(),
            Sum::Rest(b) => A::count() + b.rank(),
        }
    }

    open spec fn count() -> nat {
        A::count() + B::count()
    }

    proof fn lemma_rank(v: Sum<A, B>) {
        A::lemma_rank(A::spec_first());
        B::lemma_rank(B::spec_first());
        match v {
            Sum::First(a) => {
                A::lemma_rank(a);
                if let Some(n) = a.spec_next() {
                    A::lemma_rank(n);
                }
            },
            Sum::Rest(b) => {
                B::lemma_rank(b);
                if let Some(n) = b.spec_next() {
                    B::lemma_rank(n);
                }
            },
        }
    }

    proof fn lemma_rank_injective(a: Sum<A, B>, b: Sum<A, B>) {
        match (a, b) {
            (Sum::First(x), Sum::First(y)) => A::lemma_rank_injective(x, y),
            (Sum::Rest(x), Sum::Rest(y)) => B::lemma_rank_injective(x, y),
            (Sum::First(x), Sum::Rest(_)) => A::lemma_rank(x),
            (Sum::Rest(_), Sum::First(y)) => A::lemma_rank(y),
        }
    }

    fn next(self) -> (r: Option<Sum<A, B>>) {
        match self {
            Sum::First(a) => match a.next() {
                Some(a) => Some(Sum::First(a)),
                None => Some(Sum::Rest(B::first())),
            },
            Sum::Rest(b) => match b.next() {
                Some(b) => Some(Sum::Rest(b)),
                None => None,
            },
        }
    }
}

} // verus!
