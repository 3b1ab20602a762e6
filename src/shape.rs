//! Analysis of a type's declared shape: resolving the discriminants of a
//! tagged union's alternatives and ordering the alternatives by them.
use vstd::prelude::*;

verus! {

/// How an alternative of a tagged union declares its discriminant.
#[derive(PartialEq, Eq, Debug, Clone, Copy)]
pub enum Discriminant {
    /// No discriminant written: one past the previous alternative's, or zero
    /// for the first.
    Implicit,
    /// An integer literal.
    Literal(isize),
    /// Any other expression, which is not evaluated.
    Computed,
}

/// An alternative placed in discriminant order: its resolved discriminant and
/// its position among the declared alternatives.
#[derive(PartialEq, Eq, Debug, Clone, Copy)]
pub struct VariantOrder {
    pub discriminant: i128,
    pub variant: usize,
}

/// Why a shape admits no minimum and successor.
#[derive(PartialEq, Eq, Debug, Clone, Copy)]
pub enum ShapeError {
    /// The alternative at this position has a discriminant that is not a literal.
    ComputedDiscriminant { variant: usize },
    /// The alternatives at these two positions resolve to the same discriminant.
    DuplicateDiscriminant { first: usize, second: usize },
    /// A tagged union without alternatives has no values.
    Uninhabited,
    /// Overlapping untagged storage has no order.
    Untagged,
}

/// The declared shape of a type.
#[derive(PartialEq, Eq, Debug)]
pub enum DataShape {
    /// A record of fields.
    Record,
    /// A tagged union, with each alternative's discriminant in declaration order.
    Tagged(Vec<Discriminant>),
    /// Overlapping untagged storage.
    Untagged,
}

/// The result of analysing a shape.
#[derive(PartialEq, Eq, Debug)]
pub enum Layout {
    /// A record: its fields carry right to left.
    Record,
    /// A tagged union: its alternatives in ascending discriminant order.
    Tagged(Vec<VariantOrder>),
}

/// The discriminant that the alternative at position `i` resolves to.
pub open spec fn assigned(d: Seq<Discriminant>, i: int) -> int
    decreases i,
{
    match d[i] {
        Discriminant::Literal(x) => x as int,
        _ => if i <= 0 {
            0
        } else {
            assigned(d, i - 1) + 1
        },
    }
}

/// The first `n` alternatives have literal or implicit discriminants, and
/// these resolve to pairwise distinct values.
pub open spec fn valid_prefix(d: Seq<Discriminant>, n: int) -> bool {
    &&& forall|i: int| 0 <= i < n ==> !(#[trigger] d[i] is Computed)
    &&& forall|i: int, j: int|
        0 <= j < i < n ==> #[trigger] assigned(d, i) != #[trigger] assigned(d, j)
}

/// `order` lists every one of the `n` first alternatives once, with its
/// resolved discriminant, in strictly ascending discriminant order.
pub open spec fn is_order_of(order: Seq<VariantOrder>, d: Seq<Discriminant>, n: int) -> bool {
    &&& order.len() == n
    &&& forall|a: int, b: int|
        0 <= a < b < order.len() ==> #[trigger] order[a].discriminant
            < #[trigger] order[b].discriminant
    &&& forall|k: int|
        0 <= k < order.len() ==> {
            &&& #[trigger] order[k].variant < n
            &&& order[k].discriminant == assigned(d, order[k].variant as int)
        }
    &&& forall|p: int| 0 <= p < n ==> #[trigger] lists_variant(order, p)
}

/// Some entry of `order` is the alternative at position `p`.
pub open spec fn lists_variant(order: Seq<VariantOrder>, p: int) -> bool {
    exists|k: int| 0 <= k < order.len() && order[k].variant == p
}

/// The error that resolving `d` reports, if any: the first alternative that
/// is computed or repeats an earlier discriminant, or an empty union.
pub open spec fn resolve_error(d: Seq<Discriminant>, e: ShapeError) -> bool {
    match e {
        ShapeError::ComputedDiscriminant { variant } => {
            &&& variant < d.len()
            &&& valid_prefix(d, variant as int)
            &&& d[variant as int] is Computed
        },
        ShapeError::DuplicateDiscriminant { first, second } => {
            &&& first < second < d.len()
            &&& valid_prefix(d, second as int)
            &&& !(d[second as int] is Computed)
            &&& assigned(d, first as int) == assigned(d, second as int)
        },
        ShapeError::Uninhabited => d.len() == 0,
        ShapeError::Untagged => false,
    }
}

/// The first position in the strictly ascending `order` whose discriminant is
/// not below `target`.
fn find_slot(order: &Vec<VariantOrder>, target: i128) -> (pos: usize)
    requires
        forall|a: int, b: int|
            0 <= a < b < order@.len() ==> #[trigger] order@[a].discriminant
                < #[trigger] order@[b].discriminant,
    ensures
        pos <= order@.len(),
        forall|k: int| 0 <= k < pos ==> #[trigger] order@[k].discriminant < target,
        forall|k: int| pos <= k < order@.len() ==> #[trigger] order@[k].discriminant >= target,
{
    let mut pos: usize = 0;
    while pos < order.len() && order[pos].discriminant < target
        invariant
            pos <= order@.len(),
            forall|a: int, b: int|
                0 <= a < b < order@.len() ==> #[trigger] order@[a].discriminant
                    < #[trigger] order@[b].discriminant,
            forall|k: int| 0 <= k < pos ==> #[trigger] order@[k].discriminant < target,
        decreases order@.len() - pos,
    {
        pos = pos + 1;
    }
    proof {
        if pos < order@.len() {
            assert forall|k: int| pos <= k < order@.len() implies #[trigger] order@[k].discriminant
                >= target by {
                if k > pos {
                    assert(order@[pos as int].discriminant < order@[k].discriminant);
                }
            }
        }
    }
    pos
}

/// Inserting the alternative `i`, with a discriminant below every entry from
/// `pos` on and above every entry before it, extends the order to `i + 1`
/// alternatives.
proof fn lemma_order_insert(
    order: Seq<VariantOrder>,
    d: Seq<Discriminant>,
    i: int,
    pos: int,
    e: VariantOrder,
)
    requires
        is_order_of(order, d, i),
        0 <= pos <= order.len(),
        i < d.len(),
        e.variant == i,
        e.discriminant == assigned(d, i),
        forall|k: int| 0 <= k < pos ==> #[trigger] order[k].discriminant < e.discriminant,
        forall|k: int| pos <= k < order.len() ==> #[trigger] order[k].discriminant > e.discriminant,
    ensures
        is_order_of(order.insert(pos, e), d, i + 1),
{
    let n = order.insert(pos, e);
    assert forall|a: int, b: int| 0 <= a < b < n.len() implies #[trigger] n[a].discriminant
        < #[trigger] n[b].discriminant by {
        if a < pos && b > pos {
            assert(order[a].discriminant < e.discriminant);
            assert(order[b - 1].discriminant > e.discriminant);
        } else if a > pos {
            assert(order[a - 1].discriminant < order[b - 1].discriminant);
        } else if b < pos {
            assert(order[a].discriminant < order[b].discriminant);
        } else if a == pos {
            assert(order[b - 1].discriminant > e.discriminant);
        } else {
            assert(order[a].discriminant < e.discriminant);
        }
    }
    assert forall|k: int| 0 <= k < n.len() implies {
        &&& #[trigger] n[k].variant < i + 1
        &&& n[k].discriminant == assigned(d, n[k].variant as int)
    } by {
        if k < pos {
            assert(n[k] == order[k]);
        } else if k > pos {
            assert(n[k] == order[k - 1]);
        }
    }
    assert forall|p: int| 0 <= p < i + 1 implies #[trigger] lists_variant(n, p) by {
        if p == i {
            assert(n[pos].variant == p);
        } else {
            assert(lists_variant(order, p));
            let k = choose|k: int| 0 <= k < order.len() && order[k].variant == p;
            if k < pos {
                assert(n[k].variant == p);
            } else {
                assert(n[k + 1].variant == p);
            }
        }
    }
}

/// Resolves the discriminants of a tagged union's alternatives, given in
/// declaration order, and lists the alternatives in ascending discriminant
/// order. Fails at the first alternative whose discriminant is computed or
/// repeats an earlier one, and on a union without alternatives.
pub fn resolve_variants(decls: &Vec<Discriminant>) -> (r: Result<Vec<VariantOrder>, ShapeError>)
    ensures
        r is Ok <==> decls@.len() > 0 && valid_prefix(decls@, decls@.len() as int),
        r matches Ok(order) ==> is_order_of(order@, decls@, decls@.len() as int),
        r matches Err(e) ==> resolve_error(decls@, e),
{
    let mut order: Vec<VariantOrder> = Vec::new();
    let mut implicit: i128 = 0;
    let mut i: usize = 0;
    while i < decls.len()
        invariant
            i <= decls@.len(),
            valid_prefix(decls@, i as int),
            is_order_of(order@, decls@, i as int),
            i == 0 ==> implicit == 0,
            i > 0 ==> implicit == assigned(decls@, i - 1) + 1,
            isize::MIN <= implicit <= isize::MAX + i,
        decreases decls@.len() - i,
    {
        let d = decls[i];
        let cur: i128 = match d {
            Discriminant::Literal(x) => x as i128,
            Discriminant::Implicit => implicit,
            Discriminant::Computed => {
                return Err(ShapeError::ComputedDiscriminant { variant: i });
            },
        };
        assert(cur == assigned(decls@, i as int));
        let pos = find_slot(&order, cur);
        if pos < order.len() && order[pos].discriminant == cur {
            return Err(ShapeError::DuplicateDiscriminant { first: order[pos].variant, second: i });
        }
        let e = VariantOrder { discriminant: cur, variant: i };
        proof {
            assert forall|j: int| 0 <= j < i implies assigned(decls@, i as int) != assigned(
                decls@,
                j,
            ) by {
                assert(lists_variant(order@, j));
                let k = choose|k: int| 0 <= k < order@.len() && order@[k].variant == j;
                assert(order@[k].discriminant == assigned(decls@, j));
                if k >= pos {
                    assert(order@[k].discriminant > cur);
                }
            }
            assert forall|k: int| pos <= k < order@.len() implies #[trigger] order@[k].discriminant
                > e.discriminant by {
                if k == pos {
                } else {
                    assert(order@[k].discriminant >= cur);
                }
            }
            lemma_order_insert(order@, decls@, i as int, pos as int, e);
        }
        order.insert(pos, e);
        implicit = cur + 1;
        i = i + 1;
    }
    if order.len() == 0 {
        Err(ShapeError::Uninhabited)
    } else {
        Ok(order)
    }
}

/// Analyses a declared shape: a record is accepted as it is, a tagged union
/// has its alternatives resolved and ordered, and untagged storage is refused.
pub fn analyze_shape(shape: &DataShape) -> (r: Result<Layout, ShapeError>)
    ensures
        match shape {
            DataShape::Record => r == Ok::<Layout, ShapeError>(Layout::Record),
            DataShape::Untagged => r == Err::<Layout, ShapeError>(ShapeError::Untagged),
            DataShape::Tagged(decls) => {
                &&& r is Ok <==> decls@.len() > 0 && valid_prefix(decls@, decls@.len() as int)
                &&& r matches Ok(l) ==> (l matches Layout::Tagged(order) && is_order_of(
                    order@,
                    decls@,
                    decls@.len() as int,
                ))
                &&& r matches Err(e) ==> resolve_error(decls@, e)
            },
        },
{
    match shape {
        DataShape::Record => Ok(Layout::Record),
        DataShape::Untagged => Err(ShapeError::Untagged),
        DataShape::Tagged(decls) => match resolve_variants(decls) {
            Ok(order) => Ok(Layout::Tagged(order)),
            Err(e) => Err(e),
        },
    }
}

} // verus!
