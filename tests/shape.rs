use next::shape::{
    analyze_shape, resolve_variants, DataShape, Discriminant, Layout, ShapeError, VariantOrder,
};

fn entry(discriminant: i128, variant: usize) -> VariantOrder {
    VariantOrder { discriminant, variant }
}

#[test]
fn out_of_order_declaration_is_sorted() {
    let decls = vec![
        Discriminant::Literal(2),
        Discriminant::Literal(0),
        Discriminant::Implicit,
    ];
    assert_eq!(
        resolve_variants(&decls),
        Ok(vec![entry(0, 1), entry(1, 2), entry(2, 0)])
    );
}

#[test]
fn implicit_discriminants_count_from_zero() {
    let decls = vec![Discriminant::Implicit, Discriminant::Implicit, Discriminant::Implicit];
    assert_eq!(
        resolve_variants(&decls),
        Ok(vec![entry(0, 0), entry(1, 1), entry(2, 2)])
    );
}

#[test]
fn implicit_continues_from_literal() {
    let decls = vec![
        Discriminant::Literal(-3),
        Discriminant::Implicit,
        Discriminant::Literal(10),
        Discriminant::Implicit,
    ];
    assert_eq!(
        resolve_variants(&decls),
        Ok(vec![entry(-3, 0), entry(-2, 1), entry(10, 2), entry(11, 3)])
    );
}

#[test]
fn implicit_after_largest_literal() {
    let decls = vec![Discriminant::Literal(isize::MAX), Discriminant::Implicit];
    assert_eq!(
        resolve_variants(&decls),
        Ok(vec![
            entry(isize::MAX as i128, 0),
            entry(isize::MAX as i128 + 1, 1)
        ])
    );
}

#[test]
fn duplicate_discriminant_names_both() {
    let decls = vec![Discriminant::Implicit, Discriminant::Literal(5), Discriminant::Literal(0)];
    assert_eq!(
        resolve_variants(&decls),
        Err(ShapeError::DuplicateDiscriminant { first: 0, second: 2 })
    );
    let decls = vec![Discriminant::Literal(1), Discriminant::Literal(0), Discriminant::Implicit];
    assert_eq!(
        resolve_variants(&decls),
        Err(ShapeError::DuplicateDiscriminant { first: 0, second: 2 })
    );
}

#[test]
fn computed_discriminant_is_refused() {
    let decls = vec![Discriminant::Implicit, Discriminant::Computed, Discriminant::Implicit];
    assert_eq!(
        resolve_variants(&decls),
        Err(ShapeError::ComputedDiscriminant { variant: 1 })
    );
}

#[test]
fn first_failure_wins() {
    let decls = vec![
        Discriminant::Literal(0),
        Discriminant::Literal(0),
        Discriminant::Computed,
    ];
    assert_eq!(
        resolve_variants(&decls),
        Err(ShapeError::DuplicateDiscriminant { first: 0, second: 1 })
    );
}

#[test]
fn empty_union_is_uninhabited() {
    assert_eq!(resolve_variants(&vec![]), Err(ShapeError::Uninhabited));
    assert_eq!(
        analyze_shape(&DataShape::Tagged(vec![])),
        Err(ShapeError::Uninhabited)
    );
}

#[test]
fn shapes_are_analysed() {
    assert_eq!(analyze_shape(&DataShape::Record), Ok(Layout::Record));
    assert_eq!(analyze_shape(&DataShape::Untagged), Err(ShapeError::Untagged));
    assert_eq!(
        analyze_shape(&DataShape::Tagged(vec![Discriminant::Literal(4), Discriminant::Literal(-4)])),
        Ok(Layout::Tagged(vec![entry(-4, 1), entry(4, 0)]))
    );
}
