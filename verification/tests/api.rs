use list_sets::arrays::{ElemType, ListArr};
use list_sets::elem::Elem;
use list_sets::entry::list_set_operation;
use list_sets::op::{SetOperation, SetsError};

#[test]
fn is_boolean_classification() {
    assert!(!SetOperation::Intersection.is_boolean());
    assert!(!SetOperation::Union.is_boolean());
    assert!(!SetOperation::Difference.is_boolean());
    assert!(!SetOperation::SymmetricDifference.is_boolean());
    assert!(SetOperation::IsDisjoint.is_boolean());
    assert!(SetOperation::IsSubset.is_boolean());
    assert!(SetOperation::IsSuperset.is_boolean());
}

#[test]
fn operation_names() {
    assert_eq!(SetOperation::Intersection.name(), "intersection");
    assert_eq!(SetOperation::Union.name(), "union");
    assert_eq!(SetOperation::Difference.name(), "difference");
    assert_eq!(SetOperation::SymmetricDifference.name(), "symmetric_difference");
    assert_eq!(SetOperation::IsDisjoint.name(), "is_disjoint");
    assert_eq!(SetOperation::IsSubset.name(), "is_subset");
    assert_eq!(SetOperation::IsSuperset.name(), "is_superset");
}

#[test]
fn error_messages() {
    assert_eq!(SetsError::ShapeMismatch.message(), "column lengths don't match");
    assert_eq!(
        SetsError::InvalidOperation.message(),
        "boolean type not yet supported in list 'set' operations",
    );
    assert_eq!(
        SetsError::NotImplemented.message(),
        "boolean-result list set operations are not yet implemented",
    );
}

#[test]
fn narrow_integer_tag_is_preserved() {
    let a = ListArr {
        dtype: ElemType::UInt8,
        offsets: vec![0, 2],
        values: vec![Elem::Num(7), Elem::Num(7)],
        validity: None,
    };
    let b = ListArr {
        dtype: ElemType::UInt8,
        offsets: vec![0, 1],
        values: vec![Elem::Num(9)],
        validity: None,
    };
    let out = list_set_operation(&a, &b, SetOperation::Union).unwrap();
    assert_eq!(out.dtype, ElemType::UInt8);
    assert_eq!(out.values, vec![Elem::Num(7), Elem::Num(9)]);
}
