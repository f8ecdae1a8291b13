use list_sets::arrays::{ElemType, ListArr, SetResult};
use list_sets::dispatch::array_set_operation;
use list_sets::elem::Elem;
use list_sets::entry::{boolean_list_set_operation, list_set_operation};
use list_sets::op::{SetOperation, SetsError};

fn num_list(rows: Vec<Vec<Option<u64>>>) -> ListArr {
    let mut offsets = vec![0usize];
    let mut values = Vec::new();
    for row in rows {
        for e in row {
            values.push(match e {
                Some(v) => Elem::Num(v),
                None => Elem::Null,
            });
        }
        offsets.push(values.len());
    }
    ListArr { dtype: ElemType::Int64, offsets, values, validity: None }
}

fn result_rows(out: &ListArr) -> Vec<Vec<Elem>> {
    let mut rows = Vec::new();
    for i in 0..out.offsets.len() - 1 {
        let mut row = Vec::new();
        for k in out.offsets[i]..out.offsets[i + 1] {
            row.push(match &out.values[k] {
                Elem::Null => Elem::Null,
                Elem::Num(v) => Elem::Num(*v),
                Elem::Bytes(b) => Elem::Bytes(b.clone()),
            });
        }
        rows.push(row);
    }
    rows
}

fn nums(vals: &[u64]) -> Vec<Elem> {
    vals.iter().map(|v| Elem::Num(*v)).collect()
}

fn one_row_op(op: SetOperation) -> Vec<Elem> {
    let a = num_list(vec![vec![Some(1), Some(2), Some(2), Some(3)]]);
    let b = num_list(vec![vec![Some(2), Some(3), Some(4)]]);
    let out = list_set_operation(&a, &b, op).unwrap();
    assert_eq!(out.offsets.len(), 2);
    result_rows(&out).remove(0)
}

fn one_row_predicate(op: SetOperation) -> bool {
    let a = num_list(vec![vec![Some(1), Some(2), Some(2), Some(3)]]);
    let b = num_list(vec![vec![Some(2), Some(3), Some(4)]]);
    match array_set_operation(&a, &b, op).unwrap() {
        SetResult::Bool(out) => {
            assert_eq!(out.values.len(), 1);
            out.values[0]
        },
        SetResult::List(_) => panic!("predicate produced a list"),
    }
}

#[test]
fn intersection_concrete() {
    assert_eq!(one_row_op(SetOperation::Intersection), nums(&[2, 3]));
}

#[test]
fn union_concrete() {
    assert_eq!(one_row_op(SetOperation::Union), nums(&[1, 2, 3, 4]));
}

#[test]
fn difference_concrete() {
    assert_eq!(one_row_op(SetOperation::Difference), nums(&[1]));
}

#[test]
fn symmetric_difference_concrete() {
    assert_eq!(one_row_op(SetOperation::SymmetricDifference), nums(&[1, 4]));
}

#[test]
fn is_subset_concrete() {
    assert!(!one_row_predicate(SetOperation::IsSubset));
}

#[test]
fn is_disjoint_concrete() {
    assert!(!one_row_predicate(SetOperation::IsDisjoint));
}

#[test]
fn is_superset_concrete() {
    assert!(!one_row_predicate(SetOperation::IsSuperset));
}

#[test]
fn null_counts_as_one_value() {
    let a = num_list(vec![vec![None, Some(1), None, Some(2)]]);
    let b = num_list(vec![vec![]]);
    let out = list_set_operation(&a, &b, SetOperation::Union).unwrap();
    assert_eq!(
        result_rows(&out),
        vec![vec![Elem::Null, Elem::Num(1), Elem::Num(2)]],
    );
}

#[test]
fn union_with_self_deduplicates() {
    let a = num_list(vec![vec![Some(5), Some(5), Some(1), Some(5), Some(1)]]);
    let out = list_set_operation(&a, &a, SetOperation::Union).unwrap();
    assert_eq!(result_rows(&out), vec![nums(&[5, 1])]);
}

#[test]
fn subset_is_reflexive() {
    let a = num_list(vec![vec![Some(1), Some(2), Some(3)]]);
    match array_set_operation(&a, &a, SetOperation::IsSubset).unwrap() {
        SetResult::Bool(out) => assert_eq!(out.values, vec![true]),
        SetResult::List(_) => panic!("predicate produced a list"),
    }
}

#[test]
fn empty_row_subset_and_disjoint() {
    let a = num_list(vec![vec![]]);
    let b = num_list(vec![vec![Some(7), Some(8)]]);
    for op in [SetOperation::IsSubset, SetOperation::IsDisjoint] {
        match array_set_operation(&a, &b, op).unwrap() {
            SetResult::Bool(out) => assert_eq!(out.values, vec![true]),
            SetResult::List(_) => panic!("predicate produced a list"),
        }
    }
}

#[test]
fn broadcast_applies_to_every_row() {
    let a = num_list(vec![
        vec![Some(1), Some(2)],
        vec![Some(2), Some(3), Some(2)],
        vec![Some(4)],
    ]);
    let b = num_list(vec![vec![Some(2), Some(4)]]);
    let out = list_set_operation(&a, &b, SetOperation::Intersection).unwrap();
    assert_eq!(
        result_rows(&out),
        vec![nums(&[2]), nums(&[2]), nums(&[4])],
    );
}

#[test]
fn broadcast_left_side() {
    let a = num_list(vec![vec![Some(1), Some(2)]]);
    let b = num_list(vec![vec![Some(2)], vec![Some(3)], vec![Some(1), Some(2)]]);
    let out = list_set_operation(&a, &b, SetOperation::Difference).unwrap();
    assert_eq!(
        result_rows(&out),
        vec![nums(&[1]), nums(&[1, 2]), Vec::new()],
    );
}

#[test]
fn shape_mismatch_rejected() {
    let a = num_list(vec![vec![Some(1)], vec![Some(2)], vec![Some(3)]]);
    let b = num_list(vec![
        vec![Some(1)],
        vec![Some(2)],
        vec![Some(3)],
        vec![Some(4)],
        vec![Some(5)],
    ]);
    let r = list_set_operation(&a, &b, SetOperation::Union);
    assert!(matches!(r, Err(SetsError::ShapeMismatch)));
}

#[test]
fn boolean_elements_rejected() {
    let mut a = num_list(vec![vec![Some(1)]]);
    a.dtype = ElemType::Boolean;
    let mut b = num_list(vec![vec![Some(1)]]);
    b.dtype = ElemType::Boolean;
    let r = list_set_operation(&a, &b, SetOperation::Union);
    assert!(matches!(r, Err(SetsError::InvalidOperation)));
}

#[test]
fn boolean_entry_point_is_stub() {
    let a = num_list(vec![vec![Some(1)]]);
    let b = num_list(vec![vec![Some(2)]]);
    let r = boolean_list_set_operation(&a, &b, SetOperation::IsSubset);
    assert!(matches!(r, Err(SetsError::NotImplemented)));
}

#[test]
fn boolean_entry_point_still_checks_shape() {
    let a = num_list(vec![vec![Some(1)], vec![Some(2)], vec![Some(3)]]);
    let b = num_list(vec![vec![Some(1)], vec![Some(2)]]);
    let r = boolean_list_set_operation(&a, &b, SetOperation::IsSubset);
    assert!(matches!(r, Err(SetsError::ShapeMismatch)));
}

#[test]
fn validity_is_anded_row_by_row() {
    let mut a = num_list(vec![vec![Some(1)], vec![Some(2)], vec![Some(3)]]);
    a.validity = Some(vec![true, false, true]);
    let mut b = num_list(vec![vec![Some(1)], vec![Some(2)], vec![Some(3)]]);
    b.validity = Some(vec![true, true, false]);
    let out = list_set_operation(&a, &b, SetOperation::Union).unwrap();
    assert_eq!(out.validity, Some(vec![true, false, false]));
}

#[test]
fn validity_broadcasts_with_the_row() {
    let a = num_list(vec![vec![Some(1)], vec![Some(2)], vec![Some(3)]]);
    let mut b = num_list(vec![vec![Some(9)]]);
    b.validity = Some(vec![false]);
    let out = list_set_operation(&a, &b, SetOperation::Union).unwrap();
    assert_eq!(out.validity, Some(vec![false, false, false]));
}

#[test]
fn zero_rows_give_zero_rows() {
    let a = num_list(vec![]);
    let b = num_list(vec![]);
    let out = list_set_operation(&a, &b, SetOperation::Intersection).unwrap();
    assert_eq!(out.offsets, vec![0]);
    assert!(out.values.is_empty());
}

#[test]
fn result_rows_have_no_duplicates() {
    let a = num_list(vec![vec![Some(1), Some(1), Some(2), Some(2), Some(1)]]);
    let b = num_list(vec![vec![Some(2), Some(2), Some(1), Some(3), Some(3)]]);
    for op in [
        SetOperation::Intersection,
        SetOperation::Union,
        SetOperation::Difference,
        SetOperation::SymmetricDifference,
    ] {
        let out = list_set_operation(&a, &b, op).unwrap();
        let rows = result_rows(&out);
        for row in rows {
            for i in 0..row.len() {
                for j in i + 1..row.len() {
                    assert_ne!(row[i], row[j]);
                }
            }
        }
    }
}

#[test]
fn union_keeps_first_seen_order() {
    let a = num_list(vec![vec![Some(3), Some(1)]]);
    let b = num_list(vec![vec![Some(2), Some(1), Some(4)]]);
    let out = list_set_operation(&a, &b, SetOperation::Union).unwrap();
    assert_eq!(result_rows(&out), vec![nums(&[3, 1, 2, 4])]);
}
