use list_sets::arrays::{ElemType, ListArr};
use list_sets::elem::Elem;
use list_sets::entry::list_set_operation;
use list_sets::op::SetOperation;

fn byte_list(dtype: ElemType, rows: Vec<Vec<Option<&str>>>) -> ListArr {
    let mut offsets = vec![0usize];
    let mut values = Vec::new();
    for row in rows {
        for e in row {
            values.push(match e {
                Some(s) => Elem::Bytes(s.as_bytes().to_vec()),
                None => Elem::Null,
            });
        }
        offsets.push(values.len());
    }
    ListArr { dtype, offsets, values, validity: None }
}

fn rows_of(out: &ListArr) -> Vec<Vec<Elem>> {
    let mut rows = Vec::new();
    for i in 0..out.offsets.len() - 1 {
        let mut row = Vec::new();
        for k in out.offsets[i]..out.offsets[i + 1] {
            row.push(match &out.values[k] {
                Elem::Null => Elem::Null,
                Elem::Num(v) => Elem::Num(*v),
                Elem::Bytes(b) => Elem::Bytes(b.clone()),
            });
        }
        rows.push(row);
    }
    rows
}

fn texts(vals: &[&str]) -> Vec<Elem> {
    vals.iter().map(|s| Elem::Bytes(s.as_bytes().to_vec())).collect()
}

#[test]
fn text_round_trip_keeps_text_type() {
    let a = byte_list(ElemType::Text, vec![vec![Some("pear"), Some("fig"), Some("pear")]]);
    let b = byte_list(ElemType::Text, vec![vec![Some("fig"), Some("plum")]]);
    let out = list_set_operation(&a, &b, SetOperation::Union).unwrap();
    assert_eq!(out.dtype, ElemType::Text);
    assert_eq!(rows_of(&out), vec![texts(&["pear", "fig", "plum"])]);
}

#[test]
fn text_round_trip_matches_binary_computation() {
    for op in [
        SetOperation::Intersection,
        SetOperation::Union,
        SetOperation::Difference,
        SetOperation::SymmetricDifference,
    ] {
        let rows_a = vec![vec![Some("ab"), Some("cd"), Some("ab")], vec![Some("x")]];
        let rows_b = vec![vec![Some("cd"), Some("ef")], vec![Some("x"), Some("y")]];
        let ta = byte_list(ElemType::Text, rows_a.clone());
        let tb = byte_list(ElemType::Text, rows_b.clone());
        let ba = byte_list(ElemType::Binary, rows_a);
        let bb = byte_list(ElemType::Binary, rows_b);
        let text_out = list_set_operation(&ta, &tb, op).unwrap();
        let bin_out = list_set_operation(&ba, &bb, op).unwrap();
        assert_eq!(text_out.dtype, ElemType::Text);
        assert_eq!(bin_out.dtype, ElemType::Binary);
        assert_eq!(rows_of(&text_out), rows_of(&bin_out));
        assert_eq!(text_out.offsets, bin_out.offsets);
    }
}

#[test]
fn binary_intersection_with_nulls() {
    let a = byte_list(ElemType::Binary, vec![vec![None, Some("ab"), None, Some("cd")]]);
    let b = byte_list(ElemType::Binary, vec![vec![Some("ab"), None]]);
    let out = list_set_operation(&a, &b, SetOperation::Intersection).unwrap();
    assert_eq!(rows_of(&out), vec![vec![Elem::Null, Elem::Bytes(b"ab".to_vec())]]);
}

#[test]
fn equal_byte_strings_deduplicate() {
    let a = byte_list(ElemType::Binary, vec![vec![Some("kiwi"), Some("kiwi")]]);
    let b = byte_list(ElemType::Binary, vec![vec![]]);
    let out = list_set_operation(&a, &b, SetOperation::Union).unwrap();
    assert_eq!(rows_of(&out), vec![texts(&["kiwi"])]);
}
