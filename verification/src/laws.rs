//! The set-theoretic reading of the per-row results.
//!
//! Each lemma states one law of the row algebra over arbitrary rows: read
//! as sets of (possibly null) element values, the list-producing results
//! are exactly the standard set operations, and the predicates are the
//! standard set relations.

use vstd::prelude::*;
use crate::elem::ElemV;
use crate::model::{
    dedup_seq, keep_in, keep_out, lemma_dedup_seq, lemma_extend_unique_all_present,
    lemma_extend_unique_concat, lemma_keep_in_contains, lemma_keep_out_contains, op_row,
    op_row_bool,
};
use crate::op::SetOperation;

verus! {

/// As a set, an intersection row is the intersection of the two rows'
/// element sets; in particular it is symmetric in its arguments.
pub proof fn lemma_intersection_set_semantics(a: Seq<ElemV>, b: Seq<ElemV>)
    ensures
        op_row(SetOperation::Intersection, a, b).to_set() == a.to_set().intersect(b.to_set()),
        op_row(SetOperation::Intersection, a, b).to_set() == op_row(
            SetOperation::Intersection,
            b,
            a,
        ).to_set(),
{
    lemma_dedup_seq(a);
    lemma_dedup_seq(b);
    lemma_keep_in_contains(dedup_seq(a), b);
    lemma_keep_in_contains(dedup_seq(b), a);
    assert(keep_in(dedup_seq(a), b).to_set() =~= a.to_set().intersect(b.to_set()));
    assert(keep_in(dedup_seq(b), a).to_set() =~= a.to_set().intersect(b.to_set()));
}

/// As a set, a union row is the union of the two rows' element sets.
pub proof fn lemma_union_set_semantics(a: Seq<ElemV>, b: Seq<ElemV>)
    ensures
        op_row(SetOperation::Union, a, b).to_set() == a.to_set().union(b.to_set()),
{
    broadcast use vstd::seq_lib::lemma_seq_concat_contains_all_elements;

    lemma_dedup_seq(a + b);
    assert(dedup_seq(a + b).to_set() =~= a.to_set().union(b.to_set()));
}

/// As a set, a difference row is the set difference of the two rows'
/// element sets.
pub proof fn lemma_difference_set_semantics(a: Seq<ElemV>, b: Seq<ElemV>)
    ensures
        op_row(SetOperation::Difference, a, b).to_set() == a.to_set().difference(b.to_set()),
{
    lemma_dedup_seq(a);
    lemma_keep_out_contains(dedup_seq(a), b);
    assert(keep_out(dedup_seq(a), b).to_set() =~= a.to_set().difference(b.to_set()));
}

/// As a set, a symmetric-difference row is the union of the two one-sided
/// differences of the rows' element sets.
pub proof fn lemma_symmetric_difference_set_semantics(a: Seq<ElemV>, b: Seq<ElemV>)
    ensures
        op_row(SetOperation::SymmetricDifference, a, b).to_set() == a.to_set().difference(
            b.to_set(),
        ).union(b.to_set().difference(a.to_set())),
{
    broadcast use vstd::seq_lib::lemma_seq_concat_contains_all_elements;

    lemma_dedup_seq(a);
    lemma_dedup_seq(b);
    lemma_keep_out_contains(dedup_seq(a), b);
    lemma_keep_out_contains(dedup_seq(b), a);
    assert((keep_out(dedup_seq(a), b) + keep_out(dedup_seq(b), a)).to_set() =~= a.to_set()
        .difference(b.to_set()).union(b.to_set().difference(a.to_set())));
}

/// The disjointness predicate matches set disjointness.
pub proof fn lemma_is_disjoint_set_semantics(a: Seq<ElemV>, b: Seq<ElemV>)
    ensures
        op_row_bool(SetOperation::IsDisjoint, a, b) == a.to_set().disjoint(b.to_set()),
{
    if op_row_bool(SetOperation::IsDisjoint, a, b) {
        assert forall|e: ElemV| a.to_set().contains(e) implies !b.to_set().contains(e) by {
            assert(a.contains(e));
        }
    }
    if a.to_set().disjoint(b.to_set()) {
        assert forall|e: ElemV| a.contains(e) implies !b.contains(e) by {
            assert(a.to_set().contains(e));
        }
    }
}

/// The subset predicate matches set inclusion; the superset predicate is
/// the same inclusion with the sides swapped.
pub proof fn lemma_inclusion_set_semantics(a: Seq<ElemV>, b: Seq<ElemV>)
    ensures
        op_row_bool(SetOperation::IsSubset, a, b) == a.to_set().subset_of(b.to_set()),
        op_row_bool(SetOperation::IsSuperset, a, b) == b.to_set().subset_of(a.to_set()),
{
    if op_row_bool(SetOperation::IsSubset, a, b) {
        assert forall|e: ElemV| a.to_set().contains(e) implies b.to_set().contains(e) by {
            assert(a.contains(e));
        }
    }
    if a.to_set().subset_of(b.to_set()) {
        assert forall|e: ElemV| a.contains(e) implies b.contains(e) by {
            assert(a.to_set().contains(e));
        }
    }
    if op_row_bool(SetOperation::IsSuperset, a, b) {
        assert forall|e: ElemV| b.to_set().contains(e) implies a.to_set().contains(e) by {
            assert(b.contains(e));
        }
    }
    if b.to_set().subset_of(a.to_set()) {
        assert forall|e: ElemV| b.contains(e) implies a.contains(e) by {
            assert(b.to_set().contains(e));
        }
    }
}

/// Every row is a subset of itself.
pub proof fn lemma_is_subset_reflexive(a: Seq<ElemV>)
    ensures
        op_row_bool(SetOperation::IsSubset, a, a),
{
}

/// The empty row is a subset of, and disjoint from, every row.
pub proof fn lemma_empty_row_identities(a: Seq<ElemV>)
    ensures
        op_row_bool(SetOperation::IsSubset, Seq::<ElemV>::empty(), a),
        op_row_bool(SetOperation::IsDisjoint, Seq::<ElemV>::empty(), a),
{
    broadcast use vstd::seq_lib::lemma_seq_empty_contains_nothing;

}

/// Every element of a list-producing row result comes from one of the rows.
pub proof fn lemma_result_elements_come_from_rows(op: SetOperation, a: Seq<ElemV>, b: Seq<ElemV>)
    ensures
        forall|e: ElemV| #[trigger] op_row(op, a, b).contains(e) ==> a.contains(e) || b.contains(e),
{
    lemma_dedup_seq(a);
    lemma_dedup_seq(b);
    lemma_dedup_seq(a + b);
    lemma_keep_in_contains(dedup_seq(a), b);
    lemma_keep_out_contains(dedup_seq(a), b);
    lemma_keep_out_contains(dedup_seq(b), a);
    broadcast use vstd::seq_lib::lemma_seq_concat_contains_all_elements;

    assert forall|e: ElemV| #[trigger]
        op_row(op, a, b).contains(e) implies a.contains(e) || b.contains(e) by {
        match op {
            SetOperation::SymmetricDifference => {
                let p = keep_out(dedup_seq(a), b);
                let q = keep_out(dedup_seq(b), a);
                if (p + q).contains(e) {
                    let i = choose|i: int| 0 <= i < (p + q).len() && (p + q)[i] == e;
                    if i < p.len() {
                        assert(p[i] == e);
                        assert(p.contains(e));
                    } else {
                        assert(q[i - p.len()] == e);
                        assert(q.contains(e));
                    }
                }
            },
            _ => {},
        }
    }
}

/// A union of a row with itself is exactly the row's distinct elements, in
/// first-occurrence order.
pub proof fn lemma_union_idempotent(a: Seq<ElemV>)
    ensures
        op_row(SetOperation::Union, a, a) == dedup_seq(a),
{
    lemma_extend_unique_concat(Seq::<ElemV>::empty(), a, a);
    lemma_dedup_seq(a);
    assert forall|e: ElemV| #[trigger] a.contains(e) implies dedup_seq(a).contains(e) by {
        assert(dedup_seq(a).contains(e));
    }
    lemma_extend_unique_all_present(dedup_seq(a), a);
}

} // verus!

