//! The row set engine: applies one operation to one pair of row slices.
//!
//! The first dedup set is cleared and rebuilt from row A on every call. The
//! second holds row B's distinct values; when `broadcast_rhs` is set the
//! caller has filled it once for the single broadcast row and the engine
//! leaves it untouched, otherwise the engine rebuilds it where the operation
//! needs it.

use vstd::prelude::*;
use crate::dedup::DedupSet;
use crate::elem::{Elem, ElemV};
use crate::model::{
    dedup_seq, elem_views, extend_unique, keep_in, keep_out, lemma_dedup_seq,
    lemma_extend_unique_concat, lemma_keep_in_congruent, lemma_keep_out_congruent, op_row,
    op_row_bool, row_elems,
};
use crate::op::SetOperation;

verus! {

/// Whether `values[start..end]` holds the value of `e`.
fn slice_contains(values: &Vec<Elem>, start: usize, end: usize, e: &Elem) -> (r: bool)
    requires
        start <= end <= values@.len(),
    ensures
        r == row_elems(values@, start as int, end as int).contains(e@),
{
    let ghost row = row_elems(values@, start as int, end as int);
    let mut k: usize = start;
    while k < end
        invariant
            start <= k <= end <= values@.len(),
            row == row_elems(values@, start as int, end as int),
            forall|i: int| start <= i < k ==> values@[i]@ != e@,
        decreases end - k,
    {
        if values[k].eq_elem(e) {
            proof {
                let i = k - start;
                assert(values@.subrange(start as int, end as int)[i as int] == values@[k as int]);
                assert(row[i as int] == e@);
                assert(row.contains(e@));
            }
            return true;
        }
        k += 1;
    }
    proof {
        if row.contains(e@) {
            let i = choose|i: int| 0 <= i < row.len() && row[i] == e@;
            assert(values@[start + i]@ == e@);
        }
    }
    false
}

/// Appends, in order, the values of `set` that occur in `other`.
fn append_in_set(set: &DedupSet, other: &DedupSet, out: &mut Vec<Elem>)
    ensures
        elem_views(final(out)@) == elem_views(old(out)@) + keep_in(set@, other@),
{
    let ghost base = elem_views(old(out)@);
    proof {
        assert(set@.take(0) =~= Seq::<ElemV>::empty());
        assert(base + keep_in(set@.take(0), other@) =~= base);
    }
    let mut j: usize = 0;
    while j < set.len()
        invariant
            j <= set@.len(),
            elem_views(out@) == base + keep_in(set@.take(j as int), other@),
        decreases set@.len() - j,
    {
        let ghost pre = elem_views(out@);
        let e = set.get(j);
        if other.contains(e) {
            out.push(e.dup());
            proof {
                assert(elem_views(out@) =~= pre.push(set@[j as int]));
            }
        }
        proof {
            assert(set@.take(j + 1 as int).drop_last() =~= set@.take(j as int));
            assert(set@.take(j + 1 as int).last() == set@[j as int]);
            assert(base + keep_in(set@.take(j as int), other@).push(set@[j as int]) =~= (base
                + keep_in(set@.take(j as int), other@)).push(set@[j as int]));
        }
        j += 1;
    }
    proof {
        assert(set@.take(set@.len() as int) =~= set@);
    }
}

/// Appends, in order, the values of `set` that do not occur in `other`.
fn append_out_set(set: &DedupSet, other: &DedupSet, out: &mut Vec<Elem>)
    ensures
        elem_views(final(out)@) == elem_views(old(out)@) + keep_out(set@, other@),
{
    let ghost base = elem_views(old(out)@);
    proof {
        assert(set@.take(0) =~= Seq::<ElemV>::empty());
        assert(base + keep_out(set@.take(0), other@) =~= base);
    }
    let mut j: usize = 0;
    while j < set.len()
        invariant
            j <= set@.len(),
            elem_views(out@) == base + keep_out(set@.take(j as int), other@),
        decreases set@.len() - j,
    {
        let ghost pre = elem_views(out@);
        let e = set.get(j);
        if !other.contains(e) {
            out.push(e.dup());
            proof {
                assert(elem_views(out@) =~= pre.push(set@[j as int]));
            }
        }
        proof {
            assert(set@.take(j + 1 as int).drop_last() =~= set@.take(j as int));
            assert(set@.take(j + 1 as int).last() == set@[j as int]);
            assert(base + keep_out(set@.take(j as int), other@).push(set@[j as int]) =~= (base
                + keep_out(set@.take(j as int), other@)).push(set@[j as int]));
        }
        j += 1;
    }
    proof {
        assert(set@.take(set@.len() as int) =~= set@);
    }
}

/// Appends, in order, the values of `set` that do not occur in the slice
/// `values[start..end]`.
fn append_out_slice(
    set: &DedupSet,
    values: &Vec<Elem>,
    start: usize,
    end: usize,
    out: &mut Vec<Elem>,
)
    requires
        start <= end <= values@.len(),
    ensures
        elem_views(final(out)@) == elem_views(old(out)@) + keep_out(
            set@,
            row_elems(values@, start as int, end as int),
        ),
{
    let ghost row = row_elems(values@, start as int, end as int);
    let ghost base = elem_views(old(out)@);
    proof {
        assert(set@.take(0) =~= Seq::<ElemV>::empty());
        assert(base + keep_out(set@.take(0), row) =~= base);
    }
    let mut j: usize = 0;
    while j < set.len()
        invariant
            j <= set@.len(),
            start <= end <= values@.len(),
            row == row_elems(values@, start as int, end as int),
            elem_views(out@) == base + keep_out(set@.take(j as int), row),
        decreases set@.len() - j,
    {
        let ghost pre = elem_views(out@);
        let e = set.get(j);
        if !slice_contains(values, start, end, e) {
            out.push(e.dup());
            proof {
                assert(elem_views(out@) =~= pre.push(set@[j as int]));
            }
        }
        proof {
            assert(set@.take(j + 1 as int).drop_last() =~= set@.take(j as int));
            assert(set@.take(j + 1 as int).last() == set@[j as int]);
            assert(base + keep_out(set@.take(j as int), row).push(set@[j as int]) =~= (base
                + keep_out(set@.take(j as int), row)).push(set@[j as int]));
        }
        j += 1;
    }
    proof {
        assert(set@.take(set@.len() as int) =~= set@);
    }
}

/// Appends every value of `set`, in order.
fn append_all(set: &DedupSet, out: &mut Vec<Elem>)
    ensures
        elem_views(final(out)@) == elem_views(old(out)@) + set@,
{
    let ghost base = elem_views(old(out)@);
    proof {
        assert(set@.take(0) =~= Seq::<ElemV>::empty());
        assert(base + set@.take(0) =~= base);
    }
    let mut j: usize = 0;
    while j < set.len()
        invariant
            j <= set@.len(),
            elem_views(out@) == base + set@.take(j as int),
        decreases set@.len() - j,
    {
        let ghost pre = elem_views(out@);
        let e = set.get(j);
        out.push(e.dup());
        proof {
            assert(elem_views(out@) =~= pre.push(set@[j as int]));
            assert(base + set@.take(j + 1 as int) =~= (base + set@.take(j as int)).push(
                set@[j as int],
            ));
        }
        j += 1;
    }
    proof {
        assert(set@.take(set@.len() as int) =~= set@);
    }
}

/// Whether every value of `set` occurs in `other`.
fn all_in(set: &DedupSet, other: &DedupSet) -> (r: bool)
    ensures
        r == forall|k: int| 0 <= k < set@.len() ==> other@.contains(#[trigger] set@[k]),
{
    let mut j: usize = 0;
    while j < set.len()
        invariant
            j <= set@.len(),
            forall|k: int| 0 <= k < j ==> other@.contains(#[trigger] set@[k]),
        decreases set@.len() - j,
    {
        if !other.contains(set.get(j)) {
            return false;
        }
        j += 1;
    }
    true
}

/// Whether no value of `set` occurs in `other`.
fn none_in(set: &DedupSet, other: &DedupSet) -> (r: bool)
    ensures
        r == forall|k: int| 0 <= k < set@.len() ==> !other@.contains(#[trigger] set@[k]),
{
    let mut j: usize = 0;
    while j < set.len()
        invariant
            j <= set@.len(),
            forall|k: int| 0 <= k < j ==> !other@.contains(#[trigger] set@[k]),
        decreases set@.len() - j,
    {
        if other.contains(set.get(j)) {
            return false;
        }
        j += 1;
    }
    true
}

/// `r` states the predicate `op` over the raw rows, given that `da` holds
/// row A's distinct values, `db` row B's, and `r` compares them index-wise.
proof fn lemma_bridge_predicate(
    op: SetOperation,
    arow: Seq<ElemV>,
    brow: Seq<ElemV>,
    da: Seq<ElemV>,
    db: Seq<ElemV>,
    r: bool,
)
    requires
        op.spec_is_boolean(),
        da == dedup_seq(arow),
        db == dedup_seq(brow),
        op is IsDisjoint ==> r == forall|k: int|
            0 <= k < da.len() ==> !db.contains(#[trigger] da[k]),
        op is IsSubset ==> r == forall|k: int|
            0 <= k < da.len() ==> db.contains(#[trigger] da[k]),
        op is IsSuperset ==> r == forall|k: int|
            0 <= k < db.len() ==> da.contains(#[trigger] db[k]),
    ensures
        r == op_row_bool(op, arow, brow),
{
    lemma_dedup_seq(arow);
    lemma_dedup_seq(brow);
    let (s, t, ds, dt) = if op is IsSuperset {
        (brow, arow, db, da)
    } else {
        (arow, brow, da, db)
    };
    let positive = !(op is IsDisjoint);
    let indexed = forall|k: int|
        0 <= k < ds.len() ==> (dt.contains(#[trigger] ds[k]) == positive);
    let elementwise = forall|e: ElemV| s.contains(e) ==> (t.contains(e) == positive);
    assert(indexed == elementwise) by {
        if indexed {
            assert forall|e: ElemV| s.contains(e) implies (t.contains(e) == positive) by {
                assert(ds.contains(e));
                let k = choose|k: int| 0 <= k < ds.len() && ds[k] == e;
                assert(dt.contains(ds[k]) == positive);
            }
        } else {
            let k = choose|k: int| 0 <= k < ds.len() && !(dt.contains(ds[k]) == positive);
            assert(ds[k] == ds[k]);
            assert(ds.contains(ds[k]));
            assert(s.contains(ds[k]));
        }
    }
}

/// Applies `set_op` to the rows `values_a[a_start..a_end]` and
/// `values_b[b_start..b_end]`, appending one list row to `out` or one
/// boolean to `bool_out`, and returns the new cumulative length of the
/// buffer it wrote.
pub fn set_operation(
    set: &mut DedupSet,
    set2: &mut DedupSet,
    values_a: &Vec<Elem>,
    a_start: usize,
    a_end: usize,
    values_b: &Vec<Elem>,
    b_start: usize,
    b_end: usize,
    out: &mut Vec<Elem>,
    bool_out: &mut Vec<bool>,
    set_op: SetOperation,
    broadcast_rhs: bool,
) -> (r: usize)
    requires
        a_start <= a_end <= values_a@.len(),
        b_start <= b_end <= values_b@.len(),
        old(set2).wf(),
        broadcast_rhs ==> old(set2)@ == dedup_seq(
            row_elems(values_b@, b_start as int, b_end as int),
        ),
    ensures
        final(set).wf(),
        final(set2).wf(),
        broadcast_rhs ==> final(set2)@ == old(set2)@,
        ({
            let arow = row_elems(values_a@, a_start as int, a_end as int);
            let brow = row_elems(values_b@, b_start as int, b_end as int);
            &&& !set_op.spec_is_boolean() ==> {
                &&& elem_views(final(out)@) == elem_views(old(out)@) + op_row(set_op, arow, brow)
                &&& final(bool_out)@ == old(bool_out)@
                &&& r == final(out)@.len()
            }
            &&& set_op.spec_is_boolean() ==> {
                &&& final(bool_out)@ == old(bool_out)@.push(op_row_bool(set_op, arow, brow))
                &&& final(out)@ == old(out)@
                &&& r == final(bool_out)@.len()
            }
        }),
{
    let ghost arow = row_elems(values_a@, a_start as int, a_end as int);
    let ghost brow = row_elems(values_b@, b_start as int, b_end as int);
    set.clear();
    match set_op {
        SetOperation::Intersection => {
            set.extend_range(values_a, a_start, a_end);
            if !broadcast_rhs {
                set2.clear();
                set2.extend_range(values_b, b_start, b_end);
            }
            proof {
                assert(set@ == dedup_seq(arow));
                assert(set2@ == dedup_seq(brow));
                lemma_dedup_seq(brow);
                lemma_keep_in_congruent(dedup_seq(arow), dedup_seq(brow), brow);
            }
            append_in_set(set, set2, out);
            out.len()
        },
        SetOperation::Union => {
            set.extend_range(values_a, a_start, a_end);
            set.extend_range(values_b, b_start, b_end);
            proof {
                lemma_extend_unique_concat(Seq::<ElemV>::empty(), arow, brow);
                assert(set@ == dedup_seq(arow + brow));
            }
            append_all(set, out);
            out.len()
        },
        SetOperation::Difference => {
            set.extend_range(values_a, a_start, a_end);
            proof {
                assert(set@ == dedup_seq(arow));
            }
            append_out_slice(set, values_b, b_start, b_end, out);
            out.len()
        },
        SetOperation::SymmetricDifference => {
            if !broadcast_rhs {
                set2.clear();
                set2.extend_range(values_b, b_start, b_end);
            }
            set.extend_range(values_a, a_start, a_end);
            proof {
                assert(set@ == dedup_seq(arow));
                assert(set2@ == dedup_seq(brow));
                lemma_dedup_seq(arow);
                lemma_dedup_seq(brow);
                lemma_keep_out_congruent(dedup_seq(arow), dedup_seq(brow), brow);
                lemma_keep_out_congruent(dedup_seq(brow), dedup_seq(arow), arow);
            }
            append_out_set(set, set2, out);
            append_out_set(set2, set, out);
            proof {
                assert(elem_views(out@) =~= elem_views(old(out)@) + (keep_out(
                    dedup_seq(arow),
                    brow,
                ) + keep_out(dedup_seq(brow), arow)));
            }
            out.len()
        },
        SetOperation::IsDisjoint => {
            set.extend_range(values_a, a_start, a_end);
            if !broadcast_rhs {
                set2.clear();
                set2.extend_range(values_b, b_start, b_end);
            }
            let r = none_in(set, set2);
            proof {
                lemma_bridge_predicate(set_op, arow, brow, set@, set2@, r);
            }
            bool_out.push(r);
            bool_out.len()
        },
        SetOperation::IsSubset => {
            set.extend_range(values_a, a_start, a_end);
            if !broadcast_rhs {
                set2.clear();
                set2.extend_range(values_b, b_start, b_end);
            }
            let r = all_in(set, set2);
            proof {
                lemma_bridge_predicate(set_op, arow, brow, set@, set2@, r);
            }
            bool_out.push(r);
            bool_out.len()
        },
        SetOperation::IsSuperset => {
            set.extend_range(values_a, a_start, a_end);
            if !broadcast_rhs {
                set2.clear();
                set2.extend_range(values_b, b_start, b_end);
            }
            let r = all_in(set2, set);
            proof {
                lemma_bridge_predicate(set_op, arow, brow, set@, set2@, r);
            }
            bool_out.push(r);
            bool_out.len()
        },
    }
}

} // verus!
