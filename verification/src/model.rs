//! The mathematical model of the row set algebra.
//!
//! A row is a sequence of element values. Deduplication keeps the first
//! occurrence of each value in order; each operation's per-row result is
//! stated as a sequence (for the list-producing operations) or a boolean
//! (for the predicates) over the raw row sequences.

use vstd::prelude::*;
use crate::elem::{Elem, ElemV};
use crate::op::SetOperation;

verus! {

/// `s` holds no element value twice.
pub open spec fn no_dups(s: Seq<ElemV>) -> bool {
    forall|i: int, j: int| 0 <= i < j < s.len() ==> s[i] != s[j]
}

/// `s` followed by `e`, unless `e` is already present.
pub open spec fn push_unique(s: Seq<ElemV>, e: ElemV) -> Seq<ElemV> {
    if s.contains(e) {
        s
    } else {
        s.push(e)
    }
}

/// `s` extended by the elements of `t` in order, each added at most once.
pub open spec fn extend_unique(s: Seq<ElemV>, t: Seq<ElemV>) -> Seq<ElemV>
    decreases t.len(),
{
    if t.len() == 0 {
        s
    } else {
        push_unique(extend_unique(s, t.drop_last()), t.last())
    }
}

/// The distinct elements of `t`, in first-occurrence order.
pub open spec fn dedup_seq(t: Seq<ElemV>) -> Seq<ElemV> {
    extend_unique(Seq::empty(), t)
}

/// The elements of `s` that occur in `t`, in `s`'s order.
pub open spec fn keep_in(s: Seq<ElemV>, t: Seq<ElemV>) -> Seq<ElemV>
    decreases s.len(),
{
    if s.len() == 0 {
        Seq::empty()
    } else if t.contains(s.last()) {
        keep_in(s.drop_last(), t).push(s.last())
    } else {
        keep_in(s.drop_last(), t)
    }
}

/// The elements of `s` that do not occur in `t`, in `s`'s order.
pub open spec fn keep_out(s: Seq<ElemV>, t: Seq<ElemV>) -> Seq<ElemV>
    decreases s.len(),
{
    if s.len() == 0 {
        Seq::empty()
    } else if t.contains(s.last()) {
        keep_out(s.drop_last(), t)
    } else {
        keep_out(s.drop_last(), t).push(s.last())
    }
}

/// The mathematical values of a sequence of elements.
pub open spec fn elem_views(s: Seq<Elem>) -> Seq<ElemV> {
    s.map(|i: int, e: Elem| e@)
}

/// The element values of the row `values[start..end]`.
pub open spec fn row_elems(values: Seq<Elem>, start: int, end: int) -> Seq<ElemV> {
    elem_views(values.subrange(start, end))
}

/// Taking element values commutes with slicing.
pub proof fn lemma_elem_views_subrange(v: Seq<Elem>, p: int, q: int)
    requires
        0 <= p <= q <= v.len(),
    ensures
        row_elems(v, p, q) == elem_views(v).subrange(p, q),
{
    assert(row_elems(v, p, q) =~= elem_views(v).subrange(p, q));
}

/// One row of a list-producing operation, over the raw row sequences.
pub open spec fn op_row(op: SetOperation, a: Seq<ElemV>, b: Seq<ElemV>) -> Seq<ElemV> {
    match op {
        SetOperation::Intersection => keep_in(dedup_seq(a), b),
        SetOperation::Union => dedup_seq(a + b),
        SetOperation::Difference => keep_out(dedup_seq(a), b),
        SetOperation::SymmetricDifference => keep_out(dedup_seq(a), b) + keep_out(
            dedup_seq(b),
            a,
        ),
        _ => Seq::empty(),
    }
}

/// One row of a boolean-predicate operation, over the raw row sequences.
pub open spec fn op_row_bool(op: SetOperation, a: Seq<ElemV>, b: Seq<ElemV>) -> bool {
    match op {
        SetOperation::IsDisjoint => forall|e: ElemV| a.contains(e) ==> !b.contains(e),
        SetOperation::IsSubset => forall|e: ElemV| a.contains(e) ==> b.contains(e),
        SetOperation::IsSuperset => forall|e: ElemV| b.contains(e) ==> a.contains(e),
        _ => true,
    }
}

/// Extending adds exactly the membership of `t`.
pub proof fn lemma_extend_unique_contains(s: Seq<ElemV>, t: Seq<ElemV>)
    ensures
        forall|e: ElemV|
            #[trigger] extend_unique(s, t).contains(e) <==> s.contains(e) || t.contains(e),
    decreases t.len(),
{
    broadcast use vstd::seq_lib::lemma_seq_contains_after_push;
    broadcast use vstd::seq_lib::lemma_seq_empty_contains_nothing;

    if t.len() == 0 {
    } else {
        lemma_extend_unique_contains(s, t.drop_last());
        assert forall|e: ElemV| #[trigger]
            extend_unique(s, t).contains(e) <==> s.contains(e) || t.contains(e) by {
            let prev = extend_unique(s, t.drop_last());
            assert(t.contains(e) <==> t.drop_last().contains(e) || e == t.last()) by {
                if t.contains(e) {
                    let i = choose|i: int| 0 <= i < t.len() && t[i] == e;
                    if i < t.len() - 1 {
                        assert(t.drop_last()[i] == e);
                    }
                }
                if t.drop_last().contains(e) {
                    let i = choose|i: int| 0 <= i < t.drop_last().len() && t.drop_last()[i] == e;
                    assert(t[i] == e);
                }
                if e == t.last() {
                    assert(t[t.len() - 1] == e);
                }
            }
        }
    }
}

/// Extending a duplicate-free sequence keeps it duplicate-free.
pub proof fn lemma_extend_unique_no_dups(s: Seq<ElemV>, t: Seq<ElemV>)
    requires
        no_dups(s),
    ensures
        no_dups(extend_unique(s, t)),
    decreases t.len(),
{
    if t.len() == 0 {
    } else {
        lemma_extend_unique_no_dups(s, t.drop_last());
        let prev = extend_unique(s, t.drop_last());
        let e = t.last();
        if !prev.contains(e) {
            assert forall|i: int, j: int|
                0 <= i < j < prev.push(e).len() implies prev.push(e)[i] != prev.push(e)[j] by {
                if j < prev.len() {
                } else {
                    assert(prev.push(e)[i] == prev[i]);
                    if prev[i] == e {
                        assert(prev.contains(e));
                    }
                }
            }
        }
    }
}

/// `keep_in` keeps exactly the shared membership.
pub proof fn lemma_keep_in_contains(s: Seq<ElemV>, t: Seq<ElemV>)
    ensures
        forall|e: ElemV|
            #[trigger] keep_in(s, t).contains(e) <==> s.contains(e) && t.contains(e),
    decreases s.len(),
{
    broadcast use vstd::seq_lib::lemma_seq_contains_after_push;
    broadcast use vstd::seq_lib::lemma_seq_empty_contains_nothing;

    if s.len() == 0 {
    } else {
        lemma_keep_in_contains(s.drop_last(), t);
        assert forall|e: ElemV| #[trigger]
            keep_in(s, t).contains(e) <==> s.contains(e) && t.contains(e) by {
            let prev = keep_in(s.drop_last(), t);
            assert(prev.contains(e) <==> s.drop_last().contains(e) && t.contains(e));
            if t.contains(s.last()) {
                assert(keep_in(s, t) == prev.push(s.last()));
                assert(prev.push(s.last()).contains(e) <==> prev.contains(e) || e == s.last());
            } else {
                assert(keep_in(s, t) == prev);
            }
            assert(s.contains(e) <==> s.drop_last().contains(e) || e == s.last()) by {
                if s.contains(e) {
                    let i = choose|i: int| 0 <= i < s.len() && s[i] == e;
                    if i < s.len() - 1 {
                        assert(s.drop_last()[i] == e);
                    }
                }
                if s.drop_last().contains(e) {
                    let i = choose|i: int| 0 <= i < s.drop_last().len() && s.drop_last()[i] == e;
                    assert(s[i] == e);
                }
                if e == s.last() {
                    assert(s[s.len() - 1] == e);
                }
            }
        }
    }
}

/// `keep_out` keeps exactly the membership of `s` outside `t`.
pub proof fn lemma_keep_out_contains(s: Seq<ElemV>, t: Seq<ElemV>)
    ensures
        forall|e: ElemV|
            #[trigger] keep_out(s, t).contains(e) <==> s.contains(e) && !t.contains(e),
    decreases s.len(),
{
    broadcast use vstd::seq_lib::lemma_seq_contains_after_push;
    broadcast use vstd::seq_lib::lemma_seq_empty_contains_nothing;

    if s.len() == 0 {
    } else {
        lemma_keep_out_contains(s.drop_last(), t);
        assert forall|e: ElemV| #[trigger]
            keep_out(s, t).contains(e) <==> s.contains(e) && !t.contains(e) by {
            let prev = keep_out(s.drop_last(), t);
            assert(prev.contains(e) <==> s.drop_last().contains(e) && !t.contains(e));
            if t.contains(s.last()) {
                assert(keep_out(s, t) == prev);
            } else {
                assert(keep_out(s, t) == prev.push(s.last()));
                assert(prev.push(s.last()).contains(e) <==> prev.contains(e) || e == s.last());
            }
            assert(s.contains(e) <==> s.drop_last().contains(e) || e == s.last()) by {
                if s.contains(e) {
                    let i = choose|i: int| 0 <= i < s.len() && s[i] == e;
                    if i < s.len() - 1 {
                        assert(s.drop_last()[i] == e);
                    }
                }
                if s.drop_last().contains(e) {
                    let i = choose|i: int| 0 <= i < s.drop_last().len() && s.drop_last()[i] == e;
                    assert(s[i] == e);
                }
                if e == s.last() {
                    assert(s[s.len() - 1] == e);
                }
            }
        }
    }
}

/// Filtering cares only about membership in the second argument.
pub proof fn lemma_keep_in_congruent(s: Seq<ElemV>, t1: Seq<ElemV>, t2: Seq<ElemV>)
    requires
        forall|e: ElemV| #[trigger] t1.contains(e) <==> t2.contains(e),
    ensures
        keep_in(s, t1) == keep_in(s, t2),
    decreases s.len(),
{
    if s.len() == 0 {
    } else {
        lemma_keep_in_congruent(s.drop_last(), t1, t2);
    }
}

/// Filtering cares only about membership in the second argument.
pub proof fn lemma_keep_out_congruent(s: Seq<ElemV>, t1: Seq<ElemV>, t2: Seq<ElemV>)
    requires
        forall|e: ElemV| #[trigger] t1.contains(e) <==> t2.contains(e),
    ensures
        keep_out(s, t1) == keep_out(s, t2),
    decreases s.len(),
{
    if s.len() == 0 {
    } else {
        lemma_keep_out_congruent(s.drop_last(), t1, t2);
    }
}

/// Filtering a duplicate-free sequence keeps it duplicate-free.
pub proof fn lemma_keep_in_no_dups(s: Seq<ElemV>, t: Seq<ElemV>)
    requires
        no_dups(s),
    ensures
        no_dups(keep_in(s, t)),
    decreases s.len(),
{
    if s.len() == 0 {
    } else {
        lemma_keep_in_no_dups(s.drop_last(), t);
        lemma_keep_in_contains(s.drop_last(), t);
        let prev = keep_in(s.drop_last(), t);
        let e = s.last();
        if !s.drop_last().contains(e) {
            if t.contains(e) {
                assert(!prev.contains(e));
                assert forall|i: int, j: int|
                    0 <= i < j < prev.push(e).len() implies prev.push(e)[i] != prev.push(e)[j] by {
                    if j < prev.len() {
                    } else {
                        assert(prev.push(e)[i] == prev[i]);
                        if prev[i] == e {
                            assert(prev.contains(e));
                        }
                    }
                }
            }
        } else {
            let i = choose|i: int| 0 <= i < s.drop_last().len() && s.drop_last()[i] == e;
            assert(s[i] == e && s[s.len() - 1] == e);
            assert(false);
        }
    }
}

/// Filtering a duplicate-free sequence keeps it duplicate-free.
pub proof fn lemma_keep_out_no_dups(s: Seq<ElemV>, t: Seq<ElemV>)
    requires
        no_dups(s),
    ensures
        no_dups(keep_out(s, t)),
    decreases s.len(),
{
    if s.len() == 0 {
    } else {
        lemma_keep_out_no_dups(s.drop_last(), t);
        lemma_keep_out_contains(s.drop_last(), t);
        let prev = keep_out(s.drop_last(), t);
        let e = s.last();
        if !s.drop_last().contains(e) {
            if !t.contains(e) {
                assert(!prev.contains(e));
                assert forall|i: int, j: int|
                    0 <= i < j < prev.push(e).len() implies prev.push(e)[i] != prev.push(e)[j] by {
                    if j < prev.len() {
                    } else {
                        assert(prev.push(e)[i] == prev[i]);
                        if prev[i] == e {
                            assert(prev.contains(e));
                        }
                    }
                }
            }
        } else {
            let i = choose|i: int| 0 <= i < s.drop_last().len() && s.drop_last()[i] == e;
            assert(s[i] == e && s[s.len() - 1] == e);
            assert(false);
        }
    }
}

/// Extending by a concatenation extends by its parts in turn.
pub proof fn lemma_extend_unique_concat(s: Seq<ElemV>, t1: Seq<ElemV>, t2: Seq<ElemV>)
    ensures
        extend_unique(s, t1 + t2) == extend_unique(extend_unique(s, t1), t2),
    decreases t2.len(),
{
    if t2.len() == 0 {
        assert(t1 + t2 =~= t1);
    } else {
        lemma_extend_unique_concat(s, t1, t2.drop_last());
        assert((t1 + t2).drop_last() =~= t1 + t2.drop_last());
        assert((t1 + t2).last() == t2.last());
    }
}

/// Extending by elements already present changes nothing.
pub proof fn lemma_extend_unique_all_present(s: Seq<ElemV>, t: Seq<ElemV>)
    requires
        forall|e: ElemV| #[trigger] t.contains(e) ==> s.contains(e),
    ensures
        extend_unique(s, t) == s,
    decreases t.len(),
{
    if t.len() == 0 {
    } else {
        assert forall|e: ElemV| #[trigger] t.drop_last().contains(e) implies s.contains(e) by {
            let i = choose|i: int| 0 <= i < t.drop_last().len() && t.drop_last()[i] == e;
            assert(t[i] == e);
            assert(t.contains(e));
        }
        lemma_extend_unique_all_present(s, t.drop_last());
        assert(t[t.len() - 1] == t.last());
        assert(t.contains(t.last()));
    }
}

/// Deduplication keeps membership and removes duplicates.
pub proof fn lemma_dedup_seq(t: Seq<ElemV>)
    ensures
        no_dups(dedup_seq(t)),
        forall|e: ElemV| #[trigger] dedup_seq(t).contains(e) <==> t.contains(e),
{
    broadcast use vstd::seq_lib::lemma_seq_empty_contains_nothing;

    lemma_extend_unique_contains(Seq::empty(), t);
    lemma_extend_unique_no_dups(Seq::empty(), t);
}

/// A concatenation of duplicate-free sequences with no shared member is
/// duplicate-free.
pub proof fn lemma_no_dups_disjoint_concat(p: Seq<ElemV>, q: Seq<ElemV>)
    requires
        no_dups(p),
        no_dups(q),
        forall|e: ElemV| #[trigger] p.contains(e) ==> !q.contains(e),
    ensures
        no_dups(p + q),
{
    assert forall|i: int, j: int| 0 <= i < j < (p + q).len() implies (p + q)[i] != (p + q)[j] by {
        if i < p.len() && j >= p.len() {
            assert(p.contains(p[i]));
            if (p + q)[i] == (p + q)[j] {
                assert(q.contains(q[j - p.len()]));
            }
        }
    }
}

/// No list-producing row result holds an element twice.
pub proof fn lemma_op_row_no_dups(op: SetOperation, a: Seq<ElemV>, b: Seq<ElemV>)
    requires
        !op.spec_is_boolean(),
    ensures
        no_dups(op_row(op, a, b)),
{
    lemma_dedup_seq(a);
    lemma_dedup_seq(b);
    lemma_dedup_seq(a + b);
    lemma_keep_in_no_dups(dedup_seq(a), b);
    lemma_keep_out_no_dups(dedup_seq(a), b);
    lemma_keep_out_no_dups(dedup_seq(b), a);
    match op {
        SetOperation::SymmetricDifference => {
            lemma_keep_out_contains(dedup_seq(a), b);
            lemma_keep_out_contains(dedup_seq(b), a);
            lemma_no_dups_disjoint_concat(
                keep_out(dedup_seq(a), b),
                keep_out(dedup_seq(b), a),
            );
        },
        _ => {},
    }
}

} // verus!
