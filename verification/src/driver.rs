//! The offset/broadcast driver.
//!
//! Walks the offset buffers of both inputs row by row, slices each row out
//! of the flat values buffer (reusing the single row's bounds on the
//! broadcast side), invokes the row set engine, and accumulates the new
//! offset buffer together with the materialized value or boolean buffer.

use vstd::prelude::*;
use crate::arrays::{out_rows, src_row, BoolArr, ElemType, ListArr, SetResult};
use crate::dedup::DedupSet;
use crate::elem::{Elem, ElemV};
use crate::engine::set_operation;
use crate::model::{
    dedup_seq, elem_views, lemma_elem_views_subrange, op_row, op_row_bool, row_elems,
};
use crate::op::SetOperation;

verus! {

/// Applies `set_op` to every pair of broadcast-resolved rows of `a` and
/// `b`. A list result carries `out_dtype` as its element tag; either result
/// carries `validity` as its row-validity bitmap.
pub fn drive(
    a: &ListArr,
    b: &ListArr,
    out_dtype: ElemType,
    set_op: SetOperation,
    validity: Option<Vec<bool>>,
) -> (r: SetResult)
    requires
        a.wf(),
        b.wf(),
        a.rows() == b.rows() || (a.rows() == 1 && b.rows() >= 1) || (b.rows() == 1 && a.rows()
            >= 1),
        validity is Some ==> validity->0@.len() == out_rows(a.rows(), b.rows()),
    ensures
        !set_op.spec_is_boolean() ==> {
            let n = out_rows(a.rows(), b.rows());
            &&& r is List
            &&& r->List_0.wf()
            &&& r->List_0.dtype == out_dtype
            &&& r->List_0.rows() == n
            &&& r->List_0.validity == validity
            &&& forall|i: int|
                0 <= i < n ==> r->List_0.row(i) == op_row(
                    set_op,
                    a.row(src_row(a.rows(), i)),
                    b.row(src_row(b.rows(), i)),
                )
        },
        set_op.spec_is_boolean() ==> {
            let n = out_rows(a.rows(), b.rows());
            &&& r is Bool
            &&& r->Bool_0.wf()
            &&& r->Bool_0.rows() == n
            &&& r->Bool_0.validity == validity
            &&& forall|i: int|
                0 <= i < n ==> r->Bool_0.values@[i] == op_row_bool(
                    set_op,
                    a.row(src_row(a.rows(), i)),
                    b.row(src_row(b.rows(), i)),
                )
        },
{
    let ra = a.n_rows();
    let rb = b.n_rows();
    let n = if ra >= rb {
        ra
    } else {
        rb
    };
    let broadcast_rhs = rb == 1;

    let mut set = DedupSet::new();
    let mut set2 = DedupSet::new();
    let mut values_out: Vec<Elem> = Vec::new();
    let mut bool_out: Vec<bool> = Vec::new();
    let mut offsets_out: Vec<usize> = Vec::new();
    offsets_out.push(0);

    if broadcast_rhs {
        proof {
            assert(b.offsets@[0] <= b.offsets@[1]);
            assert(b.offsets@[1] == b.values@.len());
        }
        set2.extend_range(&b.values, b.offsets[0], b.offsets[1]);
    }

    proof {
        assert(elem_views(values_out@) =~= Seq::<ElemV>::empty());
    }

    let is_bool = set_op.is_boolean();
    let mut i: usize = 0;
    while i < n
        invariant
            a.wf(),
            b.wf(),
            ra == a.rows(),
            rb == b.rows(),
            ra == rb || (ra == 1 && rb >= 1) || (rb == 1 && ra >= 1),
            n == out_rows(a.rows(), b.rows()),
            broadcast_rhs == (rb == 1),
            is_bool == set_op.spec_is_boolean(),
            i <= n,
            set2.wf(),
            broadcast_rhs ==> set2@ == dedup_seq(b.row(0)),
            offsets_out@.len() == i + 1,
            offsets_out@[0] == 0,
            forall|k: int, l: int|
                0 <= k <= l < offsets_out@.len() ==> offsets_out@[k] <= offsets_out@[l],
            !is_bool ==> {
                &&& offsets_out@[i as int] == values_out@.len()
                &&& bool_out@.len() == 0
                &&& forall|k: int|
                    0 <= k < i ==> elem_views(values_out@).subrange(
                        offsets_out@[k] as int,
                        offsets_out@[k + 1] as int,
                    ) == op_row(set_op, a.row(src_row(ra as int, k)), b.row(src_row(rb as int, k)))
            },
            is_bool ==> {
                &&& bool_out@.len() == i
                &&& offsets_out@[i as int] == bool_out@.len()
                &&& values_out@.len() == 0
                &&& forall|k: int|
                    0 <= k < i ==> bool_out@[k] == op_row_bool(
                        set_op,
                        a.row(src_row(ra as int, k)),
                        b.row(src_row(rb as int, k)),
                    )
            },
        decreases n - i,
    {
        let ia = if ra == 1 {
            0
        } else {
            i
        };
        let ib = if rb == 1 {
            0
        } else {
            i
        };
        proof {
            assert(ia + 1 < a.offsets@.len());
            assert(ib + 1 < b.offsets@.len());
            assert(a.offsets@[ia as int] <= a.offsets@[ia + 1 as int]);
            assert(a.offsets@[ia + 1 as int] <= a.offsets@[a.rows()]);
            assert(b.offsets@[ib as int] <= b.offsets@[ib + 1 as int]);
            assert(b.offsets@[ib + 1 as int] <= b.offsets@[b.rows()]);
        }
        let sa = a.offsets[ia];
        let ea = a.offsets[ia + 1];
        let sb = b.offsets[ib];
        let eb = b.offsets[ib + 1];
        let ghost values_pre = elem_views(values_out@);
        let ghost bools_pre = bool_out@;
        let ghost arow = row_elems(a.values@, sa as int, ea as int);
        let ghost brow = row_elems(b.values@, sb as int, eb as int);
        proof {
            assert(arow == a.row(src_row(ra as int, i as int)));
            assert(brow == b.row(src_row(rb as int, i as int)));
        }
        let r = set_operation(
            &mut set,
            &mut set2,
            &a.values,
            sa,
            ea,
            &b.values,
            sb,
            eb,
            &mut values_out,
            &mut bool_out,
            set_op,
            broadcast_rhs,
        );
        let ghost offsets_pre = offsets_out@;
        offsets_out.push(r);
        proof {
            assert(offsets_out@ == offsets_pre.push(r));
            if !is_bool {
                let added0 = op_row(set_op, arow, brow);
                assert(elem_views(values_out@) == values_pre + added0);
                assert(elem_views(values_out@).len() == values_out@.len());
                assert(values_pre.len() == offsets_pre[i as int]);
            }
            assert(offsets_pre[i as int] <= r);
            assert forall|k: int, l: int|
                0 <= k <= l < offsets_out@.len() implies offsets_out@[k] <= offsets_out@[l] by {
                if l <= i {
                    assert(offsets_out@[k] == offsets_pre[k]);
                    assert(offsets_out@[l] == offsets_pre[l]);
                } else {
                    assert(offsets_out@[l] == r);
                    if k <= i {
                        assert(offsets_out@[k] == offsets_pre[k]);
                        assert(offsets_pre[k] <= offsets_pre[i as int]);
                    }
                }
            }
            if !is_bool {
                let added = op_row(set_op, arow, brow);
                assert(values_out@.len() == values_pre.len() + added.len());
                assert(offsets_out@[i + 1 as int] == values_out@.len());
                assert forall|k: int| 0 <= k < i + 1 implies elem_views(values_out@).subrange(
                    offsets_out@[k] as int,
                    offsets_out@[k + 1] as int,
                ) == op_row(
                    set_op,
                    a.row(src_row(ra as int, k)),
                    b.row(src_row(rb as int, k)),
                ) by {
                    if k < i {
                        assert(offsets_out@[k + 1] <= offsets_out@[i as int]);
                        assert((values_pre + added).subrange(
                            offsets_out@[k] as int,
                            offsets_out@[k + 1] as int,
                        ) =~= values_pre.subrange(
                            offsets_out@[k] as int,
                            offsets_out@[k + 1] as int,
                        ));
                    } else {
                        assert((values_pre + added).subrange(
                            values_pre.len() as int,
                            (values_pre.len() + added.len()) as int,
                        ) =~= added);
                    }
                }
            } else {
                assert(bool_out@ == bools_pre.push(op_row_bool(set_op, arow, brow)));
            }
        }
        i += 1;
    }

    if is_bool {
        let out = BoolArr { values: bool_out, validity };
        SetResult::Bool(out)
    } else {
        let out = ListArr {
            dtype: out_dtype,
            offsets: offsets_out,
            values: values_out,
            validity,
        };
        proof {
            assert forall|i2: int| 0 <= i2 < out_rows(a.rows(), b.rows()) implies out.row(i2)
                == op_row(
                set_op,
                a.row(src_row(a.rows(), i2)),
                b.row(src_row(b.rows(), i2)),
            ) by {
                lemma_elem_views_subrange(
                    out.values@,
                    out.offsets@[i2] as int,
                    out.offsets@[i2 + 1] as int,
                );
            }
        }
        SetResult::List(out)
    }
}

} // verus!
