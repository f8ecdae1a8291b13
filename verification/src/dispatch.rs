//! The physical-type dispatch.
//!
//! The two inputs' element types must already be unified by the caller.
//! Boolean elements are rejected; text elements run through the shared
//! byte-string path as if they were opaque binary, and the result is
//! reinterpreted back to text — in this representation a reinterpretation
//! changes only the element-type tag and copies no element data.

use vstd::prelude::*;
use crate::arrays::{combined_valid, out_rows, src_row, ElemType, ListArr, SetResult};
use crate::driver::drive;
use crate::model::{op_row, op_row_bool};
use crate::op::{SetOperation, SetsError};

verus! {

/// Retags a binary list result as text, sharing its buffers.
fn binary_list_to_text(a: ListArr) -> (r: ListArr)
    ensures
        r.dtype == ElemType::Text,
        r.offsets == a.offsets,
        r.values == a.values,
        r.validity == a.validity,
{
    ListArr {
        dtype: ElemType::Text,
        offsets: a.offsets,
        values: a.values,
        validity: a.validity,
    }
}

/// Applies `set_op` row-wise to two list arrays of the same element type.
/// Boolean element types are unsupported; every other tag routes to the
/// driver, text via the binary reinterpretation. The result's row-validity
/// bitmap is the logical AND of the inputs' (broadcast-resolved) bitmaps.
pub fn array_set_operation(a: &ListArr, b: &ListArr, set_op: SetOperation) -> (r: Result<
    SetResult,
    SetsError,
>)
    requires
        a.wf(),
        b.wf(),
        a.dtype == b.dtype,
        a.rows() == b.rows() || (a.rows() == 1 && b.rows() >= 1) || (b.rows() == 1 && a.rows()
            >= 1),
    ensures
        r is Err <==> a.dtype is Boolean,
        r is Err ==> r->Err_0 is InvalidOperation,
        r is Ok && !set_op.spec_is_boolean() ==> {
            let n = out_rows(a.rows(), b.rows());
            let out = r->Ok_0->List_0;
            &&& r->Ok_0 is List
            &&& out.wf()
            &&& out.dtype == a.dtype
            &&& out.rows() == n
            &&& forall|i: int|
                0 <= i < n ==> out.row(i) == op_row(
                    set_op,
                    a.row(src_row(a.rows(), i)),
                    b.row(src_row(b.rows(), i)),
                )
            &&& forall|i: int| 0 <= i < n ==> out.row_valid(i) == combined_valid(a, b, i)
        },
        r is Ok && set_op.spec_is_boolean() ==> {
            let n = out_rows(a.rows(), b.rows());
            let out = r->Ok_0->Bool_0;
            &&& r->Ok_0 is Bool
            &&& out.wf()
            &&& out.rows() == n
            &&& forall|i: int|
                0 <= i < n ==> out.values@[i] == op_row_bool(
                    set_op,
                    a.row(src_row(a.rows(), i)),
                    b.row(src_row(b.rows(), i)),
                )
            &&& forall|i: int| 0 <= i < n ==> out.row_valid(i) == combined_valid(a, b, i)
        },
{
    let ra = a.n_rows();
    let rb = b.n_rows();
    let n = if ra >= rb {
        ra
    } else {
        rb
    };
    let validity = crate::arrays::combine_validities(a, b, n);
    match a.dtype {
        ElemType::Boolean => Err(SetsError::InvalidOperation),
        ElemType::Text => {
            // Text is processed as binary and the list result retagged.
            let res = drive(a, b, ElemType::Binary, set_op, validity);
            match res {
                SetResult::List(out) => {
                    let ghost inner = out;
                    let retagged = binary_list_to_text(out);
                    proof {
                        assert forall|i: int| 0 <= i < retagged.rows() implies retagged.row(i)
                            == inner.row(i) by {
                            assert(retagged.values@ == inner.values@);
                            assert(retagged.offsets@ == inner.offsets@);
                        }
                    }
                    Ok(SetResult::List(retagged))
                },
                SetResult::Bool(out) => Ok(SetResult::Bool(out)),
            }
        },
        _ => Ok(drive(a, b, a.dtype, set_op, validity)),
    }
}

} // verus!
