//! The whole-column entry points.
//!
//! Both validate row-count compatibility (equal, or one side a single
//! broadcast row) before any buffer work begins; on a mismatch they report
//! `ShapeMismatch` and emit no rows. The boolean-predicate entry point is a
//! deliberate stub: it reports `NotImplemented` rather than guessing the
//! unfinished semantics.

use vstd::prelude::*;
use crate::arrays::{combined_valid, out_rows, src_row, BoolArr, ListArr, SetResult};
use crate::dispatch::array_set_operation;
use crate::model::op_row;
use crate::op::{SetOperation, SetsError};

verus! {

/// Row counts are compatible when they are equal or one side has exactly
/// one row.
pub open spec fn shape_ok(ra: int, rb: int) -> bool {
    ra == rb || ra == 1 || rb == 1
}

/// Applies a list-producing `set_op` row-wise to two columns of the same
/// element type, broadcasting a one-row column against the other side.
pub fn list_set_operation(a: &ListArr, b: &ListArr, set_op: SetOperation) -> (r: Result<
    ListArr,
    SetsError,
>)
    requires
        a.wf(),
        b.wf(),
        a.dtype == b.dtype,
        !set_op.spec_is_boolean(),
        !(a.rows() == 0 && b.rows() == 1),
        !(a.rows() == 1 && b.rows() == 0),
    ensures
        r is Err <==> (!shape_ok(a.rows(), b.rows()) || a.dtype is Boolean),
        r is Err ==> (r->Err_0 is ShapeMismatch <==> !shape_ok(a.rows(), b.rows())),
        r is Err ==> (r->Err_0 is InvalidOperation <==> shape_ok(a.rows(), b.rows())
            && a.dtype is Boolean),
        r is Ok ==> {
            let n = out_rows(a.rows(), b.rows());
            let out = r->Ok_0;
            &&& out.wf()
            &&& out.dtype == a.dtype
            &&& out.rows() == n
            &&& forall|i: int|
                0 <= i < n ==> out.row(i) == op_row(
                    set_op,
                    a.row(src_row(a.rows(), i)),
                    b.row(src_row(b.rows(), i)),
                )
            &&& forall|i: int| 0 <= i < n ==> out.row_valid(i) == combined_valid(a, b, i)
        },
{
    let ra = a.n_rows();
    let rb = b.n_rows();
    if !(ra == rb || rb == 1 || ra == 1) {
        return Err(SetsError::ShapeMismatch);
    }
    match array_set_operation(a, b, set_op) {
        Err(e) => Err(e),
        Ok(SetResult::List(out)) => Ok(out),
        Ok(SetResult::Bool(_)) => {
            proof {
                assert(false);
            }
            Err(SetsError::InvalidOperation)
        },
    }
}

/// The boolean-predicate counterpart of [`list_set_operation`]: the shape
/// check is in place, the predicate path itself is not yet implemented and
/// is reported as such.
pub fn boolean_list_set_operation(a: &ListArr, b: &ListArr, set_op: SetOperation) -> (r: Result<
    BoolArr,
    SetsError,
>)
    requires
        a.wf(),
        b.wf(),
    ensures
        r is Err,
        r->Err_0 is ShapeMismatch <==> !shape_ok(a.rows(), b.rows()),
        r->Err_0 is NotImplemented <==> shape_ok(a.rows(), b.rows()),
{
    let ra = a.n_rows();
    let rb = b.n_rows();
    if !(ra == rb || rb == 1 || ra == 1) {
        return Err(SetsError::ShapeMismatch);
    }
    Err(SetsError::NotImplemented)
}

} // verus!

