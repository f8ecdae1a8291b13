//! Columnar list arrays, boolean arrays, and the dispatch result.

use vstd::prelude::*;
use crate::elem::{Elem, ElemV};
use crate::model::row_elems;

verus! {

/// The physical element type of a list array's child values. The integer
/// tags cover every fixed-width integer the engine accepts; a numeric value
/// travels as the bit pattern of its width. Text shares the byte-string
/// representation with opaque binary and differs only by this tag.
#[derive(Copy, Clone, Debug, Eq, PartialEq, Structural)]
pub enum ElemType {
    Int8,
    Int16,
    Int32,
    Int64,
    UInt8,
    UInt16,
    UInt32,
    UInt64,
    Binary,
    Text,
    Boolean,
}

/// A columnar list-valued array: `offsets[i]..offsets[i+1]` delimits row
/// `i`'s elements inside the flat `values` buffer, and the optional
/// `validity` bitmap marks whole rows as null independently of their
/// elements.
pub struct ListArr {
    pub dtype: ElemType,
    pub offsets: Vec<usize>,
    pub values: Vec<Elem>,
    pub validity: Option<Vec<bool>>,
}

impl ListArr {
    /// How many rows the array holds.
    pub open spec fn rows(&self) -> int {
        self.offsets@.len() - 1
    }

    /// Offsets start at zero, never decrease, and span the whole values
    /// buffer; the validity bitmap, if any, has one bit per row.
    pub open spec fn wf(&self) -> bool {
        &&& self.offsets@.len() >= 1
        &&& self.offsets@[0] == 0
        &&& forall|i: int, j: int|
            0 <= i <= j < self.offsets@.len() ==> self.offsets@[i] <= self.offsets@[j]
        &&& self.offsets@[self.rows()] == self.values@.len()
        &&& match self.validity {
            Some(v) => v@.len() == self.rows(),
            None => true,
        }
    }

    /// The element values of row `i`.
    pub open spec fn row(&self, i: int) -> Seq<ElemV> {
        row_elems(self.values@, self.offsets@[i] as int, self.offsets@[i + 1] as int)
    }

    /// Whether row `i` is logically valid (not null).
    pub open spec fn row_valid(&self, i: int) -> bool {
        match self.validity {
            Some(v) => v@[i],
            None => true,
        }
    }

    /// The row count.
    pub fn n_rows(&self) -> (r: usize)
        requires
            self.wf(),
        ensures
            r == self.rows(),
    {
        self.offsets.len() - 1
    }

    /// Whether row `i` is valid, read from the bitmap.
    pub fn row_valid_at(&self, i: usize) -> (r: bool)
        requires
            self.wf(),
            i < self.rows(),
        ensures
            r == self.row_valid(i as int),
    {
        match &self.validity {
            Some(v) => v[i],
            None => true,
        }
    }
}

/// A flat boolean array with the same optional row-validity bitmap.
pub struct BoolArr {
    pub values: Vec<bool>,
    pub validity: Option<Vec<bool>>,
}

impl BoolArr {
    /// How many rows the array holds.
    pub open spec fn rows(&self) -> int {
        self.values@.len() as int
    }

    /// The validity bitmap, if any, has one bit per row.
    pub open spec fn wf(&self) -> bool {
        match self.validity {
            Some(v) => v@.len() == self.rows(),
            None => true,
        }
    }

    /// Whether row `i` is logically valid (not null).
    pub open spec fn row_valid(&self, i: int) -> bool {
        match self.validity {
            Some(v) => v@[i],
            None => true,
        }
    }
}

/// What the physical-type dispatch hands back: a new list array for the
/// list-producing operations, a boolean array for the predicates.
pub enum SetResult {
    List(ListArr),
    Bool(BoolArr),
}

/// The row of the one-row side that stands in for row `i` when that side
/// broadcasts.
pub open spec fn src_row(rows: int, i: int) -> int {
    if rows == 1 {
        0
    } else {
        i
    }
}

/// How many rows the result of combining columns with `ra` and `rb` rows
/// has.
pub open spec fn out_rows(ra: int, rb: int) -> int {
    if ra >= rb {
        ra
    } else {
        rb
    }
}

/// Whether row `i` of the result is valid: both inputs' broadcast-resolved
/// rows must be.
pub open spec fn combined_valid(a: &ListArr, b: &ListArr, i: int) -> bool {
    a.row_valid(src_row(a.rows(), i)) && b.row_valid(src_row(b.rows(), i))
}

/// Builds the result's row-validity bitmap: the logical AND of the two
/// inputs' bitmaps, each read through its broadcast-resolved row.
pub fn combine_validities(a: &ListArr, b: &ListArr, n: usize) -> (r: Option<Vec<bool>>)
    requires
        a.wf(),
        b.wf(),
        n == out_rows(a.rows(), b.rows()),
        a.rows() == b.rows() || (a.rows() == 1 && b.rows() >= 1) || (b.rows() == 1 && a.rows()
            >= 1),
    ensures
        r is Some ==> r->0@.len() == n && forall|i: int|
            0 <= i < n ==> r->0@[i] == combined_valid(a, b, i),
        r is None ==> forall|i: int| 0 <= i < n ==> combined_valid(a, b, i),
{
    if a.validity.is_none() && b.validity.is_none() {
        return None;
    }
    let ra = a.n_rows();
    let rb = b.n_rows();
    let mut bits: Vec<bool> = Vec::new();
    let mut i: usize = 0;
    while i < n
        invariant
            a.wf(),
            b.wf(),
            ra == a.rows(),
            rb == b.rows(),
            n == out_rows(a.rows(), b.rows()),
            a.rows() == b.rows() || (a.rows() == 1 && b.rows() >= 1) || (b.rows() == 1
                && a.rows() >= 1),
            i <= n,
            bits@.len() == i,
            forall|k: int| 0 <= k < i ==> bits@[k] == combined_valid(a, b, k),
        decreases n - i,
    {
        let ia = if ra == 1 {
            0
        } else {
            i
        };
        let ib = if rb == 1 {
            0
        } else {
            i
        };
        let va = a.row_valid_at(ia);
        let vb = b.row_valid_at(ib);
        bits.push(va && vb);
        i += 1;
    }
    Some(bits)
}

} // verus!
