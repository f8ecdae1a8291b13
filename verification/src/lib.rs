//! Row-wise set algebra over columnar list arrays.
//!
//! Two list-valued columns are walked in lock-step; for every row index the
//! two variable-length element lists are treated as mathematical sets and
//! combined (intersection, union, difference, symmetric difference) into a
//! new list row, or reduced to one boolean (disjoint, subset, superset).
//! Results keep insertion order, nulls count as ordinary set members, and a
//! one-row column broadcasts against every row of the other side.

pub mod arrays;
pub mod dedup;
pub mod dispatch;
pub mod driver;
pub mod elem;
pub mod engine;
pub mod entry;
pub mod laws;
pub mod model;
pub mod op;

pub use arrays::{BoolArr, ElemType, ListArr, SetResult};
pub use elem::Elem;
pub use entry::{boolean_list_set_operation, list_set_operation};
pub use op::{SetOperation, SetsError};
