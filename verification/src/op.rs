//! The set-operation kinds and the error kinds of the library.

use vstd::prelude::*;

verus! {

/// The seven requested row-wise operations. The first four produce a list
/// per row; the last three produce one boolean per row.
#[derive(Copy, Clone, Debug, Eq, PartialEq, Hash)]
pub enum SetOperation {
    Intersection,
    Union,
    Difference,
    SymmetricDifference,
    IsDisjoint,
    IsSubset,
    IsSuperset,
}

impl SetOperation {
    /// True exactly for the operations whose per-row result is a boolean.
    pub open spec fn spec_is_boolean(&self) -> bool {
        self is IsDisjoint || self is IsSubset || self is IsSuperset
    }

    /// Distinguishes the boolean-predicate operations from the
    /// list-producing ones.
    #[verifier::when_used_as_spec(spec_is_boolean)]
    pub fn is_boolean(&self) -> (r: bool)
        ensures
            r == self.spec_is_boolean(),
    {
        match self {
            SetOperation::IsDisjoint | SetOperation::IsSubset | SetOperation::IsSuperset => true,
            _ => false,
        }
    }

    /// The lowercase name of the operation, for messages.
    pub fn name(&self) -> (r: &'static str)
        ensures
            self is Intersection ==> r@ == "intersection"@,
            self is Union ==> r@ == "union"@,
            self is Difference ==> r@ == "difference"@,
            self is SymmetricDifference ==> r@ == "symmetric_difference"@,
            self is IsDisjoint ==> r@ == "is_disjoint"@,
            self is IsSubset ==> r@ == "is_subset"@,
            self is IsSuperset ==> r@ == "is_superset"@,
    {
        match self {
            SetOperation::Intersection => "intersection",
            SetOperation::Union => "union",
            SetOperation::Difference => "difference",
            SetOperation::SymmetricDifference => "symmetric_difference",
            SetOperation::IsDisjoint => "is_disjoint",
            SetOperation::IsSubset => "is_subset",
            SetOperation::IsSuperset => "is_superset",
        }
    }
}

/// The failure kinds a whole-column operation can report.
#[derive(Copy, Clone, Debug, Eq, PartialEq)]
pub enum SetsError {
    /// The two columns' row counts are neither equal nor broadcastable.
    ShapeMismatch,
    /// The element type of the lists is unsupported.
    InvalidOperation,
    /// The requested entry point is an explicit stub.
    NotImplemented,
}

impl SetsError {
    /// A human-readable description of the failure.
    pub fn message(&self) -> (r: &'static str)
        ensures
            self is ShapeMismatch ==> r@ == "column lengths don't match"@,
            self is InvalidOperation ==> r@ == "boolean type not yet supported in list 'set' operations"@,
            self is NotImplemented ==> r@ == "boolean-result list set operations are not yet implemented"@,
    {
        match self {
            SetsError::ShapeMismatch => "column lengths don't match",
            SetsError::InvalidOperation => "boolean type not yet supported in list 'set' operations",
            SetsError::NotImplemented => "boolean-result list set operations are not yet implemented",
        }
    }
}

} // verus!
