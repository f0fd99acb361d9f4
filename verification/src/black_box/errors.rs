//! The error taxonomy shared by every storage operation, and the rule for
//! combining two shape errors into one.

use vstd::prelude::*;

verus! {

/// The result type used by every dynamically keyed operation.
pub type DynamicResult<T> = Result<T, ErrorDesc>;

/// Errors raised by the cell itself: a request for a shape of data that the
/// cell does not currently hold, or an index outside its contents.
#[derive(Debug, PartialEq, Eq, Structural, Clone, Copy)]
pub enum UnitError {
    /// Exactly one value was requested, but the cell holds none or many.
    IsNotOne,
    /// A list of values was requested, but the cell holds none or one.
    IsNotMany,
    /// Any value was requested, but the cell holds nothing.
    IsNope,
    /// The requested index lies outside the cell's contents.
    OutOfBounds,
}

/// The reasons a dynamically keyed storage operation can fail.
#[derive(Debug, PartialEq)]
pub enum ErrorDesc {
    /// The cell's runtime borrow state is incompatible with the request.
    BorrowedIncompatibly,
    /// No cell has been allocated for the requested key.
    NoAllocatedUnit,
    /// The value's key does not match the cell it was handed to; this marks
    /// an engine inconsistency, not a normal caller error.
    NoMatchingType,
    /// An error raised by the cell itself.
    Unit(UnitError),
    /// Two errors arose in sequence.
    Two(Box<(ErrorDesc, ErrorDesc)>),
}

impl ErrorDesc {
    /// Holds when `r` is the prescribed combination of the two errors `a`
    /// then `b`: the pair not-many then not-one collapses into the compact
    /// empty error, and any other pair is kept whole.
    pub open spec fn is_combination_of(r: ErrorDesc, a: ErrorDesc, b: ErrorDesc) -> bool {
        if a == ErrorDesc::Unit(UnitError::IsNotMany) && b == ErrorDesc::Unit(UnitError::IsNotOne) {
            r == ErrorDesc::Unit(UnitError::IsNope)
        } else {
            r matches ErrorDesc::Two(p) && p.0 == a && p.1 == b
        }
    }

    /// Combines two errors that were met in sequence into one.
    pub fn combine(self, rhs: ErrorDesc) -> (r: ErrorDesc)
        ensures
            ErrorDesc::is_combination_of(r, self, rhs),
    {
        match (self, rhs) {
            (ErrorDesc::Unit(UnitError::IsNotMany), ErrorDesc::Unit(UnitError::IsNotOne)) => {
                ErrorDesc::Unit(UnitError::IsNope)
            },
            (x, y) => ErrorDesc::Two(Box::new((x, y))),
        }
    }
}

} // verus!
