//! What can go wrong in the ledger itself.

use vstd::prelude::*;

verus! {

/// A failure of the ledger, apart from any rule of the domain.
#[derive(Clone, Copy, Debug, PartialEq, Eq, Structural)]
pub enum DbError {
    /// A row that has to exist does not.
    NoRows,
    /// A uniqueness rule was broken.
    Conflict,
    /// A chain of work could not be carried through.
    InvalidQuery,
    /// A time or an amount left the range of 64 bits.
    OutOfRange,
}

/// Whether the failure is a broken uniqueness rule.
pub fn is_unique_violation(err: &DbError) -> (r: bool)
    ensures
        r == (*err == DbError::Conflict),
{
    *err == DbError::Conflict
}

} // verus!
