//! Arithmetic that reports what does not fit.

use vstd::prelude::*;

use crate::error::DbError;

verus! {

/// The number can be stored.
pub open spec fn fits(x: int) -> bool {
    i64::MIN <= x <= i64::MAX
}

/// The number, where it can be stored.
pub open spec fn stored(x: int) -> Result<i64, DbError> {
    if fits(x) {
        Ok(x as i64)
    } else {
        Err(DbError::OutOfRange)
    }
}

/// A sum.
pub fn plus(a: i64, b: i64) -> (r: Result<i64, DbError>)
    ensures
        r == stored(a + b),
{
    match a.checked_add(b) {
        Some(x) => Ok(x),
        None => Err(DbError::OutOfRange),
    }
}

/// A difference.
pub fn minus(a: i64, b: i64) -> (r: Result<i64, DbError>)
    ensures
        r == stored(a - b),
{
    match a.checked_sub(b) {
        Some(x) => Ok(x),
        None => Err(DbError::OutOfRange),
    }
}

/// A product.
pub fn times(a: i64, b: i64) -> (r: Result<i64, DbError>)
    ensures
        r == stored(a * b),
{
    match a.checked_mul(b) {
        Some(x) => Ok(x),
        None => Err(DbError::OutOfRange),
    }
}

/// A wider number, where it can be stored.
pub fn narrow(x: i128) -> (r: Result<i64, DbError>)
    ensures
        r == stored(x as int),
{
    if -0x8000_0000_0000_0000i128 <= x && x <= 0x7fff_ffff_ffff_ffffi128 {
        Ok(x as i64)
    } else {
        Err(DbError::OutOfRange)
    }
}

/// The sum of some numbers.
pub open spec fn sum_of(s: Seq<int>) -> int
    decreases s.len(),
{
    if s.len() == 0 {
        0
    } else {
        sum_of(s.drop_last()) + s.last()
    }
}

} // verus!
