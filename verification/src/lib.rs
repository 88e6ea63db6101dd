//! The rules of an owner's ledger.

pub mod arith;
pub mod clock;
pub mod domain;
pub mod error;
mod ids;
pub mod invariants;
pub mod json;
pub mod ledger;
pub mod live;
pub mod numeral;
pub mod table;
pub mod text;
