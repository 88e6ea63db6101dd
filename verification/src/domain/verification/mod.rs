//! Verification codes and the policies that issue them.

pub mod codes;
pub mod policy;
