//! Rewards, punishments and tasks.

pub mod assignments;
pub mod templates;
