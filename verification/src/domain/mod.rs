//! What the ledger records, one module per concern.

pub mod api_tokens;
pub mod audit;
pub mod chastity;
pub mod checkins;
pub mod invites;
pub mod limits;
pub mod links;
pub mod notifications;
pub mod password_reset;
pub mod play_sessions;
pub mod points;
pub mod profiles;
pub mod proofs;
pub mod push;
pub mod recurring_tasks;
pub mod rewards_punishments;
pub mod safety;
pub mod stats;
pub mod toys;
pub mod two_factor;
pub mod users;
pub mod verification;
