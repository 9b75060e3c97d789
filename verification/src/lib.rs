//! Aggregated unseen-mail status for a set of watched mailboxes.

pub mod aggregate;
pub mod aggregator;
pub mod decimal;
pub mod module;
pub mod status;
pub mod watcher;

pub use aggregate::aggregate_account_statuses;
pub use aggregator::Aggregator;
pub use module::Module;
pub use status::{AccountId, Status};
pub use watcher::{Operation, Outcome, Watcher};
