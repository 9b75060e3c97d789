//! Per-account status values.

use vstd::prelude::*;

verus! {

/// Index of an account in the configured list.
pub type AccountId = usize;

/// What is currently known about one account.
#[derive(Clone, Copy, Debug, PartialEq, Eq)]
pub enum Status {
    /// The account's session is unusable.
    Error,
    /// The account is reachable and has this many unseen messages.
    Normal(usize),
}

impl Status {
    /// Unseen messages this status contributes to the aggregate.
    pub open spec fn unseen(self) -> nat {
        match self {
            Status::Error => 0,
            Status::Normal(c) => c as nat,
        }
    }
}

} // verus!
