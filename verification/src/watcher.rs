//! The per-account watcher as a state machine.
//!
//! A watcher never touches the network itself. It names the operation that
//! is to be performed next; whoever drives it performs the operation and
//! hands back the outcome, and the watcher answers with the status to
//! report, if any, and moves on to the next operation.

use crate::status::{AccountId, Status};
use vstd::prelude::*;

verus! {

/// Seconds to wait after a failure before the next connection attempt.
pub const DEFAULT_BACKOFF_SECS: u64 = 3;

/// The mailbox that a session selects.
pub const MAILBOX: &'static str = "INBOX";

/// Work that a watcher asks its driver to perform.
#[derive(Clone, Copy, Debug, PartialEq, Eq)]
pub enum Operation {
    /// Establish a session: connect, authenticate, select the mailbox.
    Connect,
    /// Ask the session for the number of unseen messages.
    Query,
    /// Block until the mailbox may have changed.
    Wait,
    /// Sleep for this many seconds.
    Sleep(u64),
}

/// How an operation ended.
#[derive(Clone, Copy, Debug, PartialEq, Eq)]
pub enum Outcome {
    /// The operation failed, for whatever reason.
    Failed,
    /// The operation succeeded and has nothing to tell.
    Done,
    /// The query succeeded and found this many unseen messages.
    Unseen(usize),
}

/// Mathematical state of a watcher.
pub struct WatcherState {
    /// The account that is watched.
    pub id: AccountId,
    /// Seconds to wait after a failure.
    pub backoff_secs: u64,
    /// The operation whose outcome is awaited.
    pub pending: Operation,
}

impl WatcherState {
    /// The state of a watcher that has not attempted anything yet.
    pub open spec fn initial(id: AccountId, backoff_secs: u64) -> WatcherState {
        WatcherState { id, backoff_secs, pending: Operation::Connect }
    }

    /// Whether the watcher holds a session.
    pub open spec fn connected(self) -> bool {
        self.pending is Query || self.pending is Wait
    }

    /// Whether `outcome` is the success of the pending operation. A sleep
    /// cannot fail; any other outcome than the expected one is a failure.
    pub open spec fn succeeds(self, outcome: Outcome) -> bool {
        match self.pending {
            Operation::Connect => outcome is Done,
            Operation::Query => outcome is Unseen,
            Operation::Wait => outcome is Done,
            Operation::Sleep(_) => true,
        }
    }

    /// The operation that follows the pending one after `outcome`.
    pub open spec fn next_operation(self, outcome: Outcome) -> Operation {
        if !self.succeeds(outcome) {
            Operation::Sleep(self.backoff_secs)
        } else {
            match self.pending {
                Operation::Connect => Operation::Query,
                Operation::Query => Operation::Wait,
                Operation::Wait => Operation::Query,
                Operation::Sleep(_) => Operation::Connect,
            }
        }
    }

    /// The status to report after `outcome`, if any: the count of a
    /// successful query, `Error` after any failure.
    pub open spec fn report(self, outcome: Outcome) -> Option<Status> {
        if !self.succeeds(outcome) {
            Some(Status::Error)
        } else {
            match (self.pending, outcome) {
                (Operation::Query, Outcome::Unseen(count)) => Some(Status::Normal(count)),
                _ => None,
            }
        }
    }

    /// The state after `outcome`.
    pub open spec fn step(self, outcome: Outcome) -> WatcherState {
        WatcherState {
            id: self.id,
            backoff_secs: self.backoff_secs,
            pending: self.next_operation(outcome),
        }
    }
}

/// The watch loop of one account, without its input and output.
pub struct Watcher {
    id: AccountId,
    backoff_secs: u64,
    pending: Operation,
}

impl View for Watcher {
    type V = WatcherState;

    closed spec fn view(&self) -> WatcherState {
        WatcherState { id: self.id, backoff_secs: self.backoff_secs, pending: self.pending }
    }
}

impl Watcher {
    /// A watcher for account `id` that is about to connect for the first
    /// time and waits `backoff_secs` seconds after each failure.
    pub fn new(id: AccountId, backoff_secs: u64) -> (w: Watcher)
        ensures
            w@ == WatcherState::initial(id, backoff_secs),
    {
        Watcher { id, backoff_secs, pending: Operation::Connect }
    }

    /// The account that is watched.
    pub fn id(&self) -> (id: AccountId)
        ensures
            id == self@.id,
    {
        self.id
    }

    /// Seconds to wait after a failure.
    pub fn backoff_secs(&self) -> (secs: u64)
        ensures
            secs == self@.backoff_secs,
    {
        self.backoff_secs
    }

    /// The operation to perform next.
    pub fn pending(&self) -> (op: Operation)
        ensures
            op == self@.pending,
    {
        self.pending
    }

    /// Whether the watcher holds a session.
    pub fn is_connected(&self) -> (c: bool)
        ensures
            c == self@.connected(),
    {
        match self.pending {
            Operation::Query => true,
            Operation::Wait => true,
            _ => false,
        }
    }

    /// Takes the outcome of the pending operation, moves on to the next
    /// operation, and returns the event to send to the aggregator, if any.
    pub fn advance(&mut self, outcome: Outcome) -> (event: Option<(AccountId, Status)>)
        ensures
            final(self)@ == old(self)@.step(outcome),
            event == match old(self)@.report(outcome) {
                Some(status) => Some((old(self)@.id, status)),
                None => None,
            },
    {
        match (self.pending, outcome) {
            (Operation::Connect, Outcome::Done) => {
                self.pending = Operation::Query;
                None
            },
            (Operation::Query, Outcome::Unseen(count)) => {
                self.pending = Operation::Wait;
                Some((self.id, Status::Normal(count)))
            },
            (Operation::Wait, Outcome::Done) => {
                self.pending = Operation::Query;
                None
            },
            (Operation::Sleep(_), _) => {
                self.pending = Operation::Connect;
                None
            },
            _ => {
                self.pending = Operation::Sleep(self.backoff_secs);
                Some((self.id, Status::Error))
            },
        }
    }
}

/// The state of a watcher that was in state `s` and has taken `outcomes`
/// in turn.
pub open spec fn run(s: WatcherState, outcomes: Seq<Outcome>) -> WatcherState
    decreases outcomes.len(),
{
    if outcomes.len() == 0 {
        s
    } else {
        run(s, outcomes.drop_last()).step(outcomes.last())
    }
}

/// The operations that a watcher asks for while it takes `outcomes`: the
/// one pending in `s`, then the one that follows each outcome.
pub open spec fn operations(s: WatcherState, outcomes: Seq<Outcome>) -> Seq<Operation>
    decreases outcomes.len(),
{
    if outcomes.len() == 0 {
        seq![s.pending]
    } else {
        operations(s, outcomes.drop_last()).push(run(s, outcomes).pending)
    }
}

/// The statuses that a watcher reports while it takes `outcomes`.
pub open spec fn reports(s: WatcherState, outcomes: Seq<Outcome>) -> Seq<Status>
    decreases outcomes.len(),
{
    if outcomes.len() == 0 {
        Seq::empty()
    } else {
        let earlier = reports(s, outcomes.drop_last());
        match run(s, outcomes.drop_last()).report(outcomes.last()) {
            Some(status) => earlier.push(status),
            None => earlier,
        }
    }
}

/// Number of connection attempts among `ops`.
pub open spec fn connection_attempts(ops: Seq<Operation>) -> nat
    decreases ops.len(),
{
    if ops.len() == 0 {
        0
    } else {
        connection_attempts(ops.drop_last()) + if ops.last() is Connect {
            1nat
        } else {
            0nat
        }
    }
}

/// The outcomes of `k` failures in a row, each followed by the end of the
/// sleep that it caused.
pub open spec fn consecutive_failures(k: nat) -> Seq<Outcome>
    decreases k,
{
    if k == 0 {
        Seq::empty()
    } else {
        consecutive_failures((k - 1) as nat).push(Outcome::Failed).push(Outcome::Done)
    }
}

/// Taking outcomes changes neither the account nor the backoff.
pub proof fn lemma_run_keeps_settings(s: WatcherState, outcomes: Seq<Outcome>)
    ensures
        run(s, outcomes).id == s.id,
        run(s, outcomes).backoff_secs == s.backoff_secs,
    decreases outcomes.len(),
{
    if outcomes.len() > 0 {
        lemma_run_keeps_settings(s, outcomes.drop_last());
    }
}

/// A watcher holds a session after a step exactly when the step was the
/// success of connecting, querying or waiting.
pub proof fn lemma_connected_after_success(s: WatcherState, outcome: Outcome)
    ensures
        s.step(outcome).connected() == (s.succeeds(outcome) && !(s.pending is Sleep)),
{
}

/// Whatever fails, the watcher reports `Error`, gives up its session and
/// sleeps for the configured time; after the sleep it connects anew.
pub proof fn lemma_failure_is_reported(s: WatcherState)
    requires
        !(s.pending is Sleep),
    ensures
        s.report(Outcome::Failed) == Some(Status::Error),
        s.step(Outcome::Failed).pending == Operation::Sleep(s.backoff_secs),
        !s.step(Outcome::Failed).connected(),
        forall|o: Outcome| #[trigger]
            s.step(Outcome::Failed).step(o).pending == Operation::Connect,
        forall|o: Outcome| #[trigger] s.step(Outcome::Failed).report(o) is None,
{
}

/// After `k` failures in a row the watcher has reported `Error` `k` times
/// and nothing else, has slept for the configured time after each failure,
/// and has started a connection attempt after each sleep: `k` attempts in
/// all, and `k + 1` where the first failure was that of a connection
/// attempt.
pub proof fn lemma_consecutive_failures(s: WatcherState, k: nat)
    requires
        !(s.pending is Sleep),
    ensures
        consecutive_failures(k).len() == 2 * k,
        operations(s, consecutive_failures(k)).len() == 2 * k + 1,
        operations(s, consecutive_failures(k))[0] == s.pending,
        forall|i: int|
            0 <= i < k ==> {
                &&& #[trigger] operations(s, consecutive_failures(k))[2 * i + 1]
                    == Operation::Sleep(s.backoff_secs)
                &&& operations(s, consecutive_failures(k))[2 * i + 2] == Operation::Connect
            },
        connection_attempts(operations(s, consecutive_failures(k))) == k + if s.pending
            is Connect {
            1nat
        } else {
            0nat
        },
        reports(s, consecutive_failures(k)) == Seq::new(k, |i: int| Status::Error),
        k > 0 ==> run(s, consecutive_failures(k)).pending == Operation::Connect,
        k > 0 ==> reports(s, consecutive_failures(k)).last() == Status::Error,
    decreases k,
{
    let all = consecutive_failures(k);
    if k == 0 {
        assert(operations(s, all) =~= seq![s.pending]);
        assert(operations(s, all).drop_last() =~= Seq::empty());
        assert(connection_attempts(operations(s, all).drop_last()) == 0);
        assert(operations(s, all).last() == s.pending);
        assert(reports(s, all) =~= Seq::new(k, |i: int| Status::Error));
    } else {
        let before = consecutive_failures((k - 1) as nat);
        let failed = before.push(Outcome::Failed);
        lemma_consecutive_failures(s, (k - 1) as nat);
        lemma_run_keeps_settings(s, before);
        assert(failed.drop_last() =~= before);
        assert(all.drop_last() =~= failed);
        let at_failure = run(s, before);
        assert(!(at_failure.pending is Sleep));
        assert(run(s, failed) == at_failure.step(Outcome::Failed));
        assert(run(s, all) == run(s, failed).step(Outcome::Done));
        let ops_before = operations(s, before);
        let ops_failed = operations(s, failed);
        let ops = operations(s, all);
        assert(ops_failed == ops_before.push(Operation::Sleep(s.backoff_secs)));
        assert(ops == ops_failed.push(Operation::Connect));
        assert(ops.drop_last() =~= ops_failed);
        assert(ops_failed.drop_last() =~= ops_before);
        assert(connection_attempts(ops_failed) == connection_attempts(ops_before));
        assert(connection_attempts(ops) == connection_attempts(ops_failed) + 1);
        assert(reports(s, failed) == reports(s, before).push(Status::Error));
        assert(reports(s, all) == reports(s, failed));
        assert(reports(s, all) =~= Seq::new(k, |i: int| Status::Error));
        assert forall|i: int| 0 <= i < k implies {
            &&& #[trigger] ops[2 * i + 1] == Operation::Sleep(s.backoff_secs)
            &&& ops[2 * i + 2] == Operation::Connect
        } by {
            if i < k - 1 {
                assert(ops[2 * i + 1] == ops_before[2 * i + 1]);
                assert(ops[2 * i + 2] == ops_before[2 * i + 2]);
            }
        }
    }
}

} // verus!
