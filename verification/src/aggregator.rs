//! The aggregator: the single owner of the per-account status map.

use crate::aggregate::{aggregate, aggregate_account_statuses, line_of};
use crate::module::{Module, ModuleOp, ModuleView};
use crate::status::{AccountId, Status};
use std::collections::HashMap;
use vstd::prelude::*;
use vstd::std_specs::hash::group_hash_axioms;

verus! {

/// Holds the most recent status of every account that has reported.
pub struct Aggregator {
    statuses: HashMap<AccountId, Status>,
}

impl View for Aggregator {
    type V = Map<AccountId, Status>;

    closed spec fn view(&self) -> Map<AccountId, Status> {
        self.statuses@
    }
}

/// What a module shows once the line `line` has been published to it.
/// First the module is told whether there is a line at all. Then, only
/// where there is one, the text is written, once.
pub open spec fn published(before: ModuleView, line: Option<Seq<char>>) -> ModuleView {
    match line {
        Some(text) => ModuleView {
            visible: true,
            output: text,
            history: before.history.push(ModuleOp::SetVisible(true)).push(ModuleOp::Write(text)),
        },
        None => ModuleView {
            visible: false,
            output: before.output,
            history: before.history.push(ModuleOp::SetVisible(false)),
        },
    }
}

impl Aggregator {
    /// An aggregator that has heard of no account yet.
    pub fn new() -> (s: Aggregator)
        ensures
            s@ == Map::<AccountId, Status>::empty(),
    {
        Aggregator { statuses: HashMap::new() }
    }

    /// The status map is finite.
    pub proof fn lemma_finite(&self)
        ensures
            self@.dom().finite(),
    {
        broadcast use group_hash_axioms;

    }

    /// Number of accounts that have reported.
    pub fn len(&self) -> (n: usize)
        ensures
            n == self@.dom().len(),
    {
        broadcast use group_hash_axioms;

        self.statuses.len()
    }

    /// The most recent status of account `id`, if it has reported.
    pub fn status(&self, id: AccountId) -> (s: Option<Status>)
        ensures
            s == if self@.dom().contains(id) {
                Some(self@[id])
            } else {
                None
            },
    {
        broadcast use group_hash_axioms;

        match self.statuses.get(&id) {
            Some(status) => Some(*status),
            None => None,
        }
    }

    /// Overwrites the status of account `id`.
    pub fn record(&mut self, id: AccountId, status: Status)
        ensures
            final(self)@ == old(self)@.insert(id, status),
    {
        broadcast use group_hash_axioms;

        self.statuses.insert(id, status);
    }

    /// The line for the statuses held now.
    pub fn output(&self) -> (out: Option<String>)
        ensures
            line_of(out) == aggregate(self@),
    {
        aggregate_account_statuses(&self.statuses)
    }

    /// Handles one status event: overwrites the account's status, computes
    /// the line anew and publishes it to `module`. Returns whether the
    /// module's text was written.
    pub fn receive(&mut self, id: AccountId, status: Status, module: &mut Module) -> (wrote: bool)
        ensures
            final(self)@ == old(self)@.insert(id, status),
            final(module)@ == published(old(module)@, aggregate(final(self)@)),
            wrote == aggregate(final(self)@) is Some,
    {
        self.record(id, status);
        let new_output = self.output();
        module.visible(new_output.is_some());
        match new_output {
            Some(text) => {
                module.with_output_lock(text.as_str());
                true
            },
            None => false,
        }
    }
}

/// The status map after the events `events` were received in turn,
/// starting from the map `m`.
pub open spec fn replay(m: Map<AccountId, Status>, events: Seq<(AccountId, Status)>) -> Map<
    AccountId,
    Status,
>
    decreases events.len(),
{
    if events.len() == 0 {
        m
    } else {
        replay(m, events.drop_last()).insert(events.last().0, events.last().1)
    }
}

/// The status that account `id` sent last among `events`, if it sent any.
pub open spec fn latest(events: Seq<(AccountId, Status)>, id: AccountId) -> Option<Status>
    decreases events.len(),
{
    if events.len() == 0 {
        None
    } else if events.last().0 == id {
        Some(events.last().1)
    } else {
        latest(events.drop_last(), id)
    }
}

/// The account ids below `n`.
pub open spec fn ids_below(n: nat) -> Set<AccountId> {
    Set::new(|id: AccountId| id < n)
}

/// The map holds, for every account, the status that the account sent
/// last; an account that sent nothing is as it was before.
pub proof fn lemma_replay_holds_latest(
    m: Map<AccountId, Status>,
    events: Seq<(AccountId, Status)>,
    id: AccountId,
)
    ensures
        replay(m, events).dom().contains(id) == (latest(events, id) is Some || m.dom().contains(
            id,
        )),
        latest(events, id) matches Some(status) ==> replay(m, events)[id] == status,
        latest(events, id) is None ==> replay(m, events)[id] == m[id],
    decreases events.len(),
{
    if events.len() > 0 {
        lemma_replay_holds_latest(m, events.drop_last(), id);
    }
}

/// The map depends on the events only through the last status of each
/// account: however the events of different accounts are interleaved, the
/// map is the same.
pub proof fn lemma_replay_tolerates_interleaving(
    first: Seq<(AccountId, Status)>,
    second: Seq<(AccountId, Status)>,
)
    requires
        forall|id: AccountId| latest(first, id) == latest(second, id),
    ensures
        replay(Map::empty(), first) == replay(Map::empty(), second),
{
    let a = replay(Map::<AccountId, Status>::empty(), first);
    let b = replay(Map::<AccountId, Status>::empty(), second);
    assert forall|id: AccountId| #[trigger] a.dom().contains(id) == b.dom().contains(id) by {
        lemma_replay_holds_latest(Map::empty(), first, id);
        lemma_replay_holds_latest(Map::empty(), second, id);
    }
    assert forall|id: AccountId| a.dom().contains(id) implies #[trigger] a[id] == b[id] by {
        lemma_replay_holds_latest(Map::empty(), first, id);
        lemma_replay_holds_latest(Map::empty(), second, id);
    }
    assert(a =~= b);
}

/// There are `n` account ids below `n`.
pub proof fn lemma_ids_below_len(n: nat)
    requires
        n <= usize::MAX + 1,
    ensures
        ids_below(n).finite(),
        ids_below(n).len() == n,
    decreases n,
{
    if n == 0 {
        assert(ids_below(n) =~= Set::empty());
    } else {
        let m = (n - 1) as nat;
        lemma_ids_below_len(m);
        assert(ids_below(n) =~= ids_below(m).insert(m as usize));
    }
}

/// Entries are never removed, and with `n` accounts the map never holds
/// more than `n` entries.
pub proof fn lemma_replay_grows_to_bound(events: Seq<(AccountId, Status)>, n: nat)
    requires
        forall|i: int| 0 <= i < events.len() ==> (#[trigger] events[i]).0 < n,
    ensures
        replay(Map::empty(), events).dom().finite(),
        replay(Map::empty(), events).dom().len() <= n,
        events.len() > 0 ==> replay(Map::empty(), events.drop_last()).dom().subset_of(
            replay(Map::empty(), events).dom(),
        ),
{
    let m = replay(Map::<AccountId, Status>::empty(), events);
    let bound: nat = if n <= usize::MAX + 1 {
        n
    } else {
        (usize::MAX + 1) as nat
    };
    lemma_ids_below_len(bound);
    assert forall|id: AccountId| m.dom().contains(id) implies ids_below(bound).contains(id) by {
        lemma_replay_holds_latest(Map::empty(), events, id);
        lemma_latest_is_an_event(events, id);
    }
    vstd::set_lib::lemma_len_subset(m.dom(), ids_below(bound));
}

/// The last status of an account is the status of one of its events.
pub proof fn lemma_latest_is_an_event(events: Seq<(AccountId, Status)>, id: AccountId)
    ensures
        latest(events, id) matches Some(status) ==> exists|i: int|
            0 <= i < events.len() && #[trigger] events[i] == (id, status),
    decreases events.len(),
{
    if events.len() > 0 {
        if events.last().0 == id {
            assert(events[events.len() - 1] == (id, events.last().1));
        } else {
            lemma_latest_is_an_event(events.drop_last(), id);
            if latest(events, id) is Some {
                let status = latest(events, id)->0;
                let front = events.drop_last();
                let i = choose|i: int| 0 <= i < front.len() && #[trigger] front[i] == (id, status);
                assert(events[i] == (id, status));
            }
        }
    }
}

/// What a module shows after the events `events` were received in turn by
/// an aggregator whose map was `m`, the module showing `before` at first.
pub open spec fn shown_after(
    m: Map<AccountId, Status>,
    before: ModuleView,
    events: Seq<(AccountId, Status)>,
) -> ModuleView
    decreases events.len(),
{
    if events.len() == 0 {
        before
    } else {
        published(shown_after(m, before, events.drop_last()), aggregate(replay(m, events)))
    }
}

/// After every event the module shows the line of the map as it stands
/// then: it is visible exactly when that map has a line, and its text is
/// that line.
pub proof fn lemma_shown_is_current(
    m: Map<AccountId, Status>,
    before: ModuleView,
    events: Seq<(AccountId, Status)>,
)
    requires
        events.len() > 0,
    ensures
        shown_after(m, before, events).visible == aggregate(replay(m, events)) is Some,
        aggregate(replay(m, events)) matches Some(text) ==> shown_after(m, before, events).output
            == text,
{
}

} // verus!
