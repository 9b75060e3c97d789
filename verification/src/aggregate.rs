//! The aggregation policy: from the latest status of every account to the
//! one line that the display shows.

use crate::decimal::{decimal, push_decimal};
use crate::status::{AccountId, Status};
use std::collections::HashMap;
use vstd::prelude::*;
use vstd::std_specs::hash::group_hash_axioms;
use vstd::std_specs::iter::IteratorSpec;
use vstd::string::StringExecFns;

verus! {

/// Glyph shown when no account has unseen mail.
pub const MAILBOX_CLOSED: char = '\u{1F4EA}';

/// Glyph shown when some account has unseen mail.
pub const MAILBOX_OPEN: char = '\u{1F4EC}';

/// First code point of the warning glyph.
pub const WARNING_SIGN: char = '\u{26A0}';

/// Second code point of the warning glyph, which selects its emoji form.
pub const EMOJI_SELECTOR: char = '\u{FE0F}';

/// The warning glyph, shown when some account is in error.
pub open spec fn warning_glyph() -> Seq<char> {
    seq![WARNING_SIGN, EMOJI_SELECTOR]
}

/// Sum of the unseen counts of all accounts in `m`.
pub open spec fn unseen_total(m: Map<AccountId, Status>) -> nat
    decreases m.dom().len(),
    when m.dom().finite()
{
    if m.dom().len() == 0 {
        0
    } else {
        let id = m.dom().choose();
        m[id].unseen() + unseen_total(m.remove(id))
    }
}

/// The accounts of `m` that are in error.
pub open spec fn failed_accounts(m: Map<AccountId, Status>) -> Set<AccountId> {
    m.dom().filter(|id: AccountId| m[id] is Error)
}

/// Number of accounts of `m` that are in error.
pub open spec fn error_count(m: Map<AccountId, Status>) -> nat {
    failed_accounts(m).len()
}

/// The line for `unseen` unseen messages in all and `errors` failed
/// accounts; `None` when there is nothing to show.
pub open spec fn render_spec(unseen: nat, errors: nat) -> Option<Seq<char>> {
    if unseen == 0 && errors == 0 {
        None
    } else if unseen == 0 {
        Some(seq![MAILBOX_CLOSED] + warning_glyph())
    } else if errors == 0 {
        Some(seq![MAILBOX_OPEN, ' '] + decimal(unseen))
    } else {
        Some(seq![MAILBOX_OPEN] + warning_glyph() + seq![' '] + decimal(unseen))
    }
}

/// The line for the statuses in `m`.
pub open spec fn aggregate(m: Map<AccountId, Status>) -> Option<Seq<char>> {
    render_spec(unseen_total(m), error_count(m))
}

/// Whether `entries` names every entry of `m` exactly once, in any order.
pub open spec fn lists(entries: Seq<(AccountId, Status)>, m: Map<AccountId, Status>) -> bool {
    &&& entries.no_duplicates()
    &&& entries.to_set() == m.kv_pairs()
}

/// Unseen messages counted along `entries`, first to last.
pub open spec fn unseen_along(entries: Seq<(AccountId, Status)>) -> nat
    decreases entries.len(),
{
    if entries.len() == 0 {
        0
    } else {
        unseen_along(entries.drop_last()) + entries.last().1.unseen()
    }
}

/// Failed accounts counted along `entries`, first to last.
pub open spec fn errors_along(entries: Seq<(AccountId, Status)>) -> nat
    decreases entries.len(),
{
    if entries.len() == 0 {
        0
    } else {
        errors_along(entries.drop_last()) + if entries.last().1 is Error {
            1nat
        } else {
            0nat
        }
    }
}

/// The line computed by visiting `entries` in their order.
pub open spec fn aggregate_along(entries: Seq<(AccountId, Status)>) -> Option<Seq<char>> {
    render_spec(unseen_along(entries), errors_along(entries))
}

/// Taking one account out of the map takes its unseen count out of the sum.
pub proof fn lemma_unseen_total_remove(m: Map<AccountId, Status>, id: AccountId)
    requires
        m.dom().finite(),
        m.dom().contains(id),
    ensures
        unseen_total(m) == m[id].unseen() + unseen_total(m.remove(id)),
    decreases m.dom().len(),
{
    let c = m.dom().choose();
    if c != id {
        lemma_unseen_total_remove(m.remove(c), id);
        lemma_unseen_total_remove(m.remove(id), c);
        assert(m.remove(c).remove(id) =~= m.remove(id).remove(c));
    }
}

/// Taking one account out of the map takes it out of the error count.
pub proof fn lemma_error_count_remove(m: Map<AccountId, Status>, id: AccountId)
    requires
        m.dom().finite(),
        m.dom().contains(id),
    ensures
        error_count(m) == error_count(m.remove(id)) + if m[id] is Error {
            1nat
        } else {
            0nat
        },
        failed_accounts(m).finite(),
{
    let all = failed_accounts(m);
    let rest = failed_accounts(m.remove(id));
    vstd::set_lib::lemma_len_subset(all, m.dom());
    assert(rest =~= all.remove(id));
}

/// Nothing is counted in an empty map.
pub proof fn lemma_empty_counts()
    ensures
        unseen_total(Map::<AccountId, Status>::empty()) == 0,
        error_count(Map::<AccountId, Status>::empty()) == 0,
        aggregate(Map::<AccountId, Status>::empty()) is None,
{
    let m = Map::<AccountId, Status>::empty();
    assert(failed_accounts(m) =~= Set::empty());
}

/// Visiting the entries of a map in any order counts what the map holds.
pub proof fn lemma_counts_along(entries: Seq<(AccountId, Status)>, m: Map<AccountId, Status>)
    requires
        lists(entries, m),
    ensures
        m.dom().finite(),
        m.dom().len() == entries.len(),
        unseen_along(entries) == unseen_total(m),
        errors_along(entries) == error_count(m),
    decreases entries.len(),
{
    if entries.len() == 0 {
        assert forall|id: AccountId| !m.dom().contains(id) by {
            if m.dom().contains(id) {
                assert(m.kv_pairs().contains((id, m[id])));
                assert(entries.to_set().contains((id, m[id])));
            }
        }
        assert(m.dom() =~= Set::empty());
        assert(m =~= Map::empty());
        lemma_empty_counts();
    } else {
        let (id, status) = entries.last();
        let front = entries.drop_last();
        let rest = m.remove(id);
        assert(entries.to_set().contains(entries.last()));
        assert(m.kv_pairs().contains((id, status)));
        assert(front.no_duplicates());
        assert forall|p: (AccountId, Status)| front.to_set().contains(p) == rest.kv_pairs().contains(
            p,
        ) by {
            if front.to_set().contains(p) {
                let i = choose|i: int| 0 <= i < front.len() && front[i] == p;
                assert(entries[i] == p);
                assert(entries.to_set().contains(p));
                assert(m.kv_pairs().contains(p));
                assert(p != entries[entries.len() - 1]);
            }
            if rest.kv_pairs().contains(p) {
                assert(m.kv_pairs().contains(p));
                assert(entries.to_set().contains(p));
                let i = choose|i: int| 0 <= i < entries.len() && entries[i] == p;
                assert(front[i] == p);
            }
        }
        assert(front.to_set() =~= rest.kv_pairs());
        lemma_counts_along(front, rest);
        assert(m.dom() =~= rest.dom().insert(id));
        lemma_unseen_total_remove(m, id);
        lemma_error_count_remove(m, id);
    }
}

/// The line does not depend on the order in which the map is visited: any
/// two listings of the same map give the line of the map.
pub proof fn lemma_aggregate_order_independent(
    m: Map<AccountId, Status>,
    first: Seq<(AccountId, Status)>,
    second: Seq<(AccountId, Status)>,
)
    requires
        lists(first, m),
        lists(second, m),
    ensures
        aggregate_along(first) == aggregate(m),
        aggregate_along(second) == aggregate(m),
        aggregate_along(first) == aggregate_along(second),
{
    lemma_counts_along(first, m);
    lemma_counts_along(second, m);
}

/// Writing a status into the map replaces what that account counted before.
pub proof fn lemma_insert_counts(m: Map<AccountId, Status>, id: AccountId, status: Status)
    requires
        m.dom().finite(),
    ensures
        unseen_total(m.insert(id, status)) == unseen_total(m.remove(id)) + status.unseen(),
        error_count(m.insert(id, status)) == error_count(m.remove(id)) + if status is Error {
            1nat
        } else {
            0nat
        },
{
    let after = m.insert(id, status);
    assert(after.remove(id) =~= m.remove(id));
    lemma_unseen_total_remove(after, id);
    lemma_error_count_remove(after, id);
}

/// An account without unseen mail and without error is invisible: writing
/// `Normal(0)` for an account that the map does not hold, or holds as
/// `Normal(0)`, leaves the line as it was.
pub proof fn lemma_idle_account_is_invisible(m: Map<AccountId, Status>, id: AccountId)
    requires
        m.dom().finite(),
        m.dom().contains(id) ==> m[id] == Status::Normal(0),
    ensures
        unseen_total(m.insert(id, Status::Normal(0))) == unseen_total(m),
        error_count(m.insert(id, Status::Normal(0))) == error_count(m),
        aggregate(m.insert(id, Status::Normal(0))) == aggregate(m),
{
    lemma_insert_counts(m, id, Status::Normal(0));
    if m.dom().contains(id) {
        lemma_unseen_total_remove(m, id);
        lemma_error_count_remove(m, id);
    } else {
        assert(m.remove(id) =~= m);
    }
}

/// The characters of an optional line.
pub open spec fn line_of(out: Option<String>) -> Option<Seq<char>> {
    match out {
        Some(text) => Some(text@),
        None => None,
    }
}

/// Renders the line for `unseen` unseen messages in all and `errors`
/// failed accounts.
pub fn render(unseen: u128, errors: usize) -> (out: Option<String>)
    ensures
        line_of(out) == render_spec(unseen as nat, errors as nat),
{
    if unseen == 0 && errors == 0 {
        return None;
    }
    if unseen == 0 {
        proof {
            reveal_strlit("\u{1F4EA}\u{26A0}\u{FE0F}");
        }
        let text = String::from_str("\u{1F4EA}\u{26A0}\u{FE0F}");
        assert(text@ =~= seq![MAILBOX_CLOSED] + warning_glyph());
        return Some(text);
    }
    let mut text = if errors == 0 {
        proof {
            reveal_strlit("\u{1F4EC} ");
        }
        String::from_str("\u{1F4EC} ")
    } else {
        proof {
            reveal_strlit("\u{1F4EC}\u{26A0}\u{FE0F} ");
        }
        String::from_str("\u{1F4EC}\u{26A0}\u{FE0F} ")
    };
    let ghost head = text@;
    assert(errors == 0 ==> head =~= seq![MAILBOX_OPEN, ' ']);
    assert(errors != 0 ==> head =~= seq![MAILBOX_OPEN] + warning_glyph() + seq![' ']);
    push_decimal(&mut text, unseen);
    Some(text)
}

/// Counts the unseen messages of all accounts and the accounts in error.
pub fn tally_statuses(a: &HashMap<AccountId, Status>) -> (tally: (u128, usize))
    ensures
        tally.0 == unseen_total(a@),
        tally.1 == error_count(a@),
{
    broadcast use group_hash_axioms;

    let mut unseen: u128 = 0;
    let mut errors: usize = 0;
    let ghost entries = a.iter().remaining().unref();
    assert(a@.dom().len() <= usize::MAX) by {
        assert(vstd::std_specs::hash::spec_hash_map_len(a) == a@.len());
    }
    for (id, status) in it: a.iter()
        invariant
            it.seq().unref() == entries,
            entries.no_duplicates(),
            entries.to_set() == a@.kv_pairs(),
            entries.len() == a@.dom().len(),
            entries.len() <= usize::MAX,
            unseen == unseen_along(entries.take(it.index())),
            errors == errors_along(entries.take(it.index())),
            unseen <= it.index() * 0xFFFF_FFFF_FFFF_FFFF,
            errors <= it.index(),
    {
        proof {
            let done = entries.take(it.index());
            let next = entries.take(it.index() + 1);
            assert(next.drop_last() =~= done);
            assert(next.last() == (*id, *status));
        }
        match status {
            Status::Normal(c) => {
                unseen = unseen + *c as u128;
            },
            Status::Error => {
                errors = errors + 1;
            },
        }
    }
    proof {
        assert(entries.take(entries.len() as int) =~= entries);
        lemma_counts_along(entries, a@);
    }
    (unseen, errors)
}

/// Merges the latest status of every account into the line to display;
/// `None` when no account has unseen mail or is in error.
pub fn aggregate_account_statuses(a: &HashMap<AccountId, Status>) -> (out: Option<String>)
    ensures
        line_of(out) == aggregate(a@),
{
    let (unseen, errors) = tally_statuses(a);
    render(unseen, errors)
}

} // verus!
