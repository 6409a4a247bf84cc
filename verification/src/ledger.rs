//! The per-poll vote ledger: either a membership set of identities (one-shot
//! voting) or a map from identity to the currently selected option index
//! (change-allowed voting), together with the counting specifications that
//! tie a ledger to a poll's tallies.

use vstd::prelude::*;

use crate::poll::Address;
use crate::poll::PollOption;
use crate::poll::sum_counts;

verus! {

/// The record of who has voted in one poll. The variant is selected once, at
/// poll creation, by `can_change_vote`.
pub enum VoteLedger {
    /// One-shot voting: the identities that have voted, each at most once.
    Immutable { voters: Vec<Address> },
    /// Change-allowed voting: one entry per voter, mapping the voter to the
    /// option index currently selected; overwritten on a vote change.
    Mutable { votes: Vec<(Address, usize)> },
}

/// No identity appears under two entries.
pub open spec fn unique_keys(entries: Seq<(Address, usize)>) -> bool {
    forall|k1: int, k2: int|
        0 <= k1 < k2 < entries.len() ==> entries[k1].0 != entries[k2].0
}

/// Some entry carries this identity.
pub open spec fn map_has(entries: Seq<(Address, usize)>, a: Address) -> bool {
    exists|k: int| 0 <= k < entries.len() && entries[k].0 == a
}

/// The position of the identity's entry (meaningful under `unique_keys`
/// together with `map_has`).
pub open spec fn map_idx(entries: Seq<(Address, usize)>, a: Address) -> int {
    choose|k: int| 0 <= k < entries.len() && entries[k].0 == a
}

/// The option index the identity's entry carries.
pub open spec fn map_get(entries: Seq<(Address, usize)>, a: Address) -> usize {
    entries[map_idx(entries, a)].1
}

/// The identities the entries carry, in entry order.
pub open spec fn entry_keys(entries: Seq<(Address, usize)>) -> Seq<Address> {
    Seq::new(entries.len(), |k: int| entries[k].0)
}

/// How many identities hold an entry or a membership in the ledger.
pub open spec fn ledger_size(l: VoteLedger) -> nat {
    match l {
        VoteLedger::Immutable { voters } => voters@.len(),
        VoteLedger::Mutable { votes } => votes@.len(),
    }
}

/// Whether the identity has voted according to the ledger.
pub open spec fn ledger_has(l: VoteLedger, a: Address) -> bool {
    match l {
        VoteLedger::Immutable { voters } => voters@.contains(a),
        VoteLedger::Mutable { votes } => map_has(votes@, a),
    }
}

/// The option the identity currently selects, for a change-allowed ledger.
pub open spec fn ledger_vote_of(l: VoteLedger, a: Address) -> usize {
    match l {
        VoteLedger::Immutable { voters: _ } => arbitrary(),
        VoteLedger::Mutable { votes } => map_get(votes@, a),
    }
}

/// The number of ledger entries, as the executable code reads it.
pub fn ledger_len(l: &VoteLedger) -> (n: usize)
    ensures
        n as nat == ledger_size(*l),
{
    match l {
        VoteLedger::Immutable { voters } => voters.len(),
        VoteLedger::Mutable { votes } => votes.len(),
    }
}

/// Finds the position of the identity's entry, if it holds one.
pub fn find_entry(votes: &Vec<(Address, usize)>, a: Address) -> (r: Option<usize>)
    ensures
        match r {
            Option::Some(pos) => 0 <= pos < votes@.len() && votes@[pos as int].0 == a,
            Option::None => !map_has(votes@, a),
        },
{
    let mut i: usize = 0;
    while i < votes.len()
        invariant
            0 <= i <= votes@.len(),
            forall|k: int| 0 <= k < i ==> votes@[k].0 != a,
        decreases votes@.len() - i,
    {
        if votes[i].0 == a {
            return Option::Some(i);
        }
        i = i + 1;
    }
    Option::None
}

/// How many entries currently select option `idx`.
pub open spec fn count_for(entries: Seq<(Address, usize)>, idx: int) -> nat
    decreases entries.len(),
{
    if entries.len() == 0 {
        0
    } else {
        count_for(entries.drop_last(), idx) + if entries.last().1 as int == idx {
            1nat
        } else {
            0nat
        }
    }
}

pub proof fn lemma_count_for_push(entries: Seq<(Address, usize)>, e: (Address, usize), idx: int)
    ensures
        count_for(entries.push(e), idx) == count_for(entries, idx) + if e.1 as int == idx {
            1nat
        } else {
            0nat
        },
{
    assert(entries.push(e).drop_last() =~= entries);
    assert(entries.push(e).last() == e);
}

pub proof fn lemma_count_for_update(
    entries: Seq<(Address, usize)>,
    k: int,
    e: (Address, usize),
    idx: int,
)
    requires
        0 <= k < entries.len(),
    ensures
        count_for(entries.update(k, e), idx) + (if entries[k].1 as int == idx {
            1nat
        } else {
            0nat
        }) == count_for(entries, idx) + (if e.1 as int == idx {
            1nat
        } else {
            0nat
        }),
    decreases entries.len(),
{
    let t = entries.update(k, e);
    if k == entries.len() - 1 {
        assert(t.drop_last() =~= entries.drop_last());
        assert(t.last() == e);
    } else {
        assert(t.drop_last() =~= entries.drop_last().update(k, e));
        assert(t.last() == entries.last());
        lemma_count_for_update(entries.drop_last(), k, e, idx);
    }
}

pub proof fn lemma_count_for_le(entries: Seq<(Address, usize)>, idx: int)
    ensures
        count_for(entries, idx) <= entries.len(),
    decreases entries.len(),
{
    if entries.len() > 0 {
        lemma_count_for_le(entries.drop_last(), idx);
    }
}

pub proof fn lemma_count_for_pos(entries: Seq<(Address, usize)>, k: int, idx: int)
    requires
        0 <= k < entries.len(),
        entries[k].1 as int == idx,
    ensures
        count_for(entries, idx) >= 1,
    decreases entries.len(),
{
    if k < entries.len() - 1 {
        lemma_count_for_pos(entries.drop_last(), k, idx);
    }
}

pub proof fn lemma_count_for_excludes(entries: Seq<(Address, usize)>, k: int, idx: int)
    requires
        0 <= k < entries.len(),
        entries[k].1 as int != idx,
    ensures
        count_for(entries, idx) <= entries.len() - 1,
    decreases entries.len(),
{
    if k == entries.len() - 1 {
        lemma_count_for_le(entries.drop_last(), idx);
    } else {
        lemma_count_for_excludes(entries.drop_last(), k, idx);
    }
}

/// How many entries select an option index below `n`.
pub open spec fn total_count(entries: Seq<(Address, usize)>, n: nat) -> nat
    decreases n,
{
    if n == 0 {
        0
    } else {
        total_count(entries, (n - 1) as nat) + count_for(entries, n - 1)
    }
}

pub proof fn lemma_total_count_drop(entries: Seq<(Address, usize)>, n: nat)
    requires
        entries.len() > 0,
    ensures
        total_count(entries, n) == total_count(entries.drop_last(), n) + if (entries.last().1 as int)
            < n {
            1nat
        } else {
            0nat
        },
    decreases n,
{
    if n > 0 {
        lemma_total_count_drop(entries, (n - 1) as nat);
    }
}

pub proof fn lemma_total_count_all(entries: Seq<(Address, usize)>, n: nat)
    requires
        forall|k: int| 0 <= k < entries.len() ==> (entries[k].1 as int) < n,
    ensures
        total_count(entries, n) == entries.len(),
    decreases entries.len(),
{
    if entries.len() == 0 {
        lemma_total_count_empty(entries, n);
    } else {
        lemma_total_count_drop(entries, n);
        lemma_total_count_all(entries.drop_last(), n);
    }
}

pub proof fn lemma_total_count_empty(entries: Seq<(Address, usize)>, n: nat)
    requires
        entries.len() == 0,
    ensures
        total_count(entries, n) == 0,
    decreases n,
{
    if n > 0 {
        lemma_total_count_empty(entries, (n - 1) as nat);
    }
}

/// When every tally equals the number of entries selecting its option, and
/// every entry selects an option in range, the tallies sum to the number of
/// entries.
pub proof fn lemma_counts_sum_to_len(options: Seq<PollOption>, entries: Seq<(Address, usize)>)
    requires
        forall|j: int| 0 <= j < options.len() ==> options[j].vote_count == count_for(entries, j),
        forall|k: int| 0 <= k < entries.len() ==> (entries[k].1 as int) < options.len(),
    ensures
        sum_counts(options) == entries.len(),
{
    lemma_sum_is_total_count(options, entries);
    lemma_total_count_all(entries, options.len());
}

proof fn lemma_sum_is_total_count(options: Seq<PollOption>, entries: Seq<(Address, usize)>)
    requires
        forall|j: int| 0 <= j < options.len() ==> options[j].vote_count == count_for(entries, j),
    ensures
        sum_counts(options) == total_count(entries, options.len()),
    decreases options.len(),
{
    if options.len() > 0 {
        assert(forall|j: int|
            0 <= j < options.drop_last().len() ==> options.drop_last()[j].vote_count == count_for(
                entries,
                j,
            ));
        lemma_sum_is_total_count(options.drop_last(), entries);
    }
}

/// A unique entry key pins down the position `map_idx` picks.
pub proof fn lemma_map_key_at(entries: Seq<(Address, usize)>, k: int)
    requires
        unique_keys(entries),
        0 <= k < entries.len(),
    ensures
        map_has(entries, entries[k].0),
        map_idx(entries, entries[k].0) == k,
        map_get(entries, entries[k].0) == entries[k].1,
{
    let a = entries[k].0;
    assert(map_has(entries, a));
    let c = map_idx(entries, a);
    assert(0 <= c < entries.len() && entries[c].0 == a);
    if c != k {
        if c < k {
            assert(entries[c].0 != entries[k].0);
        } else {
            assert(entries[k].0 != entries[c].0);
        }
    }
}

/// Overwriting the option index of an existing entry keeps every key and
/// leaves every other identity's entry as it was.
pub proof fn lemma_map_update_entry(entries: Seq<(Address, usize)>, pos: int, idx: usize)
    requires
        unique_keys(entries),
        0 <= pos < entries.len(),
    ensures
        unique_keys(entries.update(pos, (entries[pos].0, idx))),
        map_has(entries.update(pos, (entries[pos].0, idx)), entries[pos].0),
        map_get(entries.update(pos, (entries[pos].0, idx)), entries[pos].0) == idx,
        forall|b: Address|
            b != entries[pos].0 ==> map_has(entries.update(pos, (entries[pos].0, idx)), b)
                == map_has(entries, b),
        forall|b: Address|
            b != entries[pos].0 && map_has(entries, b) ==> map_get(
                entries.update(pos, (entries[pos].0, idx)),
                b,
            ) == map_get(entries, b),
{
    let a = entries[pos].0;
    let t = entries.update(pos, (a, idx));
    assert(forall|k: int| 0 <= k < entries.len() ==> t[k].0 == entries[k].0);
    lemma_map_key_at(t, pos);
    assert forall|b: Address| b != a implies map_has(t, b) == map_has(entries, b) by {
        if map_has(entries, b) {
            let k = map_idx(entries, b);
            assert(t[k].0 == b);
            assert(map_has(t, b));
        }
        if map_has(t, b) {
            let k = choose|k: int| 0 <= k < t.len() && t[k].0 == b;
            assert(entries[k].0 == b);
            assert(map_has(entries, b));
        }
    }
    assert forall|b: Address| b != a && map_has(entries, b) implies map_get(t, b) == map_get(
        entries,
        b,
    ) by {
        let k = map_idx(entries, b);
        lemma_map_key_at(entries, k);
        assert(k != pos);
        assert(t[k] == entries[k]);
        lemma_map_key_at(t, k);
    }
}

/// Appending an entry under a fresh key keeps the keys unique and leaves
/// every other identity's entry as it was.
pub proof fn lemma_map_push_entry(entries: Seq<(Address, usize)>, a: Address, idx: usize)
    requires
        unique_keys(entries),
        !map_has(entries, a),
    ensures
        unique_keys(entries.push((a, idx))),
        map_has(entries.push((a, idx)), a),
        map_get(entries.push((a, idx)), a) == idx,
        forall|b: Address|
            b != a ==> map_has(entries.push((a, idx)), b) == map_has(entries, b),
        forall|b: Address|
            b != a && map_has(entries, b) ==> map_get(entries.push((a, idx)), b) == map_get(
                entries,
                b,
            ),
{
    let t = entries.push((a, idx));
    assert(forall|k: int| 0 <= k < entries.len() ==> t[k] == entries[k]);
    assert(t[entries.len() as int] == (a, idx));
    assert(unique_keys(t));
    lemma_map_key_at(t, entries.len() as int);
    assert forall|b: Address| b != a implies map_has(t, b) == map_has(entries, b) by {
        if map_has(entries, b) {
            let k = map_idx(entries, b);
            assert(t[k].0 == b);
        }
        if map_has(t, b) {
            let k = choose|k: int| 0 <= k < t.len() && t[k].0 == b;
            assert(k < entries.len());
            assert(map_has(entries, b));
        }
    }
    assert forall|b: Address| b != a && map_has(entries, b) implies map_get(t, b) == map_get(
        entries,
        b,
    ) by {
        let k = map_idx(entries, b);
        lemma_map_key_at(entries, k);
        lemma_map_key_at(t, k);
    }
}

/// A list of distinct identities all drawn from `t` is no longer than `t`.
pub proof fn lemma_unique_within_len(s: Seq<Address>, t: Seq<Address>)
    requires
        s.no_duplicates(),
        forall|i: int| 0 <= i < s.len() ==> t.contains(s[i]),
    ensures
        s.len() <= t.len(),
{
    broadcast use vstd::seq_lib::seq_to_set_is_finite;

    s.unique_seq_to_set();
    t.lemma_cardinality_of_set();
    assert forall|x: Address| s.to_set().contains(x) implies t.to_set().contains(x) by {
        assert(s.contains(x));
        let i = choose|i: int| 0 <= i < s.len() && s[i] == x;
        assert(t.contains(s[i]));
    }
    assert(s.to_set().subset_of(t.to_set()));
    vstd::set_lib::lemma_len_subset(s.to_set(), t.to_set());
}

} // verus!
