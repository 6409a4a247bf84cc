//! Laws the engine obeys, stated over the same spec functions the endpoint
//! contracts use, and proved once and for all.

use vstd::prelude::*;

use crate::ledger::ledger_size;
use crate::poll::Address;
use crate::poll::Poll;
use crate::poll::PollError;
use crate::poll::PollStatus;
use crate::poll::closed_of;
use crate::poll::phase;
use crate::poll::sum_counts;
use crate::registry::VotingContract;
use crate::registry::cast_vote_error;
use crate::registry::lemma_tally_total;
use crate::registry::modify_poll_error;
use crate::registry::percentage;

verus! {

/// For every poll of a well-formed registry, the option counts sum to the
/// size of that poll's ledger: every recorded ballot is tallied exactly once.
pub proof fn lemma_tally_matches_ledger(c: VotingContract, i: int)
    requires
        c.wf(),
        0 <= i < c.polls@.len(),
    ensures
        sum_counts(c.polls@[i].options@) == ledger_size(c.ledgers@[i]),
{
    assert(c.poll_ok(i));
    lemma_tally_total(c.polls@[i], c.ledgers@[i]);
}

/// Closing is idempotent: the closed form of an already-closed poll is that
/// very poll, so a repeated `close_poll` changes nothing at all.
pub proof fn lemma_close_idempotent(p: Poll)
    requires
        p.is_closed,
    ensures
        closed_of(p) == p,
{
}

/// Voting outside the poll's window is always refused as a state error,
/// whatever the caller, the chosen option, the whitelist, or the ledger: the
/// time check precedes and overrides every later check.
pub proof fn lemma_cast_vote_time_gated(
    c: VotingContract,
    poll_id: u64,
    option_index: usize,
    caller: Address,
    now: u64,
)
    requires
        (poll_id as int) < c.polls@.len(),
        now < c.polls@[poll_id as int].start_time || now > c.polls@[poll_id as int].end_time,
    ensures
        cast_vote_error(c, poll_id, option_index, caller, now) == Option::Some(
            PollError::StateError,
        ),
{
    let p = c.polls@[poll_id as int];
    assert(phase(now, p.start_time, p.end_time) != PollStatus::Ongoing);
}

/// While a poll is ongoing, a modification by its creator is accepted
/// exactly when the new end lies strictly in the future — moving the end to
/// `now` or earlier is refused, and nothing about the options or the
/// question can make the call fail or succeed.
pub proof fn lemma_modify_ongoing_forward_only(
    c: VotingContract,
    poll_id: u64,
    n_options: int,
    new_start_time: u64,
    new_end_time: u64,
    caller: Address,
    now: u64,
)
    requires
        (poll_id as int) < c.polls@.len(),
        c.polls@[poll_id as int].creator == caller,
        !c.polls@[poll_id as int].is_closed,
        c.polls@[poll_id as int].start_time <= now <= c.polls@[poll_id as int].end_time,
    ensures
        new_end_time <= now ==> modify_poll_error(
            c,
            poll_id,
            n_options,
            new_start_time,
            new_end_time,
            caller,
            now,
        ) == Option::Some(PollError::ValidationError),
        new_end_time > now ==> modify_poll_error(
            c,
            poll_id,
            n_options,
            new_start_time,
            new_end_time,
            caller,
            now,
        ) == Option::None::<PollError>,
{
}

/// A poll in which nobody has voted reports a zero percentage for every
/// option: the percentage is defined, not a division error, when the total
/// is zero.
pub proof fn lemma_zero_votes_zero_percentages(c: VotingContract, i: int)
    requires
        c.wf(),
        0 <= i < c.polls@.len(),
        ledger_size(c.ledgers@[i]) == 0,
    ensures
        forall|j: int|
            0 <= j < c.polls@[i].options@.len() ==> percentage(
                (#[trigger] c.polls@[i].options@[j]).vote_count as nat,
                sum_counts(c.polls@[i].options@),
            ) == 0,
{
    lemma_tally_matches_ledger(c, i);
}

} // verus!
