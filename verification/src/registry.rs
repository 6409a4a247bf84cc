//! The poll registry: owns the poll table, the monotonic id counter and the
//! per-poll ledgers, and orchestrates create / modify / close / cast-vote by
//! composing the phase computation, the whitelist guard and the ledger.
//!
//! The hosting environment authenticates the caller and supplies the current
//! time; both enter every call as plain arguments. Every validation runs
//! before any write, so a refused call leaves the registry exactly as it was.

use vstd::prelude::*;

use crate::ledger::VoteLedger;
use crate::ledger::count_for;
use crate::ledger::find_entry;
use crate::ledger::ledger_has;
use crate::ledger::ledger_len;
use crate::ledger::ledger_size;
use crate::ledger::ledger_vote_of;
use crate::ledger::lemma_count_for_excludes;
use crate::ledger::lemma_count_for_le;
use crate::ledger::lemma_count_for_pos;
use crate::ledger::lemma_count_for_push;
use crate::ledger::lemma_count_for_update;
use crate::ledger::lemma_counts_sum_to_len;
use crate::ledger::lemma_map_key_at;
use crate::ledger::lemma_map_push_entry;
use crate::ledger::lemma_map_update_entry;
use crate::ledger::lemma_unique_within_len;
use crate::ledger::unique_keys;
use crate::ledger::entry_keys;
use crate::poll::Address;
use crate::poll::Poll;
use crate::poll::PollError;
use crate::poll::PollOption;
use crate::poll::PollStatus;
use crate::poll::closed_of;
use crate::poll::contains_address;
use crate::poll::eligible;
use crate::poll::is_eligible;
use crate::poll::lemma_sum_counts_bound;
use crate::poll::lemma_sum_counts_take_le;
use crate::poll::lemma_sum_counts_take_step;
use crate::poll::lemma_sum_counts_update;
use crate::poll::lemma_sum_counts_zero;
use crate::poll::options_eq;
use crate::poll::phase;
use crate::poll::poll_eq;
use crate::poll::poll_status;
use crate::poll::poll_wf;
use crate::poll::sum_counts;
use crate::poll::whitelist_view;

verus! {

/// The registry: an append-only poll table indexed by id, the counter that
/// assigns the next id, and one ledger per poll, in step with the table.
pub struct VotingContract {
    pub last_poll_id: u64,
    pub polls: Vec<Poll>,
    pub ledgers: Vec<VoteLedger>,
}

/// The ledger fits its poll: the strategy follows `can_change_vote`, every
/// recorded voter is eligible, and the tallies agree with the ledger — for a
/// one-shot ledger the counts sum to the number of voters, for a
/// change-allowed ledger each option's count is exactly the number of entries
/// selecting it.
pub open spec fn ledger_matches(p: Poll, l: VoteLedger) -> bool {
    match l {
        VoteLedger::Immutable { voters } => {
            &&& !p.can_change_vote
            &&& voters@.no_duplicates()
            &&& forall|i: int| 0 <= i < voters@.len() ==> eligible(p, #[trigger] voters@[i])
            &&& sum_counts(p.options@) == voters@.len()
        },
        VoteLedger::Mutable { votes } => {
            &&& p.can_change_vote
            &&& unique_keys(votes@)
            &&& forall|k: int|
                0 <= k < votes@.len() ==> ((#[trigger] votes@[k]).1 as int) < p.options@.len()
            &&& forall|k: int| 0 <= k < votes@.len() ==> eligible(p, (#[trigger] votes@[k]).0)
            &&& forall|j: int|
                0 <= j < p.options@.len() ==> (#[trigger] p.options@[j]).vote_count == count_for(
                    votes@,
                    j,
                )
        },
    }
}

/// The tallies of a well-matched poll sum to its ledger size.
pub proof fn lemma_tally_total(p: Poll, l: VoteLedger)
    requires
        ledger_matches(p, l),
    ensures
        sum_counts(p.options@) == ledger_size(l),
{
    match l {
        VoteLedger::Immutable { voters: _ } => {},
        VoteLedger::Mutable { votes } => {
            lemma_counts_sum_to_len(p.options@, votes@);
        },
    }
}

/// No more identities hold a ledger entry than the whitelist admits.
pub proof fn lemma_participants_bounded(p: Poll, l: VoteLedger)
    requires
        ledger_matches(p, l),
    ensures
        match whitelist_view(p.whitelisted_addresses) {
            Option::Some(wl) => ledger_size(l) <= wl.len(),
            Option::None => true,
        },
{
    match whitelist_view(p.whitelisted_addresses) {
        Option::Some(wl) => {
            match l {
                VoteLedger::Immutable { voters } => {
                    lemma_unique_within_len(voters@, wl);
                },
                VoteLedger::Mutable { votes } => {
                    let keys = entry_keys(votes@);
                    assert(keys.no_duplicates());
                    assert(forall|i: int| 0 <= i < keys.len() ==> wl.contains(#[trigger] keys[i]));
                    lemma_unique_within_len(keys, wl);
                },
            }
        },
        Option::None => {},
    }
}

/// Option lists with the given names and all counts zero.
pub open spec fn fresh_options(opts: Seq<PollOption>, names: Seq<String>) -> bool {
    &&& opts.len() == names.len()
    &&& forall|j: int|
        0 <= j < opts.len() ==> (#[trigger] opts[j]).name@ == names[j]@ && opts[j].vote_count == 0
}

/// What `create_poll` accepts: at least two options, a forward window whose
/// end lies in the future, and, when a whitelist is supplied, a non-empty one.
pub open spec fn create_valid(
    n_options: int,
    start_time: u64,
    end_time: u64,
    whitelist: Option<Seq<Address>>,
    now: u64,
) -> bool {
    &&& n_options >= 2
    &&& end_time > start_time
    &&& end_time > now
    &&& match whitelist {
        Option::Some(wl) => wl.len() > 0,
        Option::None => true,
    }
}

/// The poll as `create_poll` builds it.
pub open spec fn created_poll(
    p: Poll,
    id: u64,
    question: String,
    names: Seq<String>,
    start_time: u64,
    end_time: u64,
    can_change_vote: bool,
    whitelist: Option<Seq<Address>>,
    creator: Address,
) -> bool {
    &&& p.id == id
    &&& p.question@ == question@
    &&& fresh_options(p.options@, names)
    &&& p.start_time == start_time
    &&& p.end_time == end_time
    &&& p.creator == creator
    &&& !p.is_closed
    &&& p.can_change_vote == can_change_vote
    &&& whitelist_view(p.whitelisted_addresses) == whitelist
}

/// Everything but the option counts agrees between the two polls.
pub open spec fn poll_frame(a: Poll, b: Poll) -> bool {
    &&& b.id == a.id
    &&& b.question@ == a.question@
    &&& b.options@.len() == a.options@.len()
    &&& forall|j: int|
        0 <= j < a.options@.len() ==> (#[trigger] b.options@[j]).name@ == a.options@[j].name@
    &&& b.start_time == a.start_time
    &&& b.end_time == a.end_time
    &&& b.creator == a.creator
    &&& b.is_closed == a.is_closed
    &&& b.can_change_vote == a.can_change_vote
    &&& whitelist_view(b.whitelisted_addresses) == whitelist_view(a.whitelisted_addresses)
}

/// During the ongoing phase a modification moves the end time and nothing
/// else.
pub open spec fn extended_poll(p_old: Poll, p_new: Poll, new_end_time: u64) -> bool {
    &&& p_new.id == p_old.id
    &&& p_new.question@ == p_old.question@
    &&& options_eq(p_new.options@, p_old.options@)
    &&& p_new.start_time == p_old.start_time
    &&& p_new.end_time == new_end_time
    &&& p_new.creator == p_old.creator
    &&& p_new.is_closed == p_old.is_closed
    &&& p_new.can_change_vote == p_old.can_change_vote
    &&& whitelist_view(p_new.whitelisted_addresses) == whitelist_view(p_old.whitelisted_addresses)
}

/// Before the start a modification redefines question, options and window,
/// resets every count, and keeps identity, creator, strategy and whitelist.
pub open spec fn redefined_poll(
    p_old: Poll,
    p_new: Poll,
    question: String,
    names: Seq<String>,
    new_start_time: u64,
    new_end_time: u64,
) -> bool {
    &&& p_new.id == p_old.id
    &&& p_new.question@ == question@
    &&& fresh_options(p_new.options@, names)
    &&& p_new.start_time == new_start_time
    &&& p_new.end_time == new_end_time
    &&& p_new.creator == p_old.creator
    &&& p_new.is_closed == p_old.is_closed
    &&& p_new.can_change_vote == p_old.can_change_vote
    &&& whitelist_view(p_new.whitelisted_addresses) == whitelist_view(p_old.whitelisted_addresses)
}

/// Both registries agree everywhere except possibly at poll `i`.
pub open spec fn others_unchanged(a: VotingContract, b: VotingContract, i: int) -> bool {
    &&& a.last_poll_id == b.last_poll_id
    &&& a.polls@.len() == b.polls@.len()
    &&& a.ledgers@.len() == b.ledgers@.len()
    &&& forall|j: int| 0 <= j < a.polls@.len() && j != i ==> a.polls@[j] == #[trigger] b.polls@[j]
    &&& forall|j: int|
        0 <= j < a.ledgers@.len() && j != i ==> a.ledgers@[j] == #[trigger] b.ledgers@[j]
}

/// The first check `modify_poll` fails, or `None` when the call goes through.
pub open spec fn modify_poll_error(
    c: VotingContract,
    poll_id: u64,
    n_options: int,
    new_start_time: u64,
    new_end_time: u64,
    caller: Address,
    now: u64,
) -> Option<PollError> {
    if poll_id as int >= c.polls@.len() {
        Option::Some(PollError::NotFoundError)
    } else {
        let p = c.polls@[poll_id as int];
        if p.creator != caller {
            Option::Some(PollError::AuthorizationError)
        } else if p.is_closed {
            Option::Some(PollError::StateError)
        } else if now >= p.start_time {
            if now > p.end_time {
                Option::Some(PollError::StateError)
            } else if new_end_time <= now {
                Option::Some(PollError::ValidationError)
            } else {
                Option::None
            }
        } else {
            if n_options <= 1 || new_end_time <= new_start_time || new_end_time <= now {
                Option::Some(PollError::ValidationError)
            } else {
                Option::None
            }
        }
    }
}

/// The first check `cast_vote` fails, or `None` when the vote is recorded.
pub open spec fn cast_vote_error(
    c: VotingContract,
    poll_id: u64,
    option_index: usize,
    caller: Address,
    now: u64,
) -> Option<PollError> {
    if poll_id as int >= c.polls@.len() {
        Option::Some(PollError::NotFoundError)
    } else {
        let p = c.polls@[poll_id as int];
        if p.is_closed {
            Option::Some(PollError::StateError)
        } else if phase(now, p.start_time, p.end_time) != PollStatus::Ongoing {
            Option::Some(PollError::StateError)
        } else if option_index as int >= p.options@.len() {
            Option::Some(PollError::IndexError)
        } else if !eligible(p, caller) {
            Option::Some(PollError::EligibilityError)
        } else if !p.can_change_vote && ledger_has(c.ledgers@[poll_id as int], caller) {
            Option::Some(PollError::StateError)
        } else {
            Option::None
        }
    }
}

/// Whether a poll passes the optional status and creator filters at `now`.
pub open spec fn matches_filters(
    p: Poll,
    status_filter: Option<PollStatus>,
    creator_filter: Option<Address>,
    now: u64,
) -> bool {
    &&& match status_filter {
        Option::Some(s) => phase(now, p.start_time, p.end_time) == s,
        Option::None => true,
    }
    &&& match creator_filter {
        Option::Some(c) => p.creator == c,
        Option::None => true,
    }
}

/// The subsequence of polls passing both filters, in registry order.
pub open spec fn filtered_polls(
    polls: Seq<Poll>,
    status_filter: Option<PollStatus>,
    creator_filter: Option<Address>,
    now: u64,
) -> Seq<Poll>
    decreases polls.len(),
{
    if polls.len() == 0 {
        Seq::empty()
    } else {
        let rest = filtered_polls(polls.drop_last(), status_filter, creator_filter, now);
        if matches_filters(polls.last(), status_filter, creator_filter, now) {
            rest.push(polls.last())
        } else {
            rest
        }
    }
}

/// The share of `count` in `total`, as a floored percentage; zero when no
/// vote has been cast.
pub open spec fn percentage(count: nat, total: nat) -> nat {
    if total == 0 {
        0
    } else {
        count * 100 / total
    }
}

/// Whether the identity is recorded in a one-shot ledger.
pub open spec fn one_shot_voted(l: VoteLedger, a: Address) -> bool {
    match l {
        VoteLedger::Immutable { voters } => voters@.contains(a),
        VoteLedger::Mutable { votes: _ } => false,
    }
}

/// Builds the executable option list with the given names and zero counts.
fn build_options(names: &Vec<String>) -> (r: Vec<PollOption>)
    ensures
        fresh_options(r@, names@),
{
    let mut r: Vec<PollOption> = Vec::new();
    let mut i: usize = 0;
    while i < names.len()
        invariant
            0 <= i <= names@.len(),
            r@.len() == i,
            forall|j: int|
                0 <= j < i ==> (#[trigger] r@[j]).name@ == names@[j]@ && r@[j].vote_count == 0,
        decreases names@.len() - i,
    {
        r.push(PollOption { name: names[i].clone(), vote_count: 0 });
        i = i + 1;
    }
    r
}

impl VotingContract {
    /// One poll's slot is internally consistent: the poll sits under its own
    /// id, is well-formed, and its ledger fits it.
    pub open spec fn poll_ok(self, i: int) -> bool {
        &&& self.polls@[i].id as int == i
        &&& poll_wf(self.polls@[i])
        &&& ledger_matches(self.polls@[i], self.ledgers@[i])
    }

    /// The registry invariant: one ledger per poll, the counter equal to the
    /// number of polls ever created, and every slot consistent.
    pub open spec fn wf(self) -> bool {
        &&& self.polls@.len() == self.ledgers@.len()
        &&& self.last_poll_id as int == self.polls@.len()
        &&& forall|i: int| 0 <= i < self.polls@.len() ==> #[trigger] self.poll_ok(i)
    }

    /// A fresh registry with no polls and the counter at zero.
    pub fn init() -> (c: VotingContract)
        ensures
            c.wf(),
            c.polls@.len() == 0,
            c.last_poll_id == 0,
    {
        VotingContract { last_poll_id: 0, polls: Vec::new(), ledgers: Vec::new() }
    }

    /// An upgrade keeps every poll, ledger and the counter as they are.
    pub fn upgrade(&mut self)
        ensures
            *final(self) == *old(self),
    {
    }

    /// Creates a poll: validates the option count, the window ordering, that
    /// the end lies in the future, and that a supplied whitelist is not
    /// empty; then stores the poll under the next id with zeroed counts and
    /// an empty ledger of the selected strategy, and returns the new id.
    pub fn create_poll(
        &mut self,
        question: String,
        options: Vec<String>,
        start_time: u64,
        end_time: u64,
        can_change_vote: bool,
        voter_whitelist: Option<Vec<Address>>,
        caller: Address,
        now: u64,
    ) -> (r: Result<u64, PollError>)
        requires
            old(self).wf(),
        ensures
            final(self).wf(),
            !create_valid(
                options@.len() as int,
                start_time,
                end_time,
                whitelist_view(voter_whitelist),
                now,
            ) ==> r == Err::<u64, PollError>(PollError::ValidationError) && *final(self) == *old(
                self,
            ),
            create_valid(
                options@.len() as int,
                start_time,
                end_time,
                whitelist_view(voter_whitelist),
                now,
            ) ==> {
                &&& r == Ok::<u64, PollError>(old(self).last_poll_id)
                &&& final(self).last_poll_id as int == old(self).last_poll_id as int + 1
                &&& final(self).polls@.len() == old(self).polls@.len() + 1
                &&& final(self).ledgers@.len() == old(self).ledgers@.len() + 1
                &&& forall|j: int|
                    0 <= j < old(self).polls@.len() ==> final(self).polls@[j] == #[trigger] old(
                        self,
                    ).polls@[j]
                &&& forall|j: int|
                    0 <= j < old(self).ledgers@.len() ==> final(self).ledgers@[j] == #[trigger] old(
                        self,
                    ).ledgers@[j]
                &&& created_poll(
                    final(self).polls@.last(),
                    old(self).last_poll_id,
                    question,
                    options@,
                    start_time,
                    end_time,
                    can_change_vote,
                    whitelist_view(voter_whitelist),
                    caller,
                )
                &&& ledger_size(final(self).ledgers@.last()) == 0
            },
    {
        if options.len() <= 1 {
            return Err(PollError::ValidationError);
        }
        if end_time <= start_time {
            return Err(PollError::ValidationError);
        }
        if end_time <= now {
            return Err(PollError::ValidationError);
        }
        match &voter_whitelist {
            Option::Some(wl) => {
                if wl.len() == 0 {
                    return Err(PollError::ValidationError);
                }
            },
            Option::None => {},
        }
        let poll_options = build_options(&options);
        let poll_id = self.last_poll_id;
        let poll = Poll {
            id: poll_id,
            question,
            options: poll_options,
            start_time,
            end_time,
            creator: caller,
            is_closed: false,
            can_change_vote,
            whitelisted_addresses: voter_whitelist,
        };
        let ledger = if can_change_vote {
            VoteLedger::Mutable { votes: Vec::new() }
        } else {
            VoteLedger::Immutable { voters: Vec::new() }
        };
        self.polls.push(poll);
        self.ledgers.push(ledger);
        let stored: usize = self.polls.len();
        proof {
            assert(usize::MAX <= u64::MAX);
            assert(poll_id as int + 1 == stored as int);
            lemma_sum_counts_zero(self.polls@.last().options@);
        }
        self.last_poll_id = poll_id + 1;
        proof {
            assert forall|i: int| 0 <= i < self.polls@.len() implies #[trigger] self.poll_ok(
                i,
            ) by {
                if i < old(self).polls@.len() {
                    assert(old(self).poll_ok(i));
                    assert(self.polls@[i] == old(self).polls@[i]);
                    assert(self.ledgers@[i] == old(self).ledgers@[i]);
                }
            }
        }
        Ok(poll_id)
    }

    /// Looks a poll up by id.
    pub fn get_poll(&self, poll_id: u64) -> (r: Result<Poll, PollError>)
        requires
            self.wf(),
        ensures
            match r {
                Result::Ok(p) => (poll_id as int) < self.polls@.len() && poll_eq(
                    p,
                    self.polls@[poll_id as int],
                ),
                Result::Err(e) => poll_id as int >= self.polls@.len() && e
                    == PollError::NotFoundError,
            },
    {
        if poll_id < self.polls.len() as u64 {
            let k = poll_id as usize;
            Ok(self.polls[k].duplicate())
        } else {
            Err(PollError::NotFoundError)
        }
    }

    /// Lists the polls passing the optional status and creator filters, in
    /// registry insertion order.
    pub fn get_polls(
        &self,
        status_filter: Option<PollStatus>,
        creator_filter: Option<Address>,
        now: u64,
    ) -> (r: Vec<Poll>)
        requires
            self.wf(),
        ensures
            ({
                let f = filtered_polls(self.polls@, status_filter, creator_filter, now);
                &&& r@.len() == f.len()
                &&& forall|i: int| 0 <= i < r@.len() ==> poll_eq(#[trigger] r@[i], f[i])
            }),
    {
        let mut r: Vec<Poll> = Vec::new();
        let mut i: usize = 0;
        while i < self.polls.len()
            invariant
                0 <= i <= self.polls@.len(),
                ({
                    let f = filtered_polls(
                        self.polls@.take(i as int),
                        status_filter,
                        creator_filter,
                        now,
                    );
                    &&& r@.len() == f.len()
                    &&& forall|j: int| 0 <= j < r@.len() ==> poll_eq(#[trigger] r@[j], f[j])
                }),
            decreases self.polls@.len() - i,
        {
            let p = &self.polls[i];
            let mut keep = true;
            match &status_filter {
                Option::Some(s) => {
                    let st = poll_status(now, p.start_time, p.end_time);
                    if st != *s {
                        keep = false;
                    }
                },
                Option::None => {},
            }
            match &creator_filter {
                Option::Some(c) => {
                    if p.creator != *c {
                        keep = false;
                    }
                },
                Option::None => {},
            }
            proof {
                assert(self.polls@.take(i + 1 as int).drop_last() =~= self.polls@.take(i as int));
                assert(self.polls@.take(i + 1 as int).last() == self.polls@[i as int]);
            }
            if keep {
                r.push(p.duplicate());
            }
            i = i + 1;
        }
        proof {
            assert(self.polls@.take(self.polls@.len() as int) =~= self.polls@);
        }
        r
    }

    /// Modifies a poll. Only the creator may modify, and never a closed
    /// poll. Before the start the whole poll is redefined (validated as at
    /// creation, counts reset, ledger emptied); while ongoing only the end
    /// time moves, and only to a point strictly after `now`; after the end
    /// the call is refused.
    pub fn modify_poll(
        &mut self,
        poll_id: u64,
        new_question: String,
        new_options: Vec<String>,
        new_start_time: u64,
        new_end_time: u64,
        caller: Address,
        now: u64,
    ) -> (r: Result<(), PollError>)
        requires
            old(self).wf(),
        ensures
            final(self).wf(),
            ({
                let err = modify_poll_error(
                    *old(self),
                    poll_id,
                    new_options@.len() as int,
                    new_start_time,
                    new_end_time,
                    caller,
                    now,
                );
                match err {
                    Option::Some(e) => r == Err::<(), PollError>(e) && *final(self) == *old(self),
                    Option::None => {
                        let i = poll_id as int;
                        let p_old = old(self).polls@[i];
                        let p_new = final(self).polls@[i];
                        &&& r == Ok::<(), PollError>(())
                        &&& others_unchanged(*old(self), *final(self), i)
                        &&& (now >= p_old.start_time ==> extended_poll(p_old, p_new, new_end_time)
                            && final(self).ledgers@[i] == old(self).ledgers@[i])
                        &&& (now < p_old.start_time ==> redefined_poll(
                            p_old,
                            p_new,
                            new_question,
                            new_options@,
                            new_start_time,
                            new_end_time,
                        ) && ledger_size(final(self).ledgers@[i]) == 0)
                    },
                }
            }),
    {
        let n = self.polls.len();
        if poll_id >= n as u64 {
            return Err(PollError::NotFoundError);
        }
        let k = poll_id as usize;
        proof {
            assert(old(self).poll_ok(k as int));
        }
        if self.polls[k].creator != caller {
            return Err(PollError::AuthorizationError);
        }
        if self.polls[k].is_closed {
            return Err(PollError::StateError);
        }
        if now >= self.polls[k].start_time {
            if now > self.polls[k].end_time {
                return Err(PollError::StateError);
            }
            if new_end_time <= now {
                return Err(PollError::ValidationError);
            }
            let mut p = self.polls.remove(k);
            p.end_time = new_end_time;
            self.polls.insert(k, p);
            proof {
                assert(self.polls@ =~= old(self).polls@.update(
                    k as int,
                    self.polls@[k as int],
                ));
                assert forall|i: int| 0 <= i < self.polls@.len() implies #[trigger] self.poll_ok(
                    i,
                ) by {
                    assert(old(self).poll_ok(i));
                }
            }
            Ok(())
        } else {
            if new_options.len() <= 1 {
                return Err(PollError::ValidationError);
            }
            if new_end_time <= new_start_time {
                return Err(PollError::ValidationError);
            }
            if new_end_time <= now {
                return Err(PollError::ValidationError);
            }
            let fresh = build_options(&new_options);
            let mut p = self.polls.remove(k);
            let change = p.can_change_vote;
            p.question = new_question;
            p.options = fresh;
            p.start_time = new_start_time;
            p.end_time = new_end_time;
            self.polls.insert(k, p);
            let empty_ledger = if change {
                VoteLedger::Mutable { votes: Vec::new() }
            } else {
                VoteLedger::Immutable { voters: Vec::new() }
            };
            self.ledgers.set(k, empty_ledger);
            proof {
                assert(self.polls@ =~= old(self).polls@.update(
                    k as int,
                    self.polls@[k as int],
                ));
                lemma_sum_counts_zero(self.polls@[k as int].options@);
                assert forall|i: int| 0 <= i < self.polls@.len() implies #[trigger] self.poll_ok(
                    i,
                ) by {
                    assert(old(self).poll_ok(i));
                }
            }
            Ok(())
        }
    }

    /// Closes a poll. Only the creator may close; closing is unconditional
    /// and idempotent — a closed poll stays closed and nothing else changes.
    pub fn close_poll(&mut self, poll_id: u64, caller: Address) -> (r: Result<(), PollError>)
        requires
            old(self).wf(),
        ensures
            final(self).wf(),
            poll_id as int >= old(self).polls@.len() ==> r == Err::<(), PollError>(
                PollError::NotFoundError,
            ) && *final(self) == *old(self),
            (poll_id as int) < old(self).polls@.len() && old(self).polls@[poll_id as int].creator
                != caller ==> r == Err::<(), PollError>(PollError::AuthorizationError)
                && *final(self) == *old(self),
            (poll_id as int) < old(self).polls@.len() && old(self).polls@[poll_id as int].creator
                == caller ==> {
                &&& r == Ok::<(), PollError>(())
                &&& final(self).polls@ == old(self).polls@.update(
                    poll_id as int,
                    closed_of(old(self).polls@[poll_id as int]),
                )
                &&& final(self).ledgers == old(self).ledgers
                &&& final(self).last_poll_id == old(self).last_poll_id
            },
    {
        let n = self.polls.len();
        if poll_id >= n as u64 {
            return Err(PollError::NotFoundError);
        }
        let k = poll_id as usize;
        if self.polls[k].creator != caller {
            return Err(PollError::AuthorizationError);
        }
        let mut p = self.polls.remove(k);
        p.is_closed = true;
        self.polls.insert(k, p);
        proof {
            assert(self.polls@ =~= old(self).polls@.update(
                k as int,
                closed_of(old(self).polls@[k as int]),
            ));
            assert forall|i: int| 0 <= i < self.polls@.len() implies #[trigger] self.poll_ok(
                i,
            ) by {
                assert(old(self).poll_ok(i));
            }
        }
        Ok(())
    }

    /// Adds one vote to the option at `option_index`, leaving every other
    /// field and option untouched.
    pub fn add_vote(poll: &mut Poll, option_index: usize)
        requires
            option_index < old(poll).options@.len(),
            old(poll).options@[option_index as int].vote_count < u64::MAX,
        ensures
            final(poll).options@ == old(poll).options@.update(
                option_index as int,
                (PollOption {
                    name: old(poll).options@[option_index as int].name,
                    vote_count: (old(poll).options@[option_index as int].vote_count + 1) as u64,
                }),
            ),
            final(poll).id == old(poll).id,
            final(poll).question == old(poll).question,
            final(poll).start_time == old(poll).start_time,
            final(poll).end_time == old(poll).end_time,
            final(poll).creator == old(poll).creator,
            final(poll).is_closed == old(poll).is_closed,
            final(poll).can_change_vote == old(poll).can_change_vote,
            final(poll).whitelisted_addresses == old(poll).whitelisted_addresses,
    {
        let name = poll.options[option_index].name.clone();
        let vote_count = poll.options[option_index].vote_count;
        poll.options.set(option_index, PollOption { name, vote_count: vote_count + 1 });
    }

    /// Takes one vote away from the option at `option_index`; the count must
    /// be positive, which the registry invariant guarantees whenever a
    /// previously recorded vote is withdrawn.
    pub fn remove_vote(poll: &mut Poll, option_index: usize)
        requires
            option_index < old(poll).options@.len(),
            old(poll).options@[option_index as int].vote_count > 0,
        ensures
            final(poll).options@ == old(poll).options@.update(
                option_index as int,
                (PollOption {
                    name: old(poll).options@[option_index as int].name,
                    vote_count: (old(poll).options@[option_index as int].vote_count - 1) as u64,
                }),
            ),
            final(poll).id == old(poll).id,
            final(poll).question == old(poll).question,
            final(poll).start_time == old(poll).start_time,
            final(poll).end_time == old(poll).end_time,
            final(poll).creator == old(poll).creator,
            final(poll).is_closed == old(poll).is_closed,
            final(poll).can_change_vote == old(poll).can_change_vote,
            final(poll).whitelisted_addresses == old(poll).whitelisted_addresses,
    {
        let name = poll.options[option_index].name.clone();
        let vote_count = poll.options[option_index].vote_count;
        poll.options.set(option_index, PollOption { name, vote_count: vote_count - 1 });
    }

    /// Casts the caller's vote. Validates existence, openness, the phase,
    /// the option index and eligibility, in that order, before touching
    /// anything; then either records a first vote (one-shot ledger, where a
    /// second vote is refused) or moves the caller's vote (change-allowed
    /// ledger, withdrawing the previous choice first). Tallies and ledger
    /// move together, as one atomic step.
    #[verifier::rlimit(50)]
    pub fn cast_vote(
        &mut self,
        poll_id: u64,
        option_index: usize,
        caller: Address,
        now: u64,
    ) -> (r: Result<(), PollError>)
        requires
            old(self).wf(),
        ensures
            final(self).wf(),
            ({
                let err = cast_vote_error(*old(self), poll_id, option_index, caller, now);
                match err {
                    Option::Some(e) => r == Err::<(), PollError>(e) && *final(self) == *old(self),
                    Option::None => {
                        let i = poll_id as int;
                        let p_old = old(self).polls@[i];
                        let p_new = final(self).polls@[i];
                        let l_old = old(self).ledgers@[i];
                        let l_new = final(self).ledgers@[i];
                        let had = ledger_has(l_old, caller);
                        let prev = ledger_vote_of(l_old, caller) as int;
                        &&& r == Ok::<(), PollError>(())
                        &&& others_unchanged(*old(self), *final(self), i)
                        &&& poll_frame(p_old, p_new)
                        &&& forall|j: int|
                            0 <= j < p_old.options@.len() ==> (#[trigger] p_new.options@[j]).vote_count
                                as int == p_old.options@[j].vote_count as int + (if j
                                == option_index as int {
                                1int
                            } else {
                                0int
                            }) - (if had && j == prev {
                                1int
                            } else {
                                0int
                            })
                        &&& ledger_has(l_new, caller)
                        &&& (p_old.can_change_vote ==> ledger_vote_of(l_new, caller)
                            == option_index)
                        &&& forall|b: Address|
                            b != caller ==> ledger_has(l_new, b) == ledger_has(l_old, b)
                        &&& (p_old.can_change_vote ==> forall|b: Address|
                            b != caller && ledger_has(l_old, b) ==> ledger_vote_of(l_new, b)
                                == ledger_vote_of(l_old, b))
                        &&& ledger_size(l_new) as int == ledger_size(l_old) as int + (if had {
                            0int
                        } else {
                            1int
                        })
                    },
                }
            }),
    {
        let n = self.polls.len();
        if poll_id >= n as u64 {
            return Err(PollError::NotFoundError);
        }
        let k = poll_id as usize;
        proof {
            assert(old(self).poll_ok(k as int));
        }
        if self.polls[k].is_closed {
            return Err(PollError::StateError);
        }
        let st = poll_status(now, self.polls[k].start_time, self.polls[k].end_time);
        match st {
            PollStatus::Ongoing => {},
            _ => {
                return Err(PollError::StateError);
            },
        }
        if option_index >= self.polls[k].options.len() {
            return Err(PollError::IndexError);
        }
        if !is_eligible(&self.polls[k], caller) {
            return Err(PollError::EligibilityError);
        }
        let change = self.polls[k].can_change_vote;
        if !change {
            let already = match &self.ledgers[k] {
                VoteLedger::Immutable { voters } => contains_address(voters, caller),
                VoteLedger::Mutable { votes: _ } => false,
            };
            if already {
                return Err(PollError::StateError);
            }
        }
        let ghost p0 = old(self).polls@[k as int];
        let ghost l0 = old(self).ledgers@[k as int];
        let mut poll = self.polls.remove(k);
        let led = self.ledgers.remove(k);
        let new_ledger: VoteLedger = match led {
            VoteLedger::Immutable { mut voters } => {
                let ghost voters0 = voters@;
                proof {
                    assert(ledger_matches(p0, l0));
                    assert(sum_counts(p0.options@) == voters0.len());
                }
                voters.push(caller);
                let grown: usize = voters.len();
                proof {
                    assert(usize::MAX <= u64::MAX);
                    assert(grown as int == voters0.len() + 1);
                    lemma_sum_counts_bound(poll.options@, option_index as int);
                }
                Self::add_vote(&mut poll, option_index);
                proof {
                    lemma_sum_counts_update(
                        p0.options@,
                        option_index as int,
                        poll.options@[option_index as int],
                    );
                    assert(voters@ == voters0.push(caller));
                    assert(forall|i: int| 0 <= i < voters0.len() ==> voters@[i] == voters0[i]);
                    assert(voters@[voters0.len() as int] == caller);
                    assert(!voters0.contains(caller));
                    assert(voters@.no_duplicates());
                    assert forall|b: Address| b != caller implies voters@.contains(b)
                        == voters0.contains(b) by {
                        if voters0.contains(b) {
                            let i = choose|i: int| 0 <= i < voters0.len() && voters0[i] == b;
                            assert(voters@[i] == b);
                        }
                        if voters@.contains(b) {
                            let i = choose|i: int| 0 <= i < voters@.len() && voters@[i] == b;
                            assert(i < voters0.len());
                        }
                    }
                    assert(voters@.contains(caller));
                    assert forall|i: int| 0 <= i < voters@.len() implies eligible(
                        poll,
                        #[trigger] voters@[i],
                    ) by {
                        if i < voters0.len() {
                            assert(eligible(p0, voters0[i]));
                        }
                        assert(poll.whitelisted_addresses == p0.whitelisted_addresses);
                    }
                    assert(sum_counts(poll.options@) == voters@.len());
                    assert(poll_wf(poll));
                    assert(ledger_matches(poll, VoteLedger::Immutable { voters }));
                }
                VoteLedger::Immutable { voters }
            },
            VoteLedger::Mutable { mut votes } => {
                let ghost votes0 = votes@;
                proof {
                    assert(ledger_matches(p0, l0));
                    assert(unique_keys(votes0));
                    assert(forall|j: int|
                        0 <= j < p0.options@.len() ==> (#[trigger] p0.options@[j]).vote_count
                            == count_for(votes0, j));
                }
                let entry = find_entry(&votes, caller);
                match entry {
                    Option::Some(pos) => {
                        let prev = votes[pos].1;
                        proof {
                            lemma_map_key_at(votes0, pos as int);
                            lemma_count_for_pos(votes0, pos as int, prev as int);
                            assert((prev as int) < p0.options@.len());
                            assert(poll.options@[prev as int].vote_count > 0);
                        }
                        Self::remove_vote(&mut poll, prev);
                        let shrunk: usize = votes.len();
                        proof {
                            assert(usize::MAX <= u64::MAX);
                            assert(shrunk as int == votes0.len());
                            if option_index != prev {
                                lemma_count_for_excludes(votes0, pos as int, option_index as int);
                            } else {
                                lemma_count_for_le(votes0, option_index as int);
                            }
                            assert(poll.options@[option_index as int].vote_count < u64::MAX);
                        }
                        Self::add_vote(&mut poll, option_index);
                        votes.set(pos, (caller, option_index));
                        proof {
                            lemma_map_update_entry(votes0, pos as int, option_index);
                            assert forall|j: int| 0 <= j < poll.options@.len() implies count_for(
                                votes@,
                                j,
                            ) as int == count_for(votes0, j) as int - (if prev as int == j {
                                1int
                            } else {
                                0int
                            }) + (if option_index as int == j {
                                1int
                            } else {
                                0int
                            }) by {
                                lemma_count_for_update(
                                    votes0,
                                    pos as int,
                                    (caller, option_index),
                                    j,
                                );
                            }
                            assert forall|m: int| 0 <= m < votes@.len() implies ((
                            #[trigger] votes@[m]).1 as int) < poll.options@.len() && eligible(
                                poll,
                                votes@[m].0,
                            ) by {
                                if m != pos as int {
                                    assert(votes@[m] == votes0[m]);
                                    assert(eligible(p0, votes0[m].0));
                                }
                                assert(poll.whitelisted_addresses == p0.whitelisted_addresses);
                            }
                            assert(poll_wf(poll));
                            assert(ledger_matches(poll, VoteLedger::Mutable { votes }));
                        }
                        VoteLedger::Mutable { votes }
                    },
                    Option::None => {
                        votes.push((caller, option_index));
                        let grown: usize = votes.len();
                        proof {
                            assert(usize::MAX <= u64::MAX);
                            assert(grown as int == votes0.len() + 1);
                            lemma_count_for_le(votes0, option_index as int);
                            assert(poll.options@[option_index as int].vote_count < u64::MAX);
                        }
                        Self::add_vote(&mut poll, option_index);
                        proof {
                            lemma_map_push_entry(votes0, caller, option_index);
                            assert forall|j: int| 0 <= j < poll.options@.len() implies count_for(
                                votes@,
                                j,
                            ) as int == count_for(votes0, j) as int + (if option_index as int == j {
                                1int
                            } else {
                                0int
                            }) by {
                                lemma_count_for_push(votes0, (caller, option_index), j);
                            }
                            assert forall|m: int| 0 <= m < votes@.len() implies ((
                            #[trigger] votes@[m]).1 as int) < poll.options@.len() && eligible(
                                poll,
                                votes@[m].0,
                            ) by {
                                if m < votes0.len() {
                                    assert(votes@[m] == votes0[m]);
                                    assert(eligible(p0, votes0[m].0));
                                }
                                assert(poll.whitelisted_addresses == p0.whitelisted_addresses);
                            }
                            assert(poll_wf(poll));
                            assert(ledger_matches(poll, VoteLedger::Mutable { votes }));
                        }
                        VoteLedger::Mutable { votes }
                    },
                }
            },
        };
        let ghost new_poll = poll;
        let ghost new_led = new_ledger;
        self.polls.insert(k, poll);
        self.ledgers.insert(k, new_ledger);
        proof {
            assert(self.polls@ =~= old(self).polls@.update(k as int, new_poll));
            assert(self.ledgers@ =~= old(self).ledgers@.update(k as int, new_led));
            assert(ledger_matches(new_poll, new_led));
            assert forall|i: int| 0 <= i < self.polls@.len() implies #[trigger] self.poll_ok(
                i,
            ) by {
                assert(old(self).poll_ok(i));
                if i == k as int {
                    assert(self.polls@[i] == new_poll);
                    assert(self.ledgers@[i] == new_led);
                } else {
                    assert(self.polls@[i] == old(self).polls@[i]);
                    assert(self.ledgers@[i] == old(self).ledgers@[i]);
                }
            }
        }
        Ok(())
    }

    /// The results, one `(name, vote count, percentage)` entry per option in
    /// original order; percentages are floored, and zero when the poll has
    /// no votes at all.
    pub fn get_poll_results(&self, poll_id: u64) -> (r: Result<Vec<(String, u64, u64)>, PollError>)
        requires
            self.wf(),
        ensures
            match r {
                Result::Err(e) => poll_id as int >= self.polls@.len() && e
                    == PollError::NotFoundError,
                Result::Ok(res) => {
                    let opts = self.polls@[poll_id as int].options@;
                    let total = sum_counts(opts);
                    &&& (poll_id as int) < self.polls@.len()
                    &&& res@.len() == opts.len()
                    &&& forall|j: int|
                        0 <= j < opts.len() ==> (#[trigger] res@[j]).0@ == opts[j].name@
                            && res@[j].1 == opts[j].vote_count && res@[j].2 as nat == percentage(
                            opts[j].vote_count as nat,
                            total,
                        )
                },
            },
    {
        if poll_id >= self.polls.len() as u64 {
            return Err(PollError::NotFoundError);
        }
        let k = poll_id as usize;
        proof {
            assert(self.poll_ok(k as int));
            lemma_tally_total(self.polls@[k as int], self.ledgers@[k as int]);
            assert(usize::MAX <= u64::MAX);
        }
        let ledger_entries: usize = ledger_len(&self.ledgers[k]);
        let opts_len = self.polls[k].options.len();
        let mut total: u64 = 0;
        let mut i: usize = 0;
        while i < opts_len
            invariant
                self.wf(),
                poll_id as int == k as int,
                k < self.polls@.len(),
                0 <= i <= opts_len,
                opts_len == self.polls@[k as int].options@.len(),
                total as nat == sum_counts(self.polls@[k as int].options@.take(i as int)),
                sum_counts(self.polls@[k as int].options@) <= u64::MAX,
            decreases opts_len - i,
        {
            proof {
                lemma_sum_counts_take_step(self.polls@[k as int].options@, i as int);
                lemma_sum_counts_take_le(self.polls@[k as int].options@, i + 1 as int);
            }
            total = total + self.polls[k].options[i].vote_count;
            i = i + 1;
        }
        proof {
            assert(self.polls@[k as int].options@.take(opts_len as int) =~= self.polls@[k as int].options@);
        }
        let mut res: Vec<(String, u64, u64)> = Vec::new();
        let mut j: usize = 0;
        while j < opts_len
            invariant
                self.wf(),
                k < self.polls@.len(),
                0 <= j <= opts_len,
                opts_len == self.polls@[k as int].options@.len(),
                total as nat == sum_counts(self.polls@[k as int].options@),
                res@.len() == j,
                forall|m: int|
                    0 <= m < j ==> (#[trigger] res@[m]).0@ == self.polls@[k as int].options@[m].name@
                        && res@[m].1 == self.polls@[k as int].options@[m].vote_count && res@[m].2
                        as nat == percentage(
                        self.polls@[k as int].options@[m].vote_count as nat,
                        sum_counts(self.polls@[k as int].options@),
                    ),
            decreases opts_len - j,
        {
            let name = self.polls[k].options[j].name.clone();
            let count = self.polls[k].options[j].vote_count;
            let pct: u64 = if total > 0 {
                proof {
                    lemma_sum_counts_bound(self.polls@[k as int].options@, j as int);
                    vstd::arithmetic::div_mod::lemma_div_is_ordered(
                        count as int * 100,
                        total as int * 100,
                        total as int,
                    );
                    vstd::arithmetic::div_mod::lemma_div_by_multiple(100, total as int);
                }
                (((count as u128) * 100) / (total as u128)) as u64
            } else {
                0
            };
            res.push((name, count, pct));
            j = j + 1;
        }
        Ok(res)
    }

    /// The number of identities that have voted and, when the poll has a
    /// whitelist, their floored share of it.
    pub fn get_poll_participation_stats(&self, poll_id: u64) -> (r: Result<
        (u64, Option<u64>),
        PollError,
    >)
        requires
            self.wf(),
        ensures
            match r {
                Result::Err(e) => poll_id as int >= self.polls@.len() && e
                    == PollError::NotFoundError,
                Result::Ok(stats) => {
                    let i = poll_id as int;
                    let count = ledger_size(self.ledgers@[i]);
                    &&& (poll_id as int) < self.polls@.len()
                    &&& stats.0 as nat == count
                    &&& match whitelist_view(self.polls@[i].whitelisted_addresses) {
                        Option::Some(wl) => stats.1 matches Option::Some(p) && p as nat == count
                            * 100 / wl.len(),
                        Option::None => stats.1 is None,
                    }
                },
            },
    {
        if poll_id >= self.polls.len() as u64 {
            return Err(PollError::NotFoundError);
        }
        let k = poll_id as usize;
        proof {
            assert(self.poll_ok(k as int));
            lemma_participants_bounded(self.polls@[k as int], self.ledgers@[k as int]);
            assert(usize::MAX <= u64::MAX);
        }
        let participant_count = ledger_len(&self.ledgers[k]);
        let participation_percentage: Option<u64> = match &self.polls[k].whitelisted_addresses {
            Option::Some(wl) => {
                let wlen = wl.len();
                proof {
                    vstd::arithmetic::div_mod::lemma_div_is_ordered(
                        participant_count as int * 100,
                        wlen as int * 100,
                        wlen as int,
                    );
                    vstd::arithmetic::div_mod::lemma_div_by_multiple(100, wlen as int);
                }
                Option::Some((((participant_count as u128) * 100) / (wlen as u128)) as u64)
            },
            Option::None => Option::None,
        };
        Ok((participant_count as u64, participation_percentage))
    }

    /// Whether the identity is recorded in the poll's one-shot ledger; false
    /// for change-allowed polls and unknown ids, which record nothing there.
    pub fn has_voted(&self, poll_id: u64, address: Address) -> (b: bool)
        requires
            self.wf(),
        ensures
            b == ((poll_id as int) < self.ledgers@.len() && one_shot_voted(
                self.ledgers@[poll_id as int],
                address,
            )),
    {
        if poll_id < self.ledgers.len() as u64 {
            let k = poll_id as usize;
            match &self.ledgers[k] {
                VoteLedger::Immutable { voters } => contains_address(voters, address),
                VoteLedger::Mutable { votes: _ } => false,
            }
        } else {
            false
        }
    }
}

} // verus!
