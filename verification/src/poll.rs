//! The poll data model: options, time window, creator, whitelist, and the
//! pure phase computation over the current time.

use vstd::prelude::*;

verus! {

/// Opaque identity of a caller, as the hosting environment supplies it.
/// Identities are only ever compared for equality and used as ledger keys.
#[derive(Clone, Copy, PartialEq, Eq, Structural, Debug)]
pub struct Address {
    pub value: u64,
}

/// The phase of a poll, derived purely from the current time and the poll's
/// voting window.
#[derive(Clone, Copy, PartialEq, Eq, Structural, Debug)]
pub enum PollStatus {
    NotStarted,
    Ongoing,
    Ended,
}

/// Why a call was refused. Every error is detected before any mutation.
#[derive(Clone, Copy, PartialEq, Eq, Structural, Debug)]
pub enum PollError {
    /// Bad option count, bad time ordering, end not in the future, or an
    /// empty whitelist supplied at creation.
    ValidationError,
    /// A caller other than the creator attempted to modify or close.
    AuthorizationError,
    /// The poll is closed, not in an active phase, or the caller already
    /// voted in a poll that does not allow changing the vote.
    StateError,
    /// No poll exists under the given id.
    NotFoundError,
    /// The chosen option index is out of range.
    IndexError,
    /// The caller is not on the poll's whitelist.
    EligibilityError,
}

/// One selectable answer and its running vote count.
pub struct PollOption {
    pub name: String,
    pub vote_count: u64,
}

/// A single question with at least two options, a voting time window, and an
/// owner. `can_change_vote` is fixed at creation and selects the ledger
/// strategy; the whitelist, when present, is fixed at creation and never
/// empty.
pub struct Poll {
    pub id: u64,
    pub question: String,
    pub options: Vec<PollOption>,
    pub start_time: u64,
    pub end_time: u64,
    pub creator: Address,
    pub is_closed: bool,
    pub can_change_vote: bool,
    pub whitelisted_addresses: Option<Vec<Address>>,
}

/// The phase of a window `[start_time, end_time]` at time `now`.
pub open spec fn phase(now: u64, start_time: u64, end_time: u64) -> PollStatus {
    if now < start_time {
        PollStatus::NotStarted
    } else if now <= end_time {
        PollStatus::Ongoing
    } else {
        PollStatus::Ended
    }
}

/// Computes the phase of a poll's window at time `now`.
pub fn poll_status(now: u64, start_time: u64, end_time: u64) -> (s: PollStatus)
    ensures
        s == phase(now, start_time, end_time),
{
    if now < start_time {
        PollStatus::NotStarted
    } else if now <= end_time {
        PollStatus::Ongoing
    } else {
        PollStatus::Ended
    }
}

/// The whitelist's contents, or `None` when the poll is open to all.
pub open spec fn whitelist_view(w: Option<Vec<Address>>) -> Option<Seq<Address>> {
    match w {
        Option::Some(wl) => Option::Some(wl@),
        Option::None => Option::None,
    }
}

/// A voter may vote when the poll has no whitelist, or when the whitelist
/// holds the voter's identity.
pub open spec fn eligible(p: Poll, voter: Address) -> bool {
    match p.whitelisted_addresses {
        Option::Some(wl) => wl@.contains(voter),
        Option::None => true,
    }
}

/// Membership test over a fixed list of identities.
pub fn contains_address(addrs: &Vec<Address>, a: Address) -> (b: bool)
    ensures
        b == addrs@.contains(a),
{
    let mut i: usize = 0;
    while i < addrs.len()
        invariant
            0 <= i <= addrs@.len(),
            forall|k: int| 0 <= k < i ==> addrs@[k] != a,
        decreases addrs@.len() - i,
    {
        if addrs[i] == a {
            return true;
        }
        i = i + 1;
    }
    false
}

/// Membership test over the poll's optional whitelist.
pub fn is_eligible(p: &Poll, voter: Address) -> (b: bool)
    ensures
        b == eligible(*p, voter),
{
    match &p.whitelisted_addresses {
        Option::Some(wl) => contains_address(wl, voter),
        Option::None => true,
    }
}

/// Structural well-formedness of one poll: at least two options, a
/// non-degenerate window, and a non-empty whitelist when one is present.
pub open spec fn poll_wf(p: Poll) -> bool {
    &&& p.options@.len() >= 2
    &&& p.end_time > p.start_time
    &&& match p.whitelisted_addresses {
        Option::Some(wl) => wl@.len() > 0,
        Option::None => true,
    }
}

/// Two options carry the same name and count.
pub open spec fn option_eq(a: PollOption, b: PollOption) -> bool {
    a.name@ == b.name@ && a.vote_count == b.vote_count
}

/// Two option lists agree element by element.
pub open spec fn options_eq(a: Seq<PollOption>, b: Seq<PollOption>) -> bool {
    a.len() == b.len() && forall|j: int| 0 <= j < a.len() ==> option_eq(a[j], b[j])
}

/// Two polls agree on every observable field.
pub open spec fn poll_eq(a: Poll, b: Poll) -> bool {
    &&& a.id == b.id
    &&& a.question@ == b.question@
    &&& options_eq(a.options@, b.options@)
    &&& a.start_time == b.start_time
    &&& a.end_time == b.end_time
    &&& a.creator == b.creator
    &&& a.is_closed == b.is_closed
    &&& a.can_change_vote == b.can_change_vote
    &&& whitelist_view(a.whitelisted_addresses) == whitelist_view(b.whitelisted_addresses)
}

/// The poll as it stands after closing: the same poll with `is_closed` set.
pub open spec fn closed_of(p: Poll) -> Poll {
    Poll {
        id: p.id,
        question: p.question,
        options: p.options,
        start_time: p.start_time,
        end_time: p.end_time,
        creator: p.creator,
        is_closed: true,
        can_change_vote: p.can_change_vote,
        whitelisted_addresses: p.whitelisted_addresses,
    }
}

/// The total number of recorded votes over an option list.
pub open spec fn sum_counts(s: Seq<PollOption>) -> nat
    decreases s.len(),
{
    if s.len() == 0 {
        0
    } else {
        (sum_counts(s.drop_last()) + s.last().vote_count) as nat
    }
}

pub proof fn lemma_sum_counts_update(s: Seq<PollOption>, i: int, v: PollOption)
    requires
        0 <= i < s.len(),
    ensures
        sum_counts(s.update(i, v)) + s[i].vote_count == sum_counts(s) + v.vote_count,
    decreases s.len(),
{
    let t = s.update(i, v);
    if i == s.len() - 1 {
        assert(t.drop_last() =~= s.drop_last());
        assert(t.last() == v);
    } else {
        assert(t.drop_last() =~= s.drop_last().update(i, v));
        assert(t.last() == s.last());
        lemma_sum_counts_update(s.drop_last(), i, v);
    }
}

pub proof fn lemma_sum_counts_bound(s: Seq<PollOption>, i: int)
    requires
        0 <= i < s.len(),
    ensures
        s[i].vote_count <= sum_counts(s),
    decreases s.len(),
{
    if i == s.len() - 1 {
    } else {
        lemma_sum_counts_bound(s.drop_last(), i);
    }
}

pub proof fn lemma_sum_counts_zero(s: Seq<PollOption>)
    requires
        forall|j: int| 0 <= j < s.len() ==> s[j].vote_count == 0,
    ensures
        sum_counts(s) == 0,
    decreases s.len(),
{
    if s.len() > 0 {
        lemma_sum_counts_zero(s.drop_last());
    }
}

pub proof fn lemma_sum_counts_take_step(s: Seq<PollOption>, i: int)
    requires
        0 <= i < s.len(),
    ensures
        sum_counts(s.take(i + 1)) == sum_counts(s.take(i)) + s[i].vote_count,
{
    assert(s.take(i + 1).drop_last() =~= s.take(i));
    assert(s.take(i + 1).last() == s[i]);
}

pub proof fn lemma_sum_counts_take_le(s: Seq<PollOption>, i: int)
    requires
        0 <= i <= s.len(),
    ensures
        sum_counts(s.take(i)) <= sum_counts(s),
    decreases s.len() - i,
{
    if i == s.len() {
        assert(s.take(i) =~= s);
    } else {
        lemma_sum_counts_take_step(s, i);
        lemma_sum_counts_take_le(s, i + 1);
    }
}

impl PollOption {
    /// A copy of this option, with the same name and count.
    pub fn duplicate(&self) -> (r: PollOption)
        ensures
            r == *self,
    {
        PollOption { name: self.name.clone(), vote_count: self.vote_count }
    }
}

impl Poll {
    /// A copy of this poll, agreeing on every observable field.
    pub fn duplicate(&self) -> (r: Poll)
        ensures
            poll_eq(r, *self),
    {
        let mut options: Vec<PollOption> = Vec::new();
        let mut i: usize = 0;
        while i < self.options.len()
            invariant
                0 <= i <= self.options@.len(),
                options@.len() == i,
                forall|j: int| 0 <= j < i ==> options@[j] == self.options@[j],
            decreases self.options@.len() - i,
        {
            options.push(self.options[i].duplicate());
            i = i + 1;
        }
        let whitelisted_addresses: Option<Vec<Address>> = match &self.whitelisted_addresses {
            Option::Some(wl) => {
                let mut copy: Vec<Address> = Vec::new();
                let mut k: usize = 0;
                while k < wl.len()
                    invariant
                        0 <= k <= wl@.len(),
                        copy@ == wl@.take(k as int),
                    decreases wl@.len() - k,
                {
                    copy.push(wl[k]);
                    proof {
                        assert(copy@ =~= wl@.take(k + 1 as int));
                    }
                    k = k + 1;
                }
                proof {
                    assert(copy@ =~= wl@);
                }
                Option::Some(copy)
            },
            Option::None => Option::None,
        };
        Poll {
            id: self.id,
            question: self.question.clone(),
            options,
            start_time: self.start_time,
            end_time: self.end_time,
            creator: self.creator,
            is_closed: self.is_closed,
            can_change_vote: self.can_change_vote,
            whitelisted_addresses,
        }
    }
}

} // verus!
