use voting_sc::poll::Address;
use voting_sc::poll::PollError;
use voting_sc::poll::PollStatus;
use voting_sc::registry::VotingContract;

fn addr(value: u64) -> Address {
    Address { value }
}

fn names(list: &[&str]) -> Vec<String> {
    list.iter().map(|s| s.to_string()).collect()
}

/// A poll over the given options whose window `[10, 100]` covers `now = 50`.
fn open_poll(c: &mut VotingContract, options: &[&str], can_change_vote: bool) -> u64 {
    c.create_poll(
        "question".to_string(),
        names(options),
        10,
        100,
        can_change_vote,
        None,
        addr(1),
        5,
    )
    .unwrap()
}

#[test]
fn basic_round_trip() {
    let mut c = VotingContract::init();
    let id = open_poll(&mut c, &["A", "B", "C"], false);
    c.cast_vote(id, 1, addr(2), 50).unwrap();
    let results = c.get_poll_results(id).unwrap();
    assert_eq!(results[0], ("A".to_string(), 0, 0));
    assert_eq!(results[1], ("B".to_string(), 1, 100));
    assert_eq!(results[2], ("C".to_string(), 0, 0));
}

#[test]
fn tally_always_matches_ledger_size() {
    let mut c = VotingContract::init();
    let id = open_poll(&mut c, &["A", "B", "C"], true);
    let checkpoints = [
        (2u64, 0usize),
        (3, 1),
        (2, 2), // voter 2 changes their vote
        (4, 2),
    ];
    for (voter, option) in checkpoints {
        c.cast_vote(id, option, addr(voter), 50).unwrap();
        let results = c.get_poll_results(id).unwrap();
        let tally: u64 = results.iter().map(|entry| entry.1).sum();
        let (participants, _) = c.get_poll_participation_stats(id).unwrap();
        assert_eq!(tally, participants);
    }
}

#[test]
fn idempotent_close() {
    let mut c = VotingContract::init();
    let id = open_poll(&mut c, &["A", "B"], false);
    c.cast_vote(id, 0, addr(2), 50).unwrap();
    assert_eq!(c.close_poll(id, addr(1)), Ok(()));
    assert_eq!(c.close_poll(id, addr(1)), Ok(()));
    let poll = c.get_poll(id).unwrap();
    assert!(poll.is_closed);
    assert_eq!(poll.question, "question");
    assert_eq!(poll.start_time, 10);
    assert_eq!(poll.end_time, 100);
    assert_eq!(poll.options.len(), 2);
    assert_eq!(poll.options[0].vote_count, 1);
    assert_eq!(poll.options[1].vote_count, 0);
}

#[test]
fn vote_change_moves_the_single_ballot() {
    let mut c = VotingContract::init();
    let id = open_poll(&mut c, &["A", "B"], true);
    c.cast_vote(id, 0, addr(2), 50).unwrap();
    c.cast_vote(id, 1, addr(2), 51).unwrap();
    let results = c.get_poll_results(id).unwrap();
    assert_eq!(results[0].1, 0);
    assert_eq!(results[1].1, 1);
    let (participants, _) = c.get_poll_participation_stats(id).unwrap();
    assert_eq!(participants, 1);
}

#[test]
fn vote_change_to_same_option_is_stable() {
    let mut c = VotingContract::init();
    let id = open_poll(&mut c, &["A", "B"], true);
    c.cast_vote(id, 0, addr(2), 50).unwrap();
    c.cast_vote(id, 0, addr(2), 51).unwrap();
    let results = c.get_poll_results(id).unwrap();
    assert_eq!(results[0].1, 1);
    assert_eq!(results[1].1, 0);
    let (participants, _) = c.get_poll_participation_stats(id).unwrap();
    assert_eq!(participants, 1);
}

#[test]
fn no_change_allowed_second_vote_rejected() {
    let mut c = VotingContract::init();
    let id = open_poll(&mut c, &["A", "B"], false);
    c.cast_vote(id, 0, addr(2), 50).unwrap();
    assert_eq!(c.cast_vote(id, 1, addr(2), 51), Err(PollError::StateError));
    let results = c.get_poll_results(id).unwrap();
    assert_eq!(results[0].1, 1);
    assert_eq!(results[1].1, 0);
}

#[test]
fn whitelist_enforcement() {
    let mut c = VotingContract::init();
    let id = c
        .create_poll(
            "question".to_string(),
            names(&["A", "B"]),
            10,
            100,
            false,
            Some(vec![addr(2)]),
            addr(1),
            5,
        )
        .unwrap();
    assert_eq!(c.cast_vote(id, 0, addr(3), 50), Err(PollError::EligibilityError));
    c.cast_vote(id, 0, addr(2), 50).unwrap();
    let stats = c.get_poll_participation_stats(id).unwrap();
    assert_eq!(stats, (1, Some(100)));
}

#[test]
fn participation_share_is_floored() {
    let mut c = VotingContract::init();
    let whitelist = vec![addr(2), addr(3), addr(4)];
    let id = c
        .create_poll(
            "question".to_string(),
            names(&["A", "B"]),
            10,
            100,
            false,
            Some(whitelist),
            addr(1),
            5,
        )
        .unwrap();
    c.cast_vote(id, 0, addr(2), 50).unwrap();
    assert_eq!(c.get_poll_participation_stats(id).unwrap(), (1, Some(33)));
    c.cast_vote(id, 1, addr(3), 51).unwrap();
    assert_eq!(c.get_poll_participation_stats(id).unwrap(), (2, Some(66)));
}

#[test]
fn stats_without_whitelist_have_no_percentage() {
    let mut c = VotingContract::init();
    let id = open_poll(&mut c, &["A", "B"], false);
    c.cast_vote(id, 0, addr(2), 50).unwrap();
    assert_eq!(c.get_poll_participation_stats(id).unwrap(), (1, None));
}

#[test]
fn empty_whitelist_rejected_at_creation() {
    let mut c = VotingContract::init();
    let r = c.create_poll(
        "question".to_string(),
        names(&["A", "B"]),
        10,
        100,
        false,
        Some(Vec::new()),
        addr(1),
        5,
    );
    assert_eq!(r, Err(PollError::ValidationError));
}

#[test]
fn time_gating() {
    let mut c = VotingContract::init();
    let id = open_poll(&mut c, &["A", "B"], false);
    assert_eq!(c.cast_vote(id, 0, addr(2), 9), Err(PollError::StateError));
    assert_eq!(c.cast_vote(id, 0, addr(2), 101), Err(PollError::StateError));
    // the time check precedes eligibility: a whitelisted poll refuses an
    // outsider with the state error, not the eligibility error, out of window
    let gated = c
        .create_poll(
            "question".to_string(),
            names(&["A", "B"]),
            10,
            100,
            false,
            Some(vec![addr(2)]),
            addr(1),
            5,
        )
        .unwrap();
    assert_eq!(c.cast_vote(gated, 0, addr(9), 9), Err(PollError::StateError));
    // boundaries are inclusive
    c.cast_vote(id, 0, addr(2), 10).unwrap();
    c.cast_vote(id, 0, addr(3), 100).unwrap();
}

#[test]
fn closed_poll_refuses_votes() {
    let mut c = VotingContract::init();
    let id = open_poll(&mut c, &["A", "B"], false);
    c.close_poll(id, addr(1)).unwrap();
    assert_eq!(c.cast_vote(id, 0, addr(2), 50), Err(PollError::StateError));
}

#[test]
fn modify_while_ongoing_extends_end_only() {
    let mut c = VotingContract::init();
    let id = open_poll(&mut c, &["A", "B"], false);
    c.cast_vote(id, 0, addr(2), 50).unwrap();
    // the supplied question and options are ignored while ongoing
    c.modify_poll(id, "other".to_string(), names(&["X", "Y", "Z"]), 40, 200, addr(1), 50)
        .unwrap();
    let poll = c.get_poll(id).unwrap();
    assert_eq!(poll.question, "question");
    assert_eq!(poll.start_time, 10);
    assert_eq!(poll.end_time, 200);
    assert_eq!(poll.options.len(), 2);
    assert_eq!(poll.options[0].name, "A");
    assert_eq!(poll.options[0].vote_count, 1);
}

#[test]
fn modify_while_ongoing_rejects_non_future_end() {
    let mut c = VotingContract::init();
    let id = open_poll(&mut c, &["A", "B"], false);
    let r = c.modify_poll(id, "q".to_string(), names(&["A", "B"]), 10, 50, addr(1), 50);
    assert_eq!(r, Err(PollError::ValidationError));
    let r = c.modify_poll(id, "q".to_string(), names(&["A", "B"]), 10, 30, addr(1), 50);
    assert_eq!(r, Err(PollError::ValidationError));
    assert_eq!(c.get_poll(id).unwrap().end_time, 100);
}

#[test]
fn modify_before_start_redefines_everything() {
    let mut c = VotingContract::init();
    let id = open_poll(&mut c, &["A", "B"], false);
    c.modify_poll(id, "redone".to_string(), names(&["X", "Y", "Z"]), 20, 60, addr(1), 7)
        .unwrap();
    let poll = c.get_poll(id).unwrap();
    assert_eq!(poll.question, "redone");
    assert_eq!(poll.start_time, 20);
    assert_eq!(poll.end_time, 60);
    assert_eq!(poll.options.len(), 3);
    assert_eq!(poll.options[2].name, "Z");
    assert!(poll.options.iter().all(|o| o.vote_count == 0));
    let (participants, _) = c.get_poll_participation_stats(id).unwrap();
    assert_eq!(participants, 0);
}

#[test]
fn modify_after_end_rejected() {
    let mut c = VotingContract::init();
    let id = open_poll(&mut c, &["A", "B"], false);
    let r = c.modify_poll(id, "q".to_string(), names(&["A", "B"]), 10, 300, addr(1), 101);
    assert_eq!(r, Err(PollError::StateError));
}

#[test]
fn modify_closed_poll_rejected() {
    let mut c = VotingContract::init();
    let id = open_poll(&mut c, &["A", "B"], false);
    c.close_poll(id, addr(1)).unwrap();
    let r = c.modify_poll(id, "q".to_string(), names(&["A", "B"]), 10, 300, addr(1), 50);
    assert_eq!(r, Err(PollError::StateError));
}

#[test]
fn only_creator_may_modify_or_close() {
    let mut c = VotingContract::init();
    let id = open_poll(&mut c, &["A", "B"], false);
    let r = c.modify_poll(id, "q".to_string(), names(&["A", "B"]), 10, 300, addr(9), 50);
    assert_eq!(r, Err(PollError::AuthorizationError));
    assert_eq!(c.close_poll(id, addr(9)), Err(PollError::AuthorizationError));
    assert!(!c.get_poll(id).unwrap().is_closed);
}

#[test]
fn boundary_rejections() {
    let mut c = VotingContract::init();
    // end equal to start
    let r = c.create_poll("q".to_string(), names(&["A", "B"]), 10, 10, false, None, addr(1), 5);
    assert_eq!(r, Err(PollError::ValidationError));
    // a single option, at creation
    let r = c.create_poll("q".to_string(), names(&["A"]), 10, 100, false, None, addr(1), 5);
    assert_eq!(r, Err(PollError::ValidationError));
    // end not in the future
    let r = c.create_poll("q".to_string(), names(&["A", "B"]), 10, 100, false, None, addr(1), 100);
    assert_eq!(r, Err(PollError::ValidationError));
    // option index just past the end
    let id = open_poll(&mut c, &["A", "B"], false);
    assert_eq!(c.cast_vote(id, 2, addr(2), 50), Err(PollError::IndexError));
    // a single option, at redefinition
    let r = c.modify_poll(id, "q".to_string(), names(&["A"]), 20, 60, addr(1), 7);
    assert_eq!(r, Err(PollError::ValidationError));
}

#[test]
fn zero_vote_results() {
    let mut c = VotingContract::init();
    let id = open_poll(&mut c, &["A", "B", "C"], false);
    let results = c.get_poll_results(id).unwrap();
    assert_eq!(results.len(), 3);
    for (_, count, share) in results {
        assert_eq!(count, 0);
        assert_eq!(share, 0);
    }
}

#[test]
fn percentages_are_floored() {
    let mut c = VotingContract::init();
    let id = open_poll(&mut c, &["A", "B"], false);
    c.cast_vote(id, 0, addr(2), 50).unwrap();
    c.cast_vote(id, 1, addr(3), 50).unwrap();
    c.cast_vote(id, 1, addr(4), 50).unwrap();
    let results = c.get_poll_results(id).unwrap();
    assert_eq!(results[0].2, 33);
    assert_eq!(results[1].2, 66);
}

#[test]
fn unknown_poll_ids_are_not_found() {
    let mut c = VotingContract::init();
    assert!(matches!(c.get_poll(0), Err(PollError::NotFoundError)));
    assert_eq!(c.cast_vote(7, 0, addr(2), 50), Err(PollError::NotFoundError));
    assert_eq!(c.close_poll(7, addr(1)), Err(PollError::NotFoundError));
    let r = c.modify_poll(7, "q".to_string(), names(&["A", "B"]), 10, 100, addr(1), 5);
    assert_eq!(r, Err(PollError::NotFoundError));
    assert!(matches!(c.get_poll_results(7), Err(PollError::NotFoundError)));
    assert!(matches!(c.get_poll_participation_stats(7), Err(PollError::NotFoundError)));
}

#[test]
fn ids_are_assigned_in_order() {
    let mut c = VotingContract::init();
    let first = open_poll(&mut c, &["A", "B"], false);
    let second = open_poll(&mut c, &["C", "D"], true);
    assert_eq!(first, 0);
    assert_eq!(second, 1);
    assert_eq!(c.get_poll(0).unwrap().id, 0);
    assert_eq!(c.get_poll(1).unwrap().id, 1);
    assert_eq!(c.get_poll(1).unwrap().options[0].name, "C");
}

#[test]
fn has_voted_tracks_one_shot_ledgers_only() {
    let mut c = VotingContract::init();
    let one_shot = open_poll(&mut c, &["A", "B"], false);
    let changeable = open_poll(&mut c, &["A", "B"], true);
    assert!(!c.has_voted(one_shot, addr(2)));
    c.cast_vote(one_shot, 0, addr(2), 50).unwrap();
    assert!(c.has_voted(one_shot, addr(2)));
    assert!(!c.has_voted(one_shot, addr(3)));
    c.cast_vote(changeable, 0, addr(2), 50).unwrap();
    assert!(!c.has_voted(changeable, addr(2)));
    assert!(!c.has_voted(99, addr(2)));
}

#[test]
fn get_polls_filters_by_status_and_creator() {
    let mut c = VotingContract::init();
    c.create_poll("a".to_string(), names(&["A", "B"]), 10, 100, false, None, addr(1), 5)
        .unwrap();
    c.create_poll("b".to_string(), names(&["A", "B"]), 60, 100, false, None, addr(2), 5)
        .unwrap();
    c.create_poll("c".to_string(), names(&["A", "B"]), 10, 20, false, None, addr(1), 5)
        .unwrap();

    let all = c.get_polls(None, None, 50);
    assert_eq!(all.len(), 3);
    assert_eq!(all[0].question, "a");
    assert_eq!(all[2].question, "c");

    let ongoing = c.get_polls(Some(PollStatus::Ongoing), None, 50);
    assert_eq!(ongoing.len(), 1);
    assert_eq!(ongoing[0].question, "a");

    let not_started = c.get_polls(Some(PollStatus::NotStarted), None, 50);
    assert_eq!(not_started.len(), 1);
    assert_eq!(not_started[0].question, "b");

    let ended = c.get_polls(Some(PollStatus::Ended), None, 50);
    assert_eq!(ended.len(), 1);
    assert_eq!(ended[0].question, "c");

    let by_creator = c.get_polls(None, Some(addr(1)), 50);
    assert_eq!(by_creator.len(), 2);
    assert_eq!(by_creator[0].question, "a");
    assert_eq!(by_creator[1].question, "c");

    let both = c.get_polls(Some(PollStatus::Ongoing), Some(addr(2)), 50);
    assert!(both.is_empty());
}

#[test]
fn upgrade_changes_nothing() {
    let mut c = VotingContract::init();
    let id = open_poll(&mut c, &["A", "B"], false);
    c.cast_vote(id, 0, addr(2), 50).unwrap();
    c.upgrade();
    assert_eq!(c.get_poll(id).unwrap().options[0].vote_count, 1);
    assert_eq!(c.get_polls(None, None, 50).len(), 1);
}
