use rcir::election::{eliminate, run_round, RoundStep};
use rcir::round::threshold_for;
use rcir::tally::{count_round, first_choice, is_eliminated, position};
use rcir::{ElectionError, ElectionResult, MajorityMode};

fn sample() -> Vec<Vec<&'static str>> {
    vec![
        vec!["alice", "sam"],
        vec!["bob", "sam"],
        vec!["chris", "bob"],
        vec!["sam", "chris"],
        vec!["alice", "chris"],
    ]
}

#[test]
fn threshold_is_half_rounded_up() {
    assert_eq!(threshold_for(0), Ok(0));
    assert_eq!(threshold_for(1), Ok(1));
    assert_eq!(threshold_for(2), Ok(1));
    assert_eq!(threshold_for(4), Ok(2));
    assert_eq!(threshold_for(5), Ok(3));
    assert_eq!(threshold_for(u32::MAX - 1), Ok(0x7fff_ffff));
}

#[test]
fn threshold_overflow_is_reported() {
    assert_eq!(threshold_for(u32::MAX), Err(ElectionError::Overflow));
}

#[test]
fn position_finds_the_first_match() {
    let (a, b, c) = ("a", "b", "c");
    let names = vec![&a, &b, &a];
    assert_eq!(position(&names, &"a"), Some(0));
    assert_eq!(position(&names, &"b"), Some(1));
    assert_eq!(position(&names, &c), None);
    let none: Vec<&&str> = Vec::new();
    assert_eq!(position(&none, &"a"), None);
}

#[test]
fn eliminated_membership() {
    let (a, b) = ("a", "b");
    let out = vec![&a];
    assert!(is_eliminated(&out, &"a"));
    assert!(!is_eliminated(&out, &b));
}

#[test]
fn first_choice_skips_the_eliminated() {
    let ballot = vec!["a", "b", "c"];
    let (a, b, c) = ("a", "b", "c");
    let none: Vec<&&str> = Vec::new();
    assert_eq!(first_choice(&ballot, &none), Some(&"a"));
    assert_eq!(first_choice(&ballot, &vec![&a]), Some(&"b"));
    assert_eq!(first_choice(&ballot, &vec![&b, &a]), Some(&"c"));
    assert_eq!(first_choice(&ballot, &vec![&c, &b, &a]), None);
    let empty: Vec<&str> = Vec::new();
    assert_eq!(first_choice(&empty, &none), None);
}

#[test]
fn first_round_tally() {
    let voters = sample();
    let none: Vec<&&str> = Vec::new();
    let tally = count_round(&voters, &none, MajorityMode::CompleteMajority).unwrap();
    assert_eq!(tally.names, vec![&"alice", &"bob", &"chris", &"sam"]);
    assert_eq!(tally.counts, vec![2, 1, 1, 1]);
    assert_eq!(tally.num_voters, 5);
    assert_eq!(tally.leaders(3), Vec::<&&str>::new());
    assert_eq!(tally.leaders(2), vec![&"alice"]);
    assert_eq!(tally.leaders(1), vec![&"alice", &"bob", &"chris", &"sam"]);
    assert_eq!(tally.leaders(0), vec![&"alice", &"bob", &"chris", &"sam"]);
    assert_eq!(tally.trailers(), vec![&"bob", &"chris", &"sam"]);
}

#[test]
fn exhausted_ballots_and_the_two_modes() {
    let voters = sample();
    let (bob, chris, sam) = ("bob", "chris", "sam");
    let out = vec![&bob, &chris, &sam];
    let complete = count_round(&voters, &out, MajorityMode::CompleteMajority).unwrap();
    assert_eq!(complete.names, vec![&"alice"]);
    assert_eq!(complete.counts, vec![2]);
    assert_eq!(complete.num_voters, 5);
    let remaining = count_round(&voters, &out, MajorityMode::RemainingMajority).unwrap();
    assert_eq!(remaining.names, vec![&"alice"]);
    assert_eq!(remaining.counts, vec![2]);
    assert_eq!(remaining.num_voters, 2);
    assert_eq!(remaining.trailers(), vec![&"alice"]);
}

#[test]
fn eliminated_candidates_stay_out_of_later_tallies() {
    let voters = sample();
    let mut out: Vec<&&str> = Vec::new();
    let first = count_round(&voters, &out, MajorityMode::RemainingMajority).unwrap();
    let behind = first.trailers();
    eliminate(&mut out, &behind);
    assert_eq!(out, vec![&"bob", &"chris", &"sam"]);
    let second = count_round(&voters, &out, MajorityMode::RemainingMajority).unwrap();
    for gone in out.iter() {
        assert!(!second.names.contains(gone));
    }
    let more = second.trailers();
    eliminate(&mut out, &more);
    assert_eq!(out, vec![&"bob", &"chris", &"sam", &"alice"]);
    let third = count_round(&voters, &out, MajorityMode::RemainingMajority).unwrap();
    assert!(third.names.is_empty());
    assert!(third.counts.is_empty());
    assert_eq!(third.num_voters, 0);
    assert!(third.trailers().is_empty());
}

#[test]
fn winner_meets_the_threshold_of_its_round() {
    let voters = sample();
    let (bob, chris, sam) = ("bob", "chris", "sam");
    let out = vec![&bob, &chris, &sam];
    let tally = count_round(&voters, &out, MajorityMode::RemainingMajority).unwrap();
    let threshold = threshold_for(tally.num_voters).unwrap();
    assert_eq!(threshold, 1);
    let ahead = tally.leaders(threshold);
    assert_eq!(ahead, vec![&"alice"]);
    let at = position(&tally.names, ahead[0]).unwrap();
    assert!(tally.counts[at] >= threshold);
}

#[test]
fn no_ballots_no_tally() {
    let voters: Vec<Vec<u32>> = Vec::new();
    let none: Vec<&u32> = Vec::new();
    let tally = count_round(&voters, &none, MajorityMode::CompleteMajority).unwrap();
    assert!(tally.names.is_empty());
    assert_eq!(tally.num_voters, 0);
}

#[test]
fn round_that_eliminates() {
    let voters = sample();
    let none: Vec<&&str> = Vec::new();
    assert_eq!(
        run_round(&voters, &none, MajorityMode::CompleteMajority),
        RoundStep::Eliminate(vec![&"bob", &"chris", &"sam"])
    );
    assert_eq!(
        run_round(&voters, &none, MajorityMode::RemainingMajority),
        RoundStep::Eliminate(vec![&"bob", &"chris", &"sam"])
    );
}

#[test]
fn round_under_the_two_modes() {
    let voters = sample();
    let (bob, chris, sam) = ("bob", "chris", "sam");
    let out = vec![&bob, &chris, &sam];
    assert_eq!(
        run_round(&voters, &out, MajorityMode::CompleteMajority),
        RoundStep::Eliminate(vec![&"alice"])
    );
    assert_eq!(
        run_round(&voters, &out, MajorityMode::RemainingMajority),
        RoundStep::Decided(Ok(ElectionResult::Winner(&"alice")))
    );
}

#[test]
fn round_that_ties() {
    let voters = vec![vec![7u32, 9], vec![9, 7]];
    let none: Vec<&u32> = Vec::new();
    assert_eq!(
        run_round(&voters, &none, MajorityMode::CompleteMajority),
        RoundStep::Decided(Ok(ElectionResult::Tie(vec![&7, &9])))
    );
}

#[test]
fn round_errors() {
    let nobody: Vec<Vec<u32>> = Vec::new();
    let none: Vec<&u32> = Vec::new();
    assert_eq!(
        run_round(&nobody, &none, MajorityMode::RemainingMajority),
        RoundStep::Decided(Err(ElectionError::EmptyVoteCollection))
    );
    let voters = vec![vec![1u32], vec![]];
    let one = 1u32;
    assert_eq!(
        run_round(&voters, &vec![&one], MajorityMode::CompleteMajority),
        RoundStep::Decided(Err(ElectionError::VotersNoVotes))
    );
    assert_eq!(
        run_round(&voters, &vec![&one], MajorityMode::RemainingMajority),
        RoundStep::Decided(Err(ElectionError::VotersNoVotes))
    );
}
