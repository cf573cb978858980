use rcir::{run_election, ElectionError, ElectionResult, MajorityMode};
use std::collections::VecDeque;

fn ballots<'a>(voters: Vec<VecDeque<&'a str>>) -> Vec<Vec<&'a str>> {
    voters.into_iter().map(|v| v.into_iter().collect()).collect()
}

fn five_voters() -> Vec<Vec<&'static str>> {
    let mut voter_a = VecDeque::new();
    voter_a.push_front("sue");
    voter_a.push_front("bill");
    voter_a.push_front("bob");

    let mut voter_b = VecDeque::new();
    voter_b.push_front("bill");
    voter_b.push_front("bob");
    voter_b.push_front("sue");

    let mut voter_c = VecDeque::new();
    voter_c.push_front("bob");
    voter_c.push_front("sue");
    voter_c.push_front("bill");

    let mut voter_d = VecDeque::new();
    voter_d.push_front("sue");
    voter_d.push_front("bill");
    voter_d.push_front("bob");

    let mut voter_e = VecDeque::new();
    voter_e.push_front("bill");
    voter_e.push_front("bob");
    voter_e.push_front("sue");

    ballots(vec![voter_a, voter_b, voter_c, voter_d, voter_e])
}

#[test]
fn basic_run() {
    let vec = five_voters();
    let winner = run_election(&vec, MajorityMode::CompleteMajority);
    if let Ok(winner) = winner {
        assert_eq!(ElectionResult::Winner(&"sue"), winner);
    } else {
        assert!(false);
    }
    //test again with remaining majority
    let winner = run_election(&vec, MajorityMode::RemainingMajority);
    if let Ok(winner) = winner {
        assert_eq!(ElectionResult::Winner(&"sue"), winner);
    } else {
        assert!(false);
    }
}

#[test]
fn lib_basic_run() {
    let vec = five_voters();
    let winner = run_election(&vec, MajorityMode::RemainingMajority);
    println!("winner is: {:?}", winner);
    assert_eq!(Ok(ElectionResult::Winner(&"sue")), winner);
}

#[test]
fn tie() {
    let mut voter_a = VecDeque::new();
    voter_a.push_front("sue");

    let mut voter_b = VecDeque::new();
    voter_b.push_front("bill");

    let vec = ballots(vec![voter_a, voter_b]);
    let winner = run_election(&vec, MajorityMode::CompleteMajority);
    if let Ok(ElectionResult::Tie(tie_res)) = winner {
        assert!(tie_res.contains(&&"bill"));
        assert!(tie_res.contains(&&"sue"));
    } else {
        assert!(false);
    }
    let winner = run_election(&vec, MajorityMode::RemainingMajority);
    if let Ok(ElectionResult::Tie(tie_res)) = winner {
        assert!(tie_res.contains(&&"bill"));
        assert!(tie_res.contains(&&"sue"));
    } else {
        assert!(false);
    }
}

#[test]
fn lib_tie() {
    let mut voter_a = VecDeque::new();
    voter_a.push_front("sue");

    let mut voter_b = VecDeque::new();
    voter_b.push_front("bill");

    let vec = ballots(vec![voter_a, voter_b]);
    let winner = run_election(&vec, MajorityMode::RemainingMajority);
    let _tievec: Vec<&str> = vec!["bill", "sue"];
    if let Ok(ElectionResult::Tie(tie_res)) = winner {
        assert!(tie_res.contains(&&"bill"));
        assert!(tie_res.contains(&&"sue"));
        assert_eq!(tie_res.len(), 2);
    } else {
        assert!(false);
    }
}

#[test]
fn tie2() {
    let mut voter_a = VecDeque::new();
    voter_a.push_front("sue");
    voter_a.push_front("bill");

    let mut voter_b = VecDeque::new();
    voter_b.push_front("bill");
    voter_b.push_front("sue");

    let vec = ballots(vec![voter_a, voter_b]);
    let winner = run_election(&vec, MajorityMode::CompleteMajority);
    if let Ok(ElectionResult::Tie(tie_res)) = winner {
        assert!(tie_res.contains(&&"bill"));
        assert!(tie_res.contains(&&"sue"));
    } else {
        assert!(false);
    }
    let winner = run_election(&vec, MajorityMode::RemainingMajority);
    if let Ok(ElectionResult::Tie(tie_res)) = winner {
        assert!(tie_res.contains(&&"bill"));
        assert!(tie_res.contains(&&"sue"));
    } else {
        assert!(false);
    }
}

#[test]
fn voters_no_votes() {
    let voter_a: Vec<&str> = Vec::new();
    let voter_b: Vec<&str> = Vec::new();
    let voters = vec![voter_a, voter_b];
    let winner = run_election(&voters, MajorityMode::CompleteMajority);
    if let Err(error_res) = winner {
        assert_eq!(error_res, ElectionError::VotersNoVotes);
    } else {
        assert!(false);
    }
    let winner = run_election(&voters, MajorityMode::RemainingMajority);
    if let Err(error_res) = winner {
        assert_eq!(error_res, ElectionError::VotersNoVotes);
    } else {
        assert!(false);
    }
}

fn cyclic_voters() -> Vec<Vec<&'static str>> {
    let mut voter_a = VecDeque::new();
    voter_a.push_front("sam");
    voter_a.push_front("alice");

    let mut voter_b = VecDeque::new();
    voter_b.push_front("sam");
    voter_b.push_front("bob");

    let mut voter_c = VecDeque::new();
    voter_c.push_front("bob");
    voter_c.push_front("chris");

    let mut voter_d = VecDeque::new();
    voter_d.push_front("chris");
    voter_d.push_front("sam");

    let mut voter_e = VecDeque::new();
    voter_e.push_front("chris");
    voter_e.push_front("alice");

    ballots(vec![voter_a, voter_b, voter_c, voter_d, voter_e])
}

#[test]
fn minority_majority() {
    let vec = cyclic_voters();
    //run with complete majority mode
    let winner = run_election(&vec, MajorityMode::CompleteMajority);
    if let Err(error_res) = winner {
        assert_eq!(error_res, ElectionError::VotersNoVotes);
    } else {
        assert!(false);
    }
    //run with remaining majority mode
    let winner = run_election(&vec, MajorityMode::RemainingMajority);
    if let Ok(winner) = winner {
        assert_eq!(ElectionResult::Winner(&"alice"), winner);
    } else {
        println!("{:?}", winner);
        assert!(false);
    }
}

#[test]
fn no_ballots_is_an_empty_collection() {
    let voters: Vec<Vec<&str>> = Vec::new();
    assert_eq!(
        run_election(&voters, MajorityMode::CompleteMajority),
        Err(ElectionError::EmptyVoteCollection)
    );
    assert_eq!(
        run_election(&voters, MajorityMode::RemainingMajority),
        Err(ElectionError::EmptyVoteCollection)
    );
}

#[test]
fn tie_lists_candidates_in_first_seen_order() {
    let voters = vec![vec!["sue"], vec!["bill"]];
    assert_eq!(
        run_election(&voters, MajorityMode::CompleteMajority),
        Ok(ElectionResult::Tie(vec![&"sue", &"bill"]))
    );
    let voters = vec![vec!["bill"], vec!["sue"], vec!["bill"], vec!["sue"]];
    assert_eq!(
        run_election(&voters, MajorityMode::RemainingMajority),
        Ok(ElectionResult::Tie(vec![&"bill", &"sue"]))
    );
}

#[test]
fn exact_half_wins() {
    // 4 voters: the threshold is (4 + 1) / 2 = 2.
    let voters = vec![vec![1u8], vec![1], vec![2], vec![3]];
    assert_eq!(
        run_election(&voters, MajorityMode::CompleteMajority),
        Ok(ElectionResult::Winner(&1u8))
    );
}

#[test]
fn all_lowest_candidates_leave_together() {
    // Round one: a 3, b 2, c 2 of 7, threshold 4. b and c leave together,
    // and only the ballots that go on to name a still count.
    let voters = vec![
        vec!["a"],
        vec!["a"],
        vec!["a"],
        vec!["b", "c"],
        vec!["b", "a"],
        vec!["c", "b"],
        vec!["c"],
    ];
    assert_eq!(
        run_election(&voters, MajorityMode::CompleteMajority),
        Ok(ElectionResult::Winner(&"a"))
    );
    assert_eq!(
        run_election(&voters, MajorityMode::RemainingMajority),
        Ok(ElectionResult::Winner(&"a"))
    );
}

#[test]
fn one_candidate_short_of_a_complete_majority() {
    // One candidate, four voters, one vote: the candidate is eliminated in
    // the first round and the second has no votes.
    let voters = vec![vec!["a"], vec![], vec![], vec![]];
    assert_eq!(
        run_election(&voters, MajorityMode::CompleteMajority),
        Err(ElectionError::VotersNoVotes)
    );
    assert_eq!(
        run_election(&voters, MajorityMode::RemainingMajority),
        Ok(ElectionResult::Winner(&"a"))
    );
}

#[test]
fn repeated_candidate_on_a_ballot() {
    let voters = vec![vec!["a", "a", "b"], vec!["b", "b"], vec!["b"]];
    assert_eq!(
        run_election(&voters, MajorityMode::CompleteMajority),
        Ok(ElectionResult::Winner(&"b"))
    );
}

#[test]
fn owned_strings_as_candidates() {
    let voters = vec![
        vec![String::from("x"), String::from("y")],
        vec![String::from("y")],
        vec![String::from("y"), String::from("x")],
    ];
    let y = String::from("y");
    assert_eq!(
        run_election(&voters, MajorityMode::CompleteMajority),
        Ok(ElectionResult::Winner(&y))
    );
}

#[test]
fn error_descriptions() {
    assert_eq!(ElectionError::EmptyVoteCollection.description(), "Vote Collection is empty");
    assert_eq!(ElectionError::VotersNoVotes.description(), "There were voters, but no votes");
    assert_eq!(ElectionError::Overflow.description(), "An integer overflow occured");
}

#[test]
fn error_summary() {
    assert_eq!(ElectionError::EmptyVoteCollection.summary(), "Error with election input");
    assert_eq!(ElectionError::VotersNoVotes.summary(), "Error with election input");
    assert_eq!(ElectionError::Overflow.summary(), "Error with election input");
}
