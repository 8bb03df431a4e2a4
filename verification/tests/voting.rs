use ranked_choice::errors::VotingError;
use ranked_choice::voting::RankedChoiceVoting;

fn s(x: &str) -> String {
    x.to_string()
}

fn ballot(ids: &[&str]) -> Vec<String> {
    ids.iter().map(|x| s(x)).collect()
}

fn init_contract() -> RankedChoiceVoting {
    RankedChoiceVoting::new(false, s("owner"), ballot(&["a", "b", "c"])).unwrap()
}

#[test]
fn no_voters() {
    let contract = init_contract();
    assert!(contract.get_winner().is_none());
    assert_eq!(contract.get_candidates().len(), 3);
}

#[test]
fn lib_no_voters() {
    let contract = init_contract();
    assert!(contract.get_winner().is_none());
}

#[test]
fn multiple_voters() {
    let mut contract = init_contract();

    contract.vote(s("bob"), ballot(&["b", "a", "c"])).unwrap();
    assert_eq!(contract.get_winner().unwrap(), "b");

    contract.vote(s("alice"), ballot(&["a", "c", "b"])).unwrap();
    contract.vote(s("joe"), ballot(&["b", "a", "c"])).unwrap();
    contract.vote(s("john"), ballot(&["a", "c"])).unwrap();
    contract.vote(s("jane"), ballot(&["b", "a", "c"])).unwrap();

    assert_eq!(&contract.get_winner().unwrap(), "a");
}

#[test]
fn lib_multiple_voters() {
    let mut contract = init_contract();

    contract.vote(s("bob"), ballot(&["b", "a", "c"])).unwrap();
    assert_eq!(contract.get_winner().unwrap(), "b");

    contract.vote(s("alice"), ballot(&["a", "c", "b"])).unwrap();
    contract.vote(s("joe"), ballot(&["b", "a", "c"])).unwrap();
    contract.vote(s("john"), ballot(&["a", "c"])).unwrap();
    contract.vote(s("jane"), ballot(&["b", "a", "c"])).unwrap();

    assert_eq!(&contract.get_winner().unwrap(), "a");
}

#[test]
fn invalid_candidate() {
    let mut contract = init_contract();
    let r = contract.vote(s("bob"), ballot(&["invalid", "a"]));
    assert_eq!(r, Err(VotingError::InvalidCandidateInBallot));
    assert!(contract.get_winner().is_none());
}

#[test]
fn unregistered_single_candidate() {
    let mut contract = init_contract();
    let r = contract.vote(s("bob"), ballot(&["z"]));
    assert_eq!(r, Err(VotingError::InvalidCandidateInBallot));
}

#[test]
fn duplicate_candidate_in_ballot() {
    let mut contract = init_contract();
    contract.vote(s("bob"), ballot(&["b", "a"])).unwrap();
    let r = contract.vote(s("bob"), ballot(&["a", "a"]));
    assert_eq!(r, Err(VotingError::DuplicateCandidateInBallot));
    // The rejected ballot left bob's earlier one in place.
    assert_eq!(contract.get_winner().unwrap(), "b");
}

#[test]
fn already_initialized() {
    let r = RankedChoiceVoting::new(true, s("owner"), ballot(&["a"]));
    assert_eq!(r.err(), Some(VotingError::AlreadyInitialized));
}

#[test]
fn registry_collapses_duplicates() {
    let contract =
        RankedChoiceVoting::new(false, s("owner"), ballot(&["a", "a", "b", "a"])).unwrap();
    let listed = contract.get_candidates();
    assert_eq!(listed.len(), 2);
    assert!(listed.contains(&s("a")));
    assert!(listed.contains(&s("b")));
}

#[test]
fn revote_keeps_only_second_ballot() {
    let mut contract = init_contract();
    contract.vote(s("bob"), ballot(&["a", "b"])).unwrap();
    assert_eq!(contract.get_winner().unwrap(), "a");
    contract.vote(s("bob"), ballot(&["b", "a"])).unwrap();
    // Only the second ballot counts: the tally now favours b.
    assert_eq!(contract.get_winner().unwrap(), "b");
}

#[test]
fn empty_and_single_entry_ballots_score_nothing() {
    let mut contract = init_contract();
    contract.vote(s("bob"), Vec::new()).unwrap();
    assert!(contract.get_winner().is_none());
    contract.vote(s("alice"), ballot(&["a"])).unwrap();
    // A one-entry ballot awards 1 - 1 - 0 = 0 points: still no winner.
    assert!(contract.get_winner().is_none());
}

#[test]
fn tie_breaks_to_lexicographically_smallest() {
    let mut contract =
        RankedChoiceVoting::new(false, s("owner"), ballot(&["b", "a"])).unwrap();
    contract.vote(s("v1"), ballot(&["a", "b"])).unwrap();
    contract.vote(s("v2"), ballot(&["b", "a"])).unwrap();
    // a and b both score 1; the smaller identifier wins.
    assert_eq!(contract.get_winner().unwrap(), "a");
}

#[test]
fn second_worked_example() {
    let mut contract = init_contract();
    contract.vote(s("v1"), ballot(&["c", "b", "a"])).unwrap();
    contract.vote(s("v2"), ballot(&["c", "a", "b"])).unwrap();
    assert_eq!(contract.get_winner().unwrap(), "c");
}

#[test]
fn decide_succeeds_exactly_once() {
    let mut contract = init_contract();
    contract.vote(s("bob"), ballot(&["b", "a", "c"])).unwrap();
    assert_eq!(contract.decide(s("owner")), Ok(()));
    assert!(contract.is_decided());
    assert_eq!(contract.decide(s("owner")), Err(VotingError::AlreadyDecided));
    assert_eq!(contract.get_winner().unwrap(), "b");
}

#[test]
fn decide_requires_administrator() {
    let mut contract = init_contract();
    assert_eq!(contract.decide(s("mallory")), Err(VotingError::NotAuthorized));
    assert!(!contract.is_decided());
    // The state is still open: the winner keeps tracking the ballots.
    contract.vote(s("bob"), ballot(&["c", "a"])).unwrap();
    assert_eq!(contract.get_winner().unwrap(), "c");
}

#[test]
fn decided_winner_is_frozen() {
    let mut contract = init_contract();
    contract.vote(s("bob"), ballot(&["b", "a", "c"])).unwrap();
    contract.decide(s("owner")).unwrap();
    assert_eq!(contract.get_winner().unwrap(), "b");
    // Later ballots are stored but no longer move the reported winner.
    contract.vote(s("alice"), ballot(&["c", "a", "b"])).unwrap();
    contract.vote(s("jane"), ballot(&["c", "b", "a"])).unwrap();
    contract.vote(s("joe"), ballot(&["c", "a", "b"])).unwrap();
    assert_eq!(contract.get_winner().unwrap(), "b");
}

#[test]
fn decide_with_no_ballots_freezes_empty_result() {
    let mut contract = init_contract();
    contract.decide(s("owner")).unwrap();
    assert!(contract.get_winner().is_none());
    // The empty result is locked like any other.
    contract.vote(s("bob"), ballot(&["b", "a"])).unwrap();
    assert!(contract.get_winner().is_none());
    assert_eq!(contract.decide(s("owner")), Err(VotingError::AlreadyDecided));
}

#[test]
fn partial_ballots_score_by_their_own_length() {
    let mut contract = init_contract();
    // [b,a,c] gives b 2 and a 1; the two-entry [a,c] gives a 1.
    contract.vote(s("v1"), ballot(&["b", "a", "c"])).unwrap();
    contract.vote(s("v2"), ballot(&["a", "c"])).unwrap();
    // b has 2, a has 1 + 1 = 2: tie, broken toward a.
    assert_eq!(contract.get_winner().unwrap(), "a");
}
