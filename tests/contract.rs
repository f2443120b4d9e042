use conflict_registry::model::ConflictError;
use conflict_registry::registry::Contract;

fn id(s: &str) -> String {
    s.to_string()
}

fn registry_with_ballots(choices: &[bool]) -> Contract {
    let mut contract = Contract::default();
    contract.create_conflict(&id("harry.near"), 6).unwrap();
    for (i, c) in choices.iter().enumerate() {
        contract.vote_on_conflict(&format!("voter{}.near", i), 1, *c).unwrap();
    }
    contract
}

#[test]
fn test_get_default_conflicts() {
    let contract = Contract::default();
    assert_eq!(contract.get_conflict_count(), 0);
}

#[test]
fn test_create_new_conflict() {
    let mut contract = Contract::default();
    let acc = id("harry.near");
    contract.create_conflict(&acc, 3).unwrap();
    assert_eq!(contract.get_conflict_count(), 1);
}

#[test]
fn test_vote_on_conflict() {
    let mut contract = Contract::default();
    let acc1 = id("harry.near");
    contract.create_conflict(&acc1, 5).unwrap();
    let acc2 = id("mikky.near");
    let r = contract.vote_on_conflict(&acc2, 1, true);
    assert_eq!(r, Ok(()));
}

#[test]
fn test_close_conflict() {
    let mut contract = Contract::default();
    let acc1 = id("harry.near");
    contract.create_conflict(&acc1, 6).unwrap();
    contract.vote_on_conflict(&id("kurt.near"), 1, true).unwrap();
    contract.vote_on_conflict(&id("weiler.near"), 1, false).unwrap();
    contract.vote_on_conflict(&id("brandon.near"), 1, true).unwrap();
    contract.vote_on_conflict(&id("snow.near"), 1, true).unwrap();
    let result = contract.close_conflict(&acc1, 1);
    assert_eq!(result, Ok(true));
}

#[test]
fn test_null_conflict() {
    let mut contract = Contract::default();
    let acc1 = id("harry.near");
    contract.create_conflict(&acc1, 6).unwrap();
    let result = contract.null_conflict(&acc1, 1);
    assert_eq!(result, Ok(true));
}

#[test]
fn fresh_registry_has_no_votes_anywhere() {
    let contract = Contract::default();
    assert_eq!(contract.get_conflict_count(), 0);
    assert!(contract.get_all_votes(0).is_empty());
    assert!(contract.get_all_votes(1).is_empty());
    assert!(contract.get_all_votes(u128::MAX).is_empty());
    assert_eq!(contract.get_valid_count(), 0);
    assert_eq!(contract.get_invalid_count(), 0);
    assert_eq!(contract.get_null_count(), 0);
}

#[test]
fn creation_assigns_sequential_ids() {
    let mut contract = Contract::default();
    assert_eq!(contract.create_conflict(&id("harry.near"), 40), Ok(1));
    assert_eq!(contract.create_conflict(&id("harry.near"), 41), Ok(2));
    assert_eq!(contract.create_conflict(&id("harry.near"), 40), Ok(3));
    assert_eq!(contract.get_conflict_count(), 3);
    assert!(contract.get_all_votes(3).is_empty());
    assert_eq!(contract.get_fate(3), None);
    assert_eq!(contract.get_proposal_id(2), Some(41));
    assert_eq!(contract.get_proposal_id(3), Some(40));
    assert_eq!(contract.get_proposal_id(0), None);
    assert_eq!(contract.get_proposal_id(4), None);
}

#[test]
fn creation_by_others_is_unauthorized() {
    let mut contract = Contract::default();
    assert_eq!(contract.create_conflict(&id("mikky.near"), 3), Err(ConflictError::Unauthorized));
    assert_eq!(contract.create_conflict(&id(""), 3), Err(ConflictError::Unauthorized));
    assert_eq!(contract.get_conflict_count(), 0);
}

#[test]
fn configured_authority_replaces_default() {
    let mut contract = Contract::new(id("lead.near"));
    assert_eq!(contract.create_conflict(&id("harry.near"), 1), Err(ConflictError::Unauthorized));
    assert_eq!(contract.create_conflict(&id("lead.near"), 1), Ok(1));
    contract.vote_on_conflict(&id("a.near"), 1, true).unwrap();
    assert_eq!(contract.close_conflict(&id("harry.near"), 1), Err(ConflictError::Unauthorized));
    assert_eq!(contract.close_conflict(&id("lead.near"), 1), Ok(true));
}

#[test]
fn votes_are_returned_in_order_cast() {
    let mut contract = Contract::default();
    contract.create_conflict(&id("harry.near"), 9).unwrap();
    contract.vote_on_conflict(&id("a.near"), 1, true).unwrap();
    contract.vote_on_conflict(&id("b.near"), 1, false).unwrap();
    contract.vote_on_conflict(&id("harry.near"), 1, false).unwrap();
    assert_eq!(
        contract.get_all_votes(1),
        vec![(id("a.near"), true), (id("b.near"), false), (id("harry.near"), false)]
    );
    assert!(contract.get_all_votes(2).is_empty());
}

#[test]
fn second_vote_is_a_duplicate() {
    let mut contract = Contract::default();
    contract.create_conflict(&id("harry.near"), 9).unwrap();
    contract.vote_on_conflict(&id("a.near"), 1, true).unwrap();
    assert_eq!(contract.vote_on_conflict(&id("a.near"), 1, true), Err(ConflictError::DuplicateVote));
    assert_eq!(contract.vote_on_conflict(&id("a.near"), 1, false), Err(ConflictError::DuplicateVote));
    assert_eq!(contract.get_all_votes(1), vec![(id("a.near"), true)]);
}

#[test]
fn vote_on_missing_or_resolved_conflict() {
    let mut contract = Contract::default();
    assert_eq!(contract.vote_on_conflict(&id("a.near"), 0, true), Err(ConflictError::NotFound));
    assert_eq!(contract.vote_on_conflict(&id("a.near"), 1, true), Err(ConflictError::NotFound));
    contract.create_conflict(&id("harry.near"), 9).unwrap();
    assert_eq!(contract.vote_on_conflict(&id("a.near"), 2, true), Err(ConflictError::NotFound));
    contract.null_conflict(&id("harry.near"), 1).unwrap();
    assert_eq!(contract.vote_on_conflict(&id("a.near"), 1, true), Err(ConflictError::AlreadyResolved));
    assert!(contract.get_all_votes(1).is_empty());
}

#[test]
fn close_resolves_by_majority() {
    let mut contract = registry_with_ballots(&[true, false, true, true]);
    assert_eq!(contract.close_conflict(&id("harry.near"), 1), Ok(true));
    assert_eq!(contract.get_fate(1), Some(true));

    let mut contract = registry_with_ballots(&[true, false, false]);
    assert_eq!(contract.close_conflict(&id("harry.near"), 1), Ok(false));
    assert_eq!(contract.get_fate(1), Some(false));
    assert_eq!(contract.get_invalid_count(), 1);
}

#[test]
fn close_treats_tie_as_valid() {
    let mut contract = registry_with_ballots(&[true, false]);
    assert_eq!(contract.close_conflict(&id("harry.near"), 1), Ok(true));
    assert_eq!(contract.get_valid_count(), 1);
}

#[test]
fn close_twice_is_rejected() {
    let mut contract = registry_with_ballots(&[true]);
    assert_eq!(contract.close_conflict(&id("harry.near"), 1), Ok(true));
    assert_eq!(contract.close_conflict(&id("harry.near"), 1), Err(ConflictError::AlreadyResolved));
    assert_eq!(contract.null_conflict(&id("harry.near"), 1), Err(ConflictError::AlreadyResolved));
    assert_eq!(contract.get_valid_count(), 1);
}

#[test]
fn close_checks_authority_before_existence() {
    let mut contract = Contract::default();
    assert_eq!(contract.close_conflict(&id("mikky.near"), 7), Err(ConflictError::Unauthorized));
    assert_eq!(contract.close_conflict(&id("harry.near"), 7), Err(ConflictError::NotFound));
    assert_eq!(contract.null_conflict(&id("mikky.near"), 7), Err(ConflictError::Unauthorized));
    assert_eq!(contract.null_conflict(&id("harry.near"), 0), Err(ConflictError::NotFound));
}

#[test]
fn close_without_support_is_rejected() {
    let mut contract = registry_with_ballots(&[false, false]);
    assert_eq!(contract.close_conflict(&id("harry.near"), 1), Err(ConflictError::NoSupportingVotes));
    assert_eq!(contract.get_fate(1), None);
    assert_eq!(contract.get_invalid_count(), 0);
    assert_eq!(contract.vote_on_conflict(&id("late.near"), 1, true), Ok(()));

    let mut empty = registry_with_ballots(&[]);
    assert_eq!(empty.close_conflict(&id("harry.near"), 1), Err(ConflictError::NoSupportingVotes));
}

#[test]
fn null_is_rejected_on_retry() {
    let mut contract = registry_with_ballots(&[]);
    assert_eq!(contract.null_conflict(&id("harry.near"), 1), Ok(true));
    assert_eq!(contract.null_conflict(&id("harry.near"), 1), Err(ConflictError::AlreadyResolved));
    assert_eq!(contract.get_fate(1), Some(false));
    assert_eq!(contract.get_null_count(), 1);
}

#[test]
fn null_refuses_supporting_ballots() {
    let mut contract = registry_with_ballots(&[false, true]);
    assert_eq!(contract.null_conflict(&id("harry.near"), 1), Err(ConflictError::UnexpectedSupportingVotes));
    assert_eq!(contract.get_fate(1), None);

    let mut against = registry_with_ballots(&[false, false]);
    assert_eq!(against.null_conflict(&id("harry.near"), 1), Ok(true));
    assert_eq!(against.get_invalid_count(), 0);
}

fn three_outcomes(order: &[usize]) -> Contract {
    let lead = id("harry.near");
    let mut contract = Contract::default();
    for p in 0..3u128 {
        contract.create_conflict(&lead, p).unwrap();
    }
    contract.vote_on_conflict(&id("a.near"), 1, true).unwrap();
    contract.vote_on_conflict(&id("a.near"), 2, true).unwrap();
    contract.vote_on_conflict(&id("b.near"), 2, false).unwrap();
    contract.vote_on_conflict(&id("c.near"), 2, false).unwrap();
    for k in order {
        match k {
            0 => assert_eq!(contract.close_conflict(&lead, 1), Ok(true)),
            1 => assert_eq!(contract.close_conflict(&lead, 2), Ok(false)),
            _ => assert_eq!(contract.null_conflict(&lead, 3), Ok(true)),
        }
    }
    contract
}

#[test]
fn counters_track_each_outcome_in_any_order() {
    for order in [[0, 1, 2], [2, 1, 0], [1, 2, 0]] {
        let contract = three_outcomes(&order);
        assert_eq!(contract.get_valid_count(), 1);
        assert_eq!(contract.get_invalid_count(), 1);
        assert_eq!(contract.get_null_count(), 1);
        assert_eq!(contract.get_fate(1), Some(true));
        assert_eq!(contract.get_fate(2), Some(false));
        assert_eq!(contract.get_fate(3), Some(false));
    }
}
