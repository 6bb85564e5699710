use chaoschain::consensus::{ConsensusManager, Error, Vote};
use chaoschain::types::Block;

fn block(height: u64, producer: &str) -> Block {
    Block {
        parent_hash: [0u8; 32],
        height,
        transactions: Vec::new(),
        state_root: [0u8; 32],
        proposer_sig: [0u8; 64],
        drama_level: 3,
        producer_mood: String::from("excited"),
        producer_id: String::from(producer),
    }
}

fn vote(agent: &str, hash: [u8; 32], approve: bool, reason: &str) -> Vote {
    Vote {
        agent_id: String::from(agent),
        block_hash: hash,
        approve,
        reason: String::from(reason),
        meme_url: None,
        signature: [0u8; 64],
    }
}

#[test]
fn approval_crossing_threshold_resolves_true() {
    // Total stake 300, threshold 67/100: a side needs more than 201.
    let mut manager = ConsensusManager::new(300, 67, 100);
    let b = block(1, "prod");
    let hash = b.hash();
    manager.start_voting_round(b).unwrap();

    assert!(matches!(
        manager.add_vote(vote("v1", hash, true, "fine"), 100),
        Err(Error::InsufficientStake)
    ));
    assert!(matches!(
        manager.add_vote(vote("v2", hash, true, "fine"), 100),
        Err(Error::InsufficientStake)
    ));
    // Third approval: 300 > 201, the round resolves true.
    assert_eq!(manager.add_vote(vote("v3", hash, true, "fine"), 100).unwrap(), true);

    // Further votes are refused: the round is over.
    assert!(matches!(
        manager.add_vote(vote("v4", hash, true, "late"), 100),
        Err(Error::NoActiveRound)
    ));
}

#[test]
fn rejection_crossing_threshold_resolves_false() {
    let mut manager = ConsensusManager::new(300, 67, 100);
    let b = block(1, "prod");
    let hash = b.hash();
    manager.start_voting_round(b).unwrap();

    assert!(matches!(
        manager.add_vote(vote("v1", hash, false, "boring"), 100),
        Err(Error::InsufficientStake)
    ));
    assert!(matches!(
        manager.add_vote(vote("v2", hash, false, "boring"), 100),
        Err(Error::InsufficientStake)
    ));
    assert_eq!(manager.add_vote(vote("v3", hash, false, "boring"), 100).unwrap(), false);
    assert!(matches!(
        manager.add_vote(vote("v4", hash, true, "late"), 100),
        Err(Error::NoActiveRound)
    ));
}

#[test]
fn revote_overwrites_instead_of_double_counting() {
    // The worked example: total stake 300, threshold 0.67 (so a side needs
    // 202), three validators of stake 100 each.
    let mut manager = ConsensusManager::new(300, 67, 100);
    let b = block(1, "prod");
    let hash = b.hash();
    manager.start_voting_round(b).unwrap();

    // v1 approves, v2 approves: approve stake 200 < 202.
    assert!(matches!(
        manager.add_vote(vote("v1", hash, true, "yes"), 100),
        Err(Error::InsufficientStake)
    ));
    assert!(matches!(
        manager.add_vote(vote("v2", hash, true, "yes"), 100),
        Err(Error::InsufficientStake)
    ));
    // v1 flips to reject: approve 100, reject 100.
    assert!(matches!(
        manager.add_vote(vote("v1", hash, false, "changed my mind"), 100),
        Err(Error::InsufficientStake)
    ));
    // v3 approves: approve 200, still below 202.
    assert!(matches!(
        manager.add_vote(vote("v3", hash, true, "yes"), 100),
        Err(Error::InsufficientStake)
    ));
    // Still one vote per agent.
    assert_eq!(manager.get_votes().len(), 3);
    // v1 flips back to approve: approve 300 crosses.
    assert_eq!(manager.add_vote(vote("v1", hash, true, "back again"), 100).unwrap(), true);
}

#[test]
fn start_twice_without_resolution_is_refused() {
    let mut manager = ConsensusManager::new(300, 67, 100);
    let b1 = block(1, "prod");
    let hash1 = b1.hash();
    manager.start_voting_round(b1).unwrap();
    assert!(matches!(
        manager.add_vote(vote("v1", hash1, true, "yes"), 100),
        Err(Error::InsufficientStake)
    ));

    let b2 = block(2, "prod");
    assert!(matches!(manager.start_voting_round(b2), Err(Error::RoundAlreadyActive)));

    // The original round is untouched: same block, same votes.
    let current = manager.get_current_block().unwrap();
    assert_eq!(current.height, 1);
    assert_eq!(current.hash(), hash1);
    let votes = manager.get_votes();
    assert_eq!(votes.len(), 1);
    assert_eq!(votes[0].agent_id, "v1");
}

#[test]
fn completed_round_allows_a_new_start() {
    let mut manager = ConsensusManager::new(100, 67, 100);
    let b1 = block(1, "prod");
    let hash1 = b1.hash();
    manager.start_voting_round(b1).unwrap();
    assert_eq!(manager.add_vote(vote("v1", hash1, true, "yes"), 100).unwrap(), true);

    let b2 = block(2, "prod");
    manager.start_voting_round(b2).unwrap();
    assert_eq!(manager.get_votes().len(), 0);
    assert_eq!(manager.get_current_block().unwrap().height, 2);
}

#[test]
fn vote_for_wrong_block_is_refused() {
    let mut manager = ConsensusManager::new(300, 67, 100);
    let b = block(1, "prod");
    manager.start_voting_round(b).unwrap();
    let other_hash = block(9, "other").hash();
    assert!(matches!(
        manager.add_vote(vote("v1", other_hash, true, "yes"), 100),
        Err(Error::WrongBlock)
    ));
    assert_eq!(manager.get_votes().len(), 0);
}

#[test]
fn vote_without_round_is_refused() {
    let mut manager = ConsensusManager::new(300, 67, 100);
    let hash = block(1, "prod").hash();
    assert!(matches!(
        manager.add_vote(vote("v1", hash, true, "yes"), 100),
        Err(Error::NoActiveRound)
    ));
}

#[test]
fn rejection_reasons_accumulate_as_feedback() {
    let mut manager = ConsensusManager::new(1000, 67, 100);
    let b = block(1, "alice");
    let hash = b.hash();
    manager.start_voting_round(b).unwrap();

    assert!(matches!(
        manager.add_vote(vote("v1", hash, false, "too dull"), 100),
        Err(Error::InsufficientStake)
    ));
    assert!(matches!(
        manager.add_vote(vote("v2", hash, false, "needs memes"), 100),
        Err(Error::InsufficientStake)
    ));

    let feedback = manager.get_and_clear_feedback("alice");
    assert_eq!(feedback, vec![String::from("too dull"), String::from("needs memes")]);
}

#[test]
fn feedback_is_drained_exactly_once() {
    let mut manager = ConsensusManager::new(300, 67, 100);
    manager.store_feedback(String::from("alice"), String::from("more drama"));
    manager.store_feedback(String::from("alice"), String::from("less prose"));
    manager.store_feedback(String::from("bob"), String::from("fine work"));

    let first = manager.get_and_clear_feedback("alice");
    assert_eq!(first, vec![String::from("more drama"), String::from("less prose")]);
    let second = manager.get_and_clear_feedback("alice");
    assert!(second.is_empty());
    // Another producer's feedback is untouched.
    assert_eq!(manager.get_and_clear_feedback("bob"), vec![String::from("fine work")]);
}

#[test]
fn snapshot_shows_recorded_votes() {
    let mut manager = ConsensusManager::new(1000, 67, 100);
    let b = block(1, "prod");
    let hash = b.hash();
    manager.start_voting_round(b).unwrap();
    assert!(manager.add_vote(vote("v1", hash, true, "yes"), 10).is_err());
    let votes = manager.get_votes();
    assert_eq!(votes.len(), 1);
    assert_eq!(votes[0].agent_id, "v1");
    assert!(votes[0].approve);
    assert_eq!(votes[0].reason, "yes");
}
