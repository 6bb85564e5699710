use chaoschain::consensus::{Agent, AgentPersonality};
use chaoschain::types::{create_genesis_block, Block, Transaction};

fn sample_block() -> Block {
    Block {
        parent_hash: [1u8; 32],
        height: 7,
        transactions: vec![Transaction {
            sender: [2u8; 32],
            nonce: 4,
            payload: vec![10, 20, 30],
            signature: [3u8; 64],
        }],
        state_root: [4u8; 32],
        proposer_sig: [5u8; 64],
        drama_level: 9,
        producer_mood: String::from("chaotic"),
        producer_id: String::from("alice"),
    }
}

#[test]
fn hash_is_deterministic() {
    let b = sample_block();
    assert_eq!(b.hash(), b.hash());
    let again = b.clone();
    assert_eq!(b.hash(), again.hash());
}

#[test]
fn changing_any_field_changes_the_hash() {
    let base = sample_block();
    let h = base.hash();

    let mut changed = base.clone();
    changed.height = 8;
    assert_ne!(changed.hash(), h);

    let mut changed = base.clone();
    changed.parent_hash[0] = 99;
    assert_ne!(changed.hash(), h);

    let mut changed = base.clone();
    changed.transactions[0].payload[1] = 99;
    assert_ne!(changed.hash(), h);

    let mut changed = base.clone();
    changed.state_root[31] = 99;
    assert_ne!(changed.hash(), h);

    let mut changed = base.clone();
    changed.proposer_sig[63] = 99;
    assert_ne!(changed.hash(), h);

    let mut changed = base.clone();
    changed.drama_level = 0;
    assert_ne!(changed.hash(), h);

    let mut changed = base.clone();
    changed.producer_mood = String::from("calm");
    assert_ne!(changed.hash(), h);

    let mut changed = base.clone();
    changed.producer_id = String::from("bob");
    assert_ne!(changed.hash(), h);
}

#[test]
fn encoding_covers_every_field_in_order() {
    let b = sample_block();
    let bytes = b.encode();
    // height(8) + parent(32) + count(8) + one record(32+8+8+3+64)
    // + state_root(32) + sig(64) + drama(1)
    // + mood len(8) + "chaotic"(7) + id len(8) + "alice"(5)
    assert_eq!(bytes.len(), 8 + 32 + 8 + (32 + 8 + 8 + 3 + 64) + 32 + 64 + 1 + 8 + 7 + 8 + 5);
    // Big-endian height leads the encoding.
    assert_eq!(&bytes[0..8], &[0, 0, 0, 0, 0, 0, 0, 7]);
}

#[test]
fn genesis_block_has_the_expected_fields() {
    let genesis = create_genesis_block(String::from("let there be chaos"));
    assert_eq!(genesis.height, 0);
    assert_eq!(genesis.parent_hash, [0u8; 32]);
    assert!(genesis.transactions.is_empty());
    assert_eq!(genesis.state_root, [0u8; 32]);
    assert_eq!(genesis.proposer_sig, [0u8; 64]);
    assert_eq!(genesis.drama_level, 0);
    assert_eq!(genesis.producer_mood, "let there be chaos");
    assert_eq!(genesis.producer_id, "Spore");
}

#[test]
fn new_agent_has_default_stake_and_no_history() {
    let agent = Agent::new([9u8; 32], AgentPersonality::Chaotic);
    assert_eq!(agent.public_key, [9u8; 32]);
    assert!(matches!(agent.personality, AgentPersonality::Chaotic));
    assert_eq!(agent.mood, "");
    assert_eq!(agent.stake, 100);
    assert!(agent.decision_history.is_empty());
}

#[test]
fn personality_indices_cover_all_nine() {
    assert!(matches!(AgentPersonality::from_index(0), AgentPersonality::Lawful));
    assert!(matches!(AgentPersonality::from_index(1), AgentPersonality::Neutral));
    assert!(matches!(AgentPersonality::from_index(2), AgentPersonality::Chaotic));
    assert!(matches!(AgentPersonality::from_index(3), AgentPersonality::Memetic));
    assert!(matches!(AgentPersonality::from_index(4), AgentPersonality::Greedy));
    assert!(matches!(AgentPersonality::from_index(5), AgentPersonality::Dramatic));
    assert!(matches!(AgentPersonality::from_index(6), AgentPersonality::Rational));
    assert!(matches!(AgentPersonality::from_index(7), AgentPersonality::Emotional));
    assert!(matches!(AgentPersonality::from_index(8), AgentPersonality::Strategic));
    // The random draw lands on one of them without panicking.
    let _ = AgentPersonality::random();
}
