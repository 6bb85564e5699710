use chaoschain::producer::{MempoolMessage, MempoolParticle};
use chaoschain::types::Transaction;

fn tx(nonce: u64) -> Transaction {
    Transaction { sender: [1u8; 32], nonce, payload: vec![nonce as u8], signature: [0u8; 64] }
}

#[test]
fn particle_serves_submissions_in_arrival_order() {
    let mut particle = MempoolParticle::new(100);
    assert!(particle.handle_message(MempoolMessage::SubmitTransaction(tx(1))).is_empty());
    assert!(particle.handle_message(MempoolMessage::SubmitTransaction(tx(2))).is_empty());
    assert!(particle.handle_message(MempoolMessage::SubmitTransaction(tx(3))).is_empty());

    let served = particle.handle_message(MempoolMessage::RequestTransactions {
        max_count: 2,
        max_size: 1_000_000,
    });
    assert_eq!(served.len(), 2);
    assert_eq!(served[0].nonce, 1);
    assert_eq!(served[1].nonce, 2);
}

#[test]
fn particle_drops_included_transactions() {
    let mut particle = MempoolParticle::new(100);
    particle.handle_message(MempoolMessage::SubmitTransaction(tx(1)));
    particle.handle_message(MempoolMessage::SubmitTransaction(tx(2)));
    assert!(particle
        .handle_message(MempoolMessage::TransactionsIncluded(vec![tx(1)]))
        .is_empty());

    let served = particle.handle_message(MempoolMessage::RequestTransactions {
        max_count: 10,
        max_size: 1_000_000,
    });
    assert_eq!(served.len(), 1);
    assert_eq!(served[0].nonce, 2);
}

#[test]
fn particle_resubmission_is_idempotent() {
    let mut particle = MempoolParticle::new(100);
    particle.handle_message(MempoolMessage::SubmitTransaction(tx(1)));
    particle.handle_message(MempoolMessage::SubmitTransaction(tx(1)));
    let served = particle.handle_message(MempoolMessage::RequestTransactions {
        max_count: 10,
        max_size: 1_000_000,
    });
    assert_eq!(served.len(), 1);
}
