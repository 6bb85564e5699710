use chaoschain::mempool::Mempool;
use chaoschain::types::{Error, Transaction};

fn tx(nonce: u64, payload: Vec<u8>) -> Transaction {
    Transaction { sender: [7u8; 32], nonce, payload, signature: [0u8; 64] }
}

#[test]
fn test_mempool_ordering() {
    let mut mempool = Mempool::new(1000);
    let public_key = [7u8; 32];

    let tx1 = Transaction { sender: public_key, nonce: 1, payload: vec![], signature: [0; 64] };
    let tx2 = Transaction { sender: public_key, nonce: 2, payload: vec![], signature: [0; 64] };

    mempool.add_tx(tx1.clone(), 10).unwrap();
    mempool.add_tx(tx2.clone(), 20).unwrap();

    let top_txs = mempool.get_top(2);
    assert_eq!(top_txs.len(), 2);
    assert_eq!(top_txs[0].nonce, 2); // Higher priority first
    assert_eq!(top_txs[1].nonce, 1);
}

#[test]
fn add_same_transaction_twice_is_idempotent() {
    let mut mempool = Mempool::new(10);
    let t = tx(1, vec![1, 2, 3]);
    mempool.add_tx(t.clone(), 5).unwrap();
    mempool.add_tx(t.clone(), 5).unwrap();
    assert_eq!(mempool.get_top(10).len(), 1);
}

#[test]
fn resubmission_with_other_priority_is_still_idempotent() {
    let mut mempool = Mempool::new(10);
    let t = tx(1, vec![1, 2, 3]);
    mempool.add_tx(t.clone(), 5).unwrap();
    mempool.add_tx(t.clone(), 99).unwrap();
    assert_eq!(mempool.get_top(10).len(), 1);
}

#[test]
fn same_content_other_signature_is_the_same_transaction() {
    let mut mempool = Mempool::new(10);
    let a = Transaction { sender: [7u8; 32], nonce: 1, payload: vec![9], signature: [0u8; 64] };
    let b = Transaction { sender: [7u8; 32], nonce: 1, payload: vec![9], signature: [1u8; 64] };
    mempool.add_tx(a, 5).unwrap();
    mempool.add_tx(b, 5).unwrap();
    assert_eq!(mempool.get_top(10).len(), 1);
}

#[test]
fn full_pool_refuses_new_transaction() {
    let mut mempool = Mempool::new(2);
    mempool.add_tx(tx(1, vec![]), 1).unwrap();
    mempool.add_tx(tx(2, vec![]), 2).unwrap();
    let refused = mempool.add_tx(tx(3, vec![]), 3);
    assert!(matches!(refused, Err(Error::MempoolFull)));
    // A known transaction is still accepted as a no-op.
    assert!(mempool.add_tx(tx(1, vec![]), 1).is_ok());
    assert_eq!(mempool.get_top(10).len(), 2);
}

#[test]
fn top_orders_by_priority_regardless_of_insertion_order() {
    let mut mempool = Mempool::new(10);
    mempool.add_tx(tx(1, vec![]), 10).unwrap();
    mempool.add_tx(tx(2, vec![]), 30).unwrap();
    mempool.add_tx(tx(3, vec![]), 20).unwrap();

    let top2 = mempool.get_top(2);
    assert_eq!(top2.len(), 2);
    assert_eq!(top2[0].nonce, 2); // priority 30
    assert_eq!(top2[1].nonce, 3); // priority 20

    let top3 = mempool.get_top(3);
    assert_eq!(top3.len(), 3);
    assert_eq!(top3[0].nonce, 2); // 30
    assert_eq!(top3[1].nonce, 3); // 20
    assert_eq!(top3[2].nonce, 1); // 10

    // Stable: repeated calls with no mutation in between agree.
    let again = mempool.get_top(3);
    for (x, y) in top3.iter().zip(again.iter()) {
        assert_eq!(x.nonce, y.nonce);
    }
}

#[test]
fn top_breaks_priority_ties_by_arrival() {
    let mut mempool = Mempool::new(10);
    mempool.add_tx(tx(1, vec![]), 5).unwrap();
    mempool.add_tx(tx(2, vec![]), 5).unwrap();
    mempool.add_tx(tx(3, vec![]), 5).unwrap();
    let top = mempool.get_top(3);
    assert_eq!(top[0].nonce, 1);
    assert_eq!(top[1].nonce, 2);
    assert_eq!(top[2].nonce, 3);
}

#[test]
fn removed_transactions_never_come_back_out() {
    let mut mempool = Mempool::new(10);
    mempool.add_tx(tx(1, vec![]), 10).unwrap();
    mempool.add_tx(tx(2, vec![]), 30).unwrap();
    mempool.add_tx(tx(3, vec![]), 20).unwrap();

    mempool.remove_included(&[tx(2, vec![])]);
    let top = mempool.get_top(10);
    assert_eq!(top.len(), 2);
    for t in &top {
        assert_ne!(t.nonce, 2);
    }
}

#[test]
fn removing_an_absent_transaction_changes_nothing() {
    let mut mempool = Mempool::new(10);
    mempool.add_tx(tx(1, vec![]), 10).unwrap();
    mempool.add_tx(tx(2, vec![]), 20).unwrap();
    mempool.remove_included(&[tx(99, vec![42])]);
    let top = mempool.get_top(10);
    assert_eq!(top.len(), 2);
    assert_eq!(top[0].nonce, 2);
    assert_eq!(top[1].nonce, 1);
}
