//! Block-producer support: configuration, the messages producers exchange,
//! and the mempool particle, a message-driven front end over the mempool.

use vstd::prelude::*;
use crate::types::{Block, Transaction, TransactionV};
use crate::mempool::{Mempool, MempoolV, spec_add, spec_top, remove_all, pool_wf};

verus! {

/// Events published for web observers.
pub enum WebMessage {
    /// A noteworthy piece of drama.
    DramaEvent(String),
    /// A block was produced.
    BlockEvent(Block),
    /// A transaction was seen.
    TransactionEvent(Transaction),
}

/// Configuration for the block producer.
pub struct ProducerConfig {
    /// Maximum transactions per block.
    pub max_transactions: usize,
    /// Maximum block size in bytes.
    pub max_block_size: usize,
    /// Target block time in seconds.
    pub target_block_time: u64,
}

impl Clone for ProducerConfig {
    fn clone(&self) -> (r: Self)
        ensures
            r.max_transactions == self.max_transactions,
            r.max_block_size == self.max_block_size,
            r.target_block_time == self.target_block_time,
    {
        ProducerConfig {
            max_transactions: self.max_transactions,
            max_block_size: self.max_block_size,
            target_block_time: self.target_block_time,
        }
    }
}

impl Default for ProducerConfig {
    /// One hundred transactions per block, a megabyte per block, one block
    /// a second.
    fn default() -> (r: Self)
        ensures
            r.max_transactions == 100,
            r.max_block_size == 1000000,
            r.target_block_time == 1000,
    {
        ProducerConfig {
            max_transactions: 100,
            max_block_size: 1000000,
            target_block_time: 1000,
        }
    }
}

/// A producer agent's identity and tastes.
pub struct ProducerPersonality {
    /// Agent's identity.
    pub name: String,
    /// Core personality traits that drive behavior.
    pub traits: Vec<String>,
    /// Unique communication style and mannerisms.
    pub style: String,
    /// Cultural preferences and favorite themes.
    pub meme_preferences: Vec<String>,
}

/// The messages a producer handles.
pub enum ProducerMessage {
    /// A new transaction is available in the mempool.
    NewTransaction(Transaction),
    /// Time to try producing a block.
    TryProduceBlock,
    /// Validator feedback on a block.
    ValidatorFeedback { from: String, message: String },
    /// Social interaction with other producers.
    SocialInteraction { from: String, action: String },
}

/// The messages the mempool particle handles.
pub enum MempoolMessage {
    /// Submit a new transaction.
    SubmitTransaction(Transaction),
    /// Request the best transactions for a block.
    RequestTransactions { max_count: usize, max_size: usize },
    /// These transactions were included in a block.
    TransactionsIncluded(Vec<Transaction>),
}

/// What handling a message does to the pool: a submission is added with a
/// neutral priority (so submissions are served in arrival order; one the
/// pool cannot take is dropped), a request changes nothing, and an
/// inclusion notice removes the listed transactions.
pub open spec fn spec_handle_pool(m: MempoolV, msg: MempoolMessage) -> MempoolV {
    match msg {
        MempoolMessage::SubmitTransaction(tx) => spec_add(m, tx@, 0).0,
        MempoolMessage::RequestTransactions { max_count, max_size } => m,
        MempoolMessage::TransactionsIncluded(txs) => MempoolV {
            entries: remove_all(m.entries, Seq::new(txs@.len(), |i: int| txs@[i]@)),
            ..m
        },
    }
}

/// What handling a message returns: a request yields the best transactions,
/// everything else yields none.
pub open spec fn spec_handle_result(m: MempoolV, msg: MempoolMessage) -> Seq<TransactionV> {
    match msg {
        MempoolMessage::RequestTransactions { max_count, max_size } => spec_top(
            m,
            max_count as int,
        ),
        _ => Seq::<TransactionV>::empty(),
    }
}

/// A message-driven front end over the mempool: submissions go in, the best
/// transactions come out, included transactions are dropped.
pub struct MempoolParticle {
    mempool: Mempool,
}

impl MempoolParticle {
    /// The mathematical value of the underlying mempool.
    pub closed spec fn pool(&self) -> MempoolV {
        self.mempool@
    }

    /// Whether the underlying mempool is well kept.
    pub closed spec fn inv(&self) -> bool {
        self.mempool.inv()
    }

    /// A particle over an empty mempool with the given capacity.
    pub fn new(max_size: usize) -> (r: Self)
        ensures
            r.inv(),
            r.pool().entries.len() == 0,
            r.pool().max_size == max_size as int,
            r.pool().next_order == 0,
    {
        MempoolParticle { mempool: Mempool::new(max_size) }
    }

    /// How many submissions the pool has ever accepted: the next arrival
    /// number. `handle_message` requires this counter not to be exhausted.
    pub fn arrival_count(&self) -> (r: u64)
        ensures
            r as int == self.pool().next_order,
    {
        self.mempool.arrival_count()
    }

    /// Handles one message. A submitted transaction is added with a neutral
    /// priority, so submissions are served in arrival order; a submission
    /// the pool cannot take is dropped. A request returns the best
    /// transactions without removing them. An inclusion notice removes the
    /// listed transactions. Only a request returns transactions.
    pub fn handle_message(&mut self, msg: MempoolMessage) -> (r: Vec<Transaction>)
        requires
            old(self).inv(),
            old(self).pool().next_order < u64::MAX as int,
        ensures
            final(self).inv(),
            pool_wf(final(self).pool()),
            final(self).pool() == spec_handle_pool(old(self).pool(), msg),
            r@.len() == spec_handle_result(old(self).pool(), msg).len(),
            forall|i: int|
                0 <= i < r@.len() ==> (#[trigger] r@[i])@ == spec_handle_result(
                    old(self).pool(),
                    msg,
                )[i],
    {
        proof {
            self.mempool.lemma_inv_wf();
        }
        match msg {
            MempoolMessage::SubmitTransaction(tx) => {
                let outcome = self.mempool.add_tx(tx, 0);
                proof {
                    self.mempool.lemma_inv_wf();
                }
                match outcome {
                    Ok(()) => {},
                    Err(_) => {},
                }
                Vec::new()
            },
            MempoolMessage::RequestTransactions { max_count, max_size: _ } => {
                let txs = self.mempool.get_top(max_count);
                proof {
                    self.mempool.lemma_inv_wf();
                }
                txs
            },
            MempoolMessage::TransactionsIncluded(txs) => {
                self.mempool.remove_included(txs.as_slice());
                proof {
                    self.mempool.lemma_inv_wf();
                }
                Vec::new()
            },
        }
    }
}

} // verus!
