//! Shared data model: transactions, blocks, chain state, and their canonical
//! byte encodings.
//!
//! A block is identified by the SHA-256 digest of its canonical encoding: all
//! fields in a fixed order, with variable-length fields length-prefixed, so
//! equal blocks always hash identically.

use vstd::prelude::*;
use crate::hashing::{sha256_of, sha256_digest, u64_be_bytes, push_u64_be, push_bytes};
use vstd::utf8::encode_utf8;

verus! {

/// Core error values.
#[derive(Debug)]
pub enum Error {
    /// A signature did not verify.
    InvalidSignature,
    /// A state transition was not permitted.
    InvalidStateTransition,
    /// The mempool is at capacity and cannot take a new transaction.
    MempoolFull,
    /// Any other internal failure, with a description.
    Internal(String),
}

/// A transaction: an arbitrary signed payload from a sender.
pub struct Transaction {
    /// The sender's public key.
    pub sender: [u8; 32],
    /// Nonce to prevent replay attacks, scoped to the sender.
    pub nonce: u64,
    /// Arbitrary payload bytes.
    pub payload: Vec<u8>,
    /// Signature over the nonce and payload.
    pub signature: [u8; 64],
}

/// The mathematical value of a [`Transaction`].
#[verifier::ext_equal]
pub ghost struct TransactionV {
    pub sender: Seq<u8>,
    pub nonce: u64,
    pub payload: Seq<u8>,
    pub signature: Seq<u8>,
}

impl View for Transaction {
    type V = TransactionV;

    open spec fn view(&self) -> TransactionV {
        TransactionV {
            sender: self.sender@,
            nonce: self.nonce,
            payload: self.payload@,
            signature: self.signature@,
        }
    }
}

/// The bytes that identify a transaction: sender, little-endian nonce, and
/// payload. The signature is deliberately excluded, so a re-signed copy of
/// the same content is still the same transaction.
pub open spec fn tx_content_bytes(t: TransactionV) -> Seq<u8> {
    t.sender + crate::hashing::u64_le_bytes(t.nonce) + t.payload
}

/// The content digest that deduplicates transactions in the mempool.
pub open spec fn tx_digest(t: TransactionV) -> Seq<u8> {
    crate::hashing::blake3_of(tx_content_bytes(t))
}

impl Clone for Transaction {
    fn clone(&self) -> (r: Self)
        ensures
            r@ == self@,
    {
        let r = Transaction {
            sender: self.sender,
            nonce: self.nonce,
            payload: self.payload.clone(),
            signature: self.signature,
        };
        proof {
            assert(r.payload@ =~= self.payload@);
        }
        r
    }
}

/// A block proposal.
pub struct Block {
    /// Previous block hash.
    pub parent_hash: [u8; 32],
    /// Block height.
    pub height: u64,
    /// Transactions included in this block.
    pub transactions: Vec<Transaction>,
    /// The new state root after applying these transactions.
    pub state_root: [u8; 32],
    /// Block proposer's signature.
    pub proposer_sig: [u8; 64],
    /// Drama level of the block.
    pub drama_level: u8,
    /// Producer's mood when creating the block.
    pub producer_mood: String,
    /// Identity of the producer who created this block.
    pub producer_id: String,
}

/// The mathematical value of a [`Block`].
#[verifier::ext_equal]
pub ghost struct BlockV {
    pub parent_hash: Seq<u8>,
    pub height: u64,
    pub transactions: Seq<TransactionV>,
    pub state_root: Seq<u8>,
    pub proposer_sig: Seq<u8>,
    pub drama_level: u8,
    pub producer_mood: Seq<char>,
    pub producer_id: Seq<char>,
}

impl View for Block {
    type V = BlockV;

    open spec fn view(&self) -> BlockV {
        BlockV {
            parent_hash: self.parent_hash@,
            height: self.height,
            transactions: Seq::new(
                self.transactions@.len(),
                |i: int| self.transactions@[i]@,
            ),
            state_root: self.state_root@,
            proposer_sig: self.proposer_sig@,
            drama_level: self.drama_level,
            producer_mood: self.producer_mood@,
            producer_id: self.producer_id@,
        }
    }
}

/// The canonical record of one transaction inside a block encoding: sender,
/// big-endian nonce, length-prefixed payload, signature.
pub open spec fn tx_record_bytes(t: TransactionV) -> Seq<u8> {
    t.sender + u64_be_bytes(t.nonce) + u64_be_bytes(t.payload.len() as u64) + t.payload
        + t.signature
}

/// The concatenation of the canonical records of a sequence of transactions.
pub open spec fn txs_bytes(ts: Seq<TransactionV>) -> Seq<u8>
    decreases ts.len(),
{
    if ts.len() == 0 {
        Seq::<u8>::empty()
    } else {
        txs_bytes(ts.drop_last()) + tx_record_bytes(ts.last())
    }
}

/// The canonical byte encoding of a block: every field, in a fixed order,
/// variable-length fields prefixed by their length.
pub open spec fn block_bytes(b: BlockV) -> Seq<u8> {
    u64_be_bytes(b.height) + b.parent_hash + u64_be_bytes(b.transactions.len() as u64)
        + txs_bytes(b.transactions) + b.state_root + b.proposer_sig + seq![b.drama_level]
        + u64_be_bytes(encode_utf8(b.producer_mood).len() as u64) + encode_utf8(b.producer_mood)
        + u64_be_bytes(encode_utf8(b.producer_id).len() as u64) + encode_utf8(b.producer_id)
}

/// The identity of a block: the SHA-256 digest of its canonical encoding.
pub open spec fn block_digest(b: BlockV) -> Seq<u8> {
    sha256_of(block_bytes(b))
}

impl Clone for Block {
    fn clone(&self) -> (r: Self)
        ensures
            r@ == self@,
    {
        let mut txs: Vec<Transaction> = Vec::new();
        let mut i: usize = 0;
        while i < self.transactions.len()
            invariant
                i <= self.transactions@.len(),
                txs@.len() == i as int,
                forall|j: int| 0 <= j < i ==> txs@[j]@ == self.transactions@[j]@,
            decreases self.transactions@.len() - i,
        {
            txs.push(self.transactions[i].clone());
            i = i + 1;
        }
        let r = Block {
            parent_hash: self.parent_hash,
            height: self.height,
            transactions: txs,
            state_root: self.state_root,
            proposer_sig: self.proposer_sig,
            drama_level: self.drama_level,
            producer_mood: self.producer_mood.clone(),
            producer_id: self.producer_id.clone(),
        };
        proof {
            assert(r@.transactions =~= self@.transactions);
            assert(r@ == self@);
        }
        r
    }
}

impl Block {
    /// The canonical byte encoding of this block.
    pub fn encode(&self) -> (r: Vec<u8>)
        ensures
            r@ == block_bytes(self@),
    {
        let mut out: Vec<u8> = Vec::new();
        push_u64_be(&mut out, self.height);
        push_bytes(&mut out, self.parent_hash.as_slice());
        push_u64_be(&mut out, self.transactions.len() as u64);
        let ghost txs_view = self@.transactions;
        proof {
            assert(txs_view.take(0) =~= Seq::<TransactionV>::empty());
            assert(out@ =~= u64_be_bytes(self.height) + self.parent_hash@
                + u64_be_bytes(txs_view.len() as u64) + txs_bytes(txs_view.take(0)));
        }
        let mut i: usize = 0;
        while i < self.transactions.len()
            invariant
                i <= txs_view.len(),
                txs_view.len() == self.transactions@.len(),
                forall|j: int| 0 <= j < txs_view.len() ==> txs_view[j] == self.transactions@[j]@,
                out@ == u64_be_bytes(self.height) + self.parent_hash@
                    + u64_be_bytes(txs_view.len() as u64) + txs_bytes(txs_view.take(i as int)),
            decreases txs_view.len() - i,
        {
            let tx = &self.transactions[i];
            push_bytes(&mut out, tx.sender.as_slice());
            push_u64_be(&mut out, tx.nonce);
            push_u64_be(&mut out, tx.payload.len() as u64);
            push_bytes(&mut out, tx.payload.as_slice());
            push_bytes(&mut out, tx.signature.as_slice());
            proof {
                assert(txs_view.take(i + 1).drop_last() =~= txs_view.take(i as int));
                assert(txs_view.take(i + 1).last() == txs_view[i as int]);
                assert(out@ =~= u64_be_bytes(self.height) + self.parent_hash@
                    + u64_be_bytes(txs_view.len() as u64) + txs_bytes(txs_view.take(i + 1)));
            }
            i = i + 1;
        }
        proof {
            assert(txs_view.take(txs_view.len() as int) =~= txs_view);
        }
        push_bytes(&mut out, self.state_root.as_slice());
        push_bytes(&mut out, self.proposer_sig.as_slice());
        out.push(self.drama_level);
        let mood_bytes = self.producer_mood.as_str().as_bytes();
        push_u64_be(&mut out, mood_bytes.len() as u64);
        push_bytes(&mut out, mood_bytes);
        let id_bytes = self.producer_id.as_str().as_bytes();
        push_u64_be(&mut out, id_bytes.len() as u64);
        push_bytes(&mut out, id_bytes);
        proof {
            assert(out@ =~= block_bytes(self@));
        }
        out
    }

    /// The block hash: the SHA-256 digest of the canonical encoding, so it is
    /// a function of the block's fields alone.
    pub fn hash(&self) -> (r: [u8; 32])
        ensures
            r@ == block_digest(self@),
            r@.len() == 32,
    {
        let encoded = self.encode();
        sha256_digest(encoded.as_slice())
    }
}

/// Two blocks with equal values have equal hashes: the digest is a function
/// of the canonical encoding, which is a function of the fields alone.
pub proof fn lemma_block_hash_deterministic(b1: BlockV, b2: BlockV)
    requires
        b1 == b2,
    ensures
        block_digest(b1) == block_digest(b2),
{
}

/// Chain state: account balances and the block-producer allow-list.
pub struct ChainState {
    /// Account balances, keyed by hex-encoded public key.
    pub balances: Vec<(String, u64)>,
    /// Hex-encoded public keys of the block producers.
    pub producers: Vec<String>,
}

impl Clone for ChainState {
    fn clone(&self) -> (r: Self)
        ensures
            r.balances@.len() == self.balances@.len(),
            forall|i: int| 0 <= i < self.balances@.len()
                ==> r.balances@[i].0@ == self.balances@[i].0@
                    && r.balances@[i].1 == self.balances@[i].1,
            r.producers@.len() == self.producers@.len(),
            forall|i: int| 0 <= i < self.producers@.len()
                ==> r.producers@[i]@ == self.producers@[i]@,
    {
        let mut balances: Vec<(String, u64)> = Vec::new();
        let mut i: usize = 0;
        while i < self.balances.len()
            invariant
                i <= self.balances@.len(),
                balances@.len() == i as int,
                forall|j: int| 0 <= j < i ==> balances@[j].0@ == self.balances@[j].0@
                    && balances@[j].1 == self.balances@[j].1,
            decreases self.balances@.len() - i,
        {
            let entry = &self.balances[i];
            balances.push((entry.0.clone(), entry.1));
            i = i + 1;
        }
        let mut producers: Vec<String> = Vec::new();
        let mut k: usize = 0;
        while k < self.producers.len()
            invariant
                k <= self.producers@.len(),
                producers@.len() == k as int,
                forall|j: int| 0 <= j < k ==> producers@[j]@ == self.producers@[j]@,
            decreases self.producers@.len() - k,
        {
            producers.push(self.producers[k].clone());
            k = k + 1;
        }
        ChainState { balances, producers }
    }
}

impl ChainState {
    /// An empty chain state: no balances, no producers.
    pub fn new() -> (r: Self)
        ensures
            r.balances@.len() == 0,
            r.producers@.len() == 0,
    {
        ChainState { balances: Vec::new(), producers: Vec::new() }
    }
}

/// The mathematical value of a sequence of balance entries.
pub open spec fn balances_view(v: Seq<(String, u64)>) -> Seq<(Seq<char>, u64)> {
    Seq::new(v.len(), |i: int| (v[i].0@, v[i].1))
}

/// The mathematical value of a sequence of strings.
pub open spec fn strings_view(v: Seq<String>) -> Seq<Seq<char>> {
    Seq::new(v.len(), |i: int| v[i]@)
}

/// The mathematical value of a sequence of blocks.
pub open spec fn blocks_view(v: Seq<Block>) -> Seq<BlockV> {
    Seq::new(v.len(), |i: int| v[i]@)
}

/// The mathematical value of a [`ChainState`].
#[verifier::ext_equal]
pub ghost struct ChainV {
    pub balances: Seq<(Seq<char>, u64)>,
    pub producers: Seq<Seq<char>>,
}

impl View for ChainState {
    type V = ChainV;

    open spec fn view(&self) -> ChainV {
        ChainV { balances: balances_view(self.balances@), producers: strings_view(self.producers@) }
    }
}

/// A block hash: the 32-byte digest that identifies a block.
pub type BlockHash = [u8; 32];

/// Network message types for peer-to-peer communication.
pub enum NetworkMessage {
    /// A freshly produced block.
    NewBlock(Block),
    /// A freshly submitted transaction.
    NewTransaction(Transaction),
    /// Agent chatter.
    Chat { from: String, message: String },
    /// An agent explains itself.
    AgentReasoning { agent: String, reasoning: String },
}

/// A free-form event emitted for observers: who said what.
pub struct NetworkEvent {
    pub agent_id: String,
    pub message: String,
}

impl Clone for NetworkEvent {
    fn clone(&self) -> (r: Self)
        ensures
            r.agent_id@ == self.agent_id@,
            r.message@ == self.message@,
    {
        NetworkEvent { agent_id: self.agent_id.clone(), message: self.message.clone() }
    }
}

/// Builds the genesis block: height zero, no parent, no transactions, the
/// given message as the producer's mood, produced by "Spore".
pub fn create_genesis_block(message: String) -> (r: Block)
    ensures
        r@.height == 0,
        r@.parent_hash == Seq::new(32, |i: int| 0u8),
        r@.transactions.len() == 0,
        r@.state_root == Seq::new(32, |i: int| 0u8),
        r@.proposer_sig == Seq::new(64, |i: int| 0u8),
        r@.drama_level == 0,
        r@.producer_mood == message@,
        r@.producer_id == "Spore"@,
{
    let block = Block {
        parent_hash: [0u8; 32],
        height: 0,
        transactions: Vec::new(),
        state_root: [0u8; 32],
        proposer_sig: [0u8; 64],
        drama_level: 0,
        producer_mood: message,
        producer_id: "Spore".to_owned(),
    };
    proof {
        assert(block@.parent_hash =~= Seq::new(32, |i: int| 0u8));
        assert(block@.state_root =~= Seq::new(32, |i: int| 0u8));
        assert(block@.proposer_sig =~= Seq::new(64, |i: int| 0u8));
    }
    block
}

} // verus!
