//! Messages exchanged between peers: block proposals, votes, transactions,
//! and chatter. Transport itself is a collaborator's concern; these are the
//! payloads.

use vstd::prelude::*;
use crate::types::{Block, Transaction};

verus! {

/// Peer-to-peer message types.
pub enum Message {
    /// Propose a new block.
    BlockProposal(Block),
    /// Vote on a block proposal.
    BlockVote { block_hash: [u8; 32], approve: bool, reason: String, meme_url: Option<String> },
    /// Agent chat message.
    Chat { message: String, mood: String, meme_url: Option<String> },
    /// Broadcast a new transaction.
    Transaction(Transaction),
}

/// Richer agent-to-agent message types.
pub enum AgentMessage {
    /// Standard block proposal.
    BlockProposal(Block),
    /// Vote on a block.
    Vote(BlockVote),
    /// Question about a state diff.
    WhyThisStateDiff { block_hash: [u8; 32], question: String },
    /// Bribe attempt, for fun.
    Bribe { block_hash: [u8; 32], offer: String, meme_base64: Option<String> },
    /// Rejection with an optional meme.
    BlockRejectionMeme { block_hash: [u8; 32], reason: String, meme_base64: Option<String> },
    /// General chat message.
    Chat { message: String, reaction_emoji: Option<String> },
}

/// A vote as it travels between peers.
pub struct BlockVote {
    pub block_hash: [u8; 32],
    pub approve: bool,
    pub reason: String,
    pub meme_url: Option<String>,
}

} // verus!
