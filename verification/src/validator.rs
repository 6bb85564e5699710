//! Validator agents: their identities and the messages they exchange. The
//! decisions themselves come from an outside oracle; these are the values
//! that travel around it.

use vstd::prelude::*;
use crate::types::{Block, BlockHash};

verus! {

/// A validator agent's identity and temperament.
pub struct ValidatorPersonality {
    /// Agent's identity.
    pub name: String,
    /// Core personality traits that drive behavior.
    pub traits: Vec<String>,
    /// Unique decision-making approach.
    pub style: String,
    /// Factors that sway the agent's opinions.
    pub influences: Vec<String>,
    /// Current emotional state.
    pub mood: String,
}

/// Social interactions and decisions a validator can engage in.
pub enum ValidatorMessage {
    /// Request for block validation with a dramatic announcement.
    ValidateBlock { block: Block, announcement: String },
    /// Social commentary about a block.
    DiscussBlock { block_hash: BlockHash, from: String, message: String },
    /// Attempt to influence a decision through bribes.
    BribeOffer { block_hash: BlockHash, from: String, offer: String },
    /// The agent's verdict on a block.
    ValidationResult { block_hash: BlockHash, valid: bool, reason: String, meme: Option<Vec<u8>> },
}

} // verus!
