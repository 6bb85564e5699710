//! Data shown on the web dashboard: network status, block summaries, and
//! the drama around them. The dashboard itself lives outside the library;
//! these are the values it displays.

use vstd::prelude::*;

verus! {

/// Web interface state.
pub struct WebState {
    /// Active agents: name and personality.
    pub agents: Vec<(String, String)>,
    /// Recent drama events.
    pub drama_log: Vec<String>,
    /// Current block height.
    pub block_height: u64,
    /// Active meme wars: initiator, target, meme.
    pub meme_wars: Vec<(String, String, String)>,
    /// Current alliances: the two agents and the reason.
    pub alliances: Vec<(String, String, String)>,
    /// Blocks: height, producer, approved, reason.
    pub blocks: Vec<(u64, String, bool, String)>,
}

/// Current consensus state, as displayed.
pub struct ConsensusState {
    /// Validators and their current votes.
    pub validator_votes: Vec<(String, bool)>,
    /// Current drama level.
    pub drama_level: u8,
    /// Active alliances.
    pub alliances: Vec<(String, String)>,
    /// Active feuds.
    pub feuds: Vec<(String, String)>,
}

/// Web interface messages.
pub enum WebMessage {
    /// New block produced.
    Block(u64),
    /// User interaction.
    UserAction(UserAction),
    /// New agent connected.
    AgentConnected { name: String, personality: String },
    /// Drama event occurred.
    DramaEvent(String),
    /// Meme war started.
    MemeWarStarted { initiator: String, target: String, meme: String },
    /// Alliance formed.
    AllianceFormed { agent1: String, agent2: String, reason: String },
    /// Block produced.
    BlockProduced { producer: String, height: u64, transactions: usize, drama_level: u32 },
    /// Block validated.
    BlockValidated { validator: String, height: u64, approved: bool, reason: String },
}

/// User actions.
pub enum UserAction {
    /// Send a transaction.
    SendTransaction { payload: Vec<u8>, drama_level: u8 },
    /// Start drama between agents.
    StartDrama { instigator: String, target: String, reason: String },
    /// Propose an alliance.
    ProposeAlliance { from: String, to: String, terms: String },
}

/// An ongoing meme war.
pub struct MemeWar {
    pub instigator: String,
    pub target: String,
    pub memes_used: Vec<String>,
    pub intensity: u8,
}

/// An alliance between agents.
pub struct Alliance {
    pub members: Vec<String>,
    pub reason: String,
    pub strength: u8,
}

/// Network status for the web UI.
pub struct NetworkStatus {
    pub validator_count: u32,
    pub producer_count: u32,
    pub latest_block: u64,
    pub total_blocks_produced: u64,
    pub total_blocks_validated: u64,
    pub latest_blocks: Vec<String>,
}

/// Block info for the web UI.
pub struct BlockInfo {
    pub height: u64,
    pub producer: String,
    pub transaction_count: usize,
    pub validators: Vec<String>,
    pub timestamp: u64,
}

} // verus!
