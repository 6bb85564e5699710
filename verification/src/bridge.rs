//! The payloads posted to the settlement layer. Talking to that layer is a
//! collaborator's concern; this is what it carries.

use vstd::prelude::*;

verus! {

/// A finalized block as posted to the settlement layer.
pub struct FinalizedBlock {
    /// Block hash.
    pub block_hash: [u8; 32],
    /// New state root.
    pub state_root: [u8; 32],
    /// Aggregated signatures from agents.
    pub signatures: Vec<[u8; 64]>,
}

} // verus!
