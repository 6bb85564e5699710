//! Agent character configuration, as read from the character files.

use vstd::prelude::*;

verus! {

/// An agent's identity and system prompt.
pub struct AgentInfo {
    /// The agent's name.
    pub name: String,
    /// The agent's system prompt.
    pub system: String,
}

} // verus!
