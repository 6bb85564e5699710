//! Command-line surface: the parsed arguments and the node configuration.
//! Parsing itself happens outside the library; these are the values it
//! produces.

use vstd::prelude::*;

verus! {

/// Node configuration.
pub struct Config {
    /// Data directory.
    pub data_dir: String,
    /// OpenAI API key.
    pub openai_api_key: String,
    /// Ethereum RPC URL.
    pub eth_rpc: String,
    /// Web UI port.
    pub web_port: u16,
}

/// The parsed command line.
pub struct Cli {
    /// Config file path.
    pub config: Option<String>,
    /// The chosen command.
    pub command: Commands,
}

/// The commands a node accepts.
pub enum Commands {
    /// Run a demo network with the given numbers of validators and
    /// producers.
    Demo { validators: u32, producers: u32, web: bool },
    /// Start a node of the given kind.
    Start { node_type: String, web: bool },
}

} // verus!
