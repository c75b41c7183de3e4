//! What the surrounding program is configured with.

use vstd::prelude::*;

verus! {

/// The settings of a monitor as they stand in its configuration file. The addresses are in
/// Base58.
#[derive(Clone, Debug, PartialEq, Eq)]
pub struct Config {
    pub rpc_ws_url: String,
    pub rpc_http_url: String,
    pub mango_program_id: String,
    pub mango_group_id: String,
    pub mango_cache_id: String,
    pub mango_signer_id: String,
    pub serum_program_id: String,
    pub snapshot_interval_secs: u64,
    pub websocket_server_bind_address: String,
}

} // verus!
