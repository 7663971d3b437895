//! Values that the user hands to the syncing state machine and takes back from it.

use vstd::prelude::*;

verus! {

/// State of the chain, as far as the syncing depends on it.
#[derive(Debug, Copy, Clone)]
pub struct ChainStateUpdate {
    pub best_block_hash: [u8; 32],
    pub best_block_number: u64,
    pub finalized_block_hash: [u8; 32],
    pub finalized_block_number: u64,
}

/// Configuration for the [`OptimisticHeadersSync`](crate::OptimisticHeadersSync).
#[derive(Debug)]
pub struct Config {
    /// State of the chain when the syncing starts.
    pub chain_config: ChainStateUpdate,

    /// Pre-allocated capacity for the number of block sources.
    pub sources_capacity: usize,

    /// Maximum number of blocks returned by a response. Not zero.
    ///
    /// > **Note**: If blocks are requested from the network, this should match the network
    /// >           protocol enforced limit.
    pub blocks_request_granularity: u32,

    /// Number of blocks to download ahead of the best block.
    ///
    /// Whenever the latest best block is updated, the state machine will start block
    /// requests for the block `best_block_height + download_ahead_blocks` and all its
    /// ancestors. Considering that requesting blocks has some latency, downloading blocks ahead
    /// of time ensures that verification isn't blocked waiting for a request to be finished.
    ///
    /// The ideal value here depends on the speed of blocks verification speed and latency of
    /// block requests.
    pub download_ahead_blocks: u32,
}

/// Block that a source has sent in answer to a request.
#[derive(Debug)]
pub struct RequestSuccessBlock {
    pub scale_encoded_header: Vec<u8>,
    pub scale_encoded_justification: Option<Vec<u8>>,
}

/// Reason why a request has failed.
#[derive(Debug)]
pub enum RequestFail {
    /// Requested blocks aren't available from this source.
    BlocksUnavailable,
}

} // verus!
