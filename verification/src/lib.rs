//! Optimistic headers-only syncing.
//!
//! [`OptimisticHeadersSync`] decides which blocks to request from which source, and in which order
//! to verify the blocks that arrive. It performs no request and holds no chain: the user performs
//! the requests, verifies the headers and the justifications, and reports the outcome.

mod block;
pub mod effects;
pub mod ffi_api;
pub mod format;
pub mod laws;
mod queue;
pub mod runs;
mod sources;
mod sync;
mod types;

pub use block::{
    BlockInProgress, BlockStage, ChainAction, HeaderVerifySuccess, VerificationStep, VerifyError,
};
pub use queue::{EntryState, EntryView, QueueView, RequestId, VerificationQueue};
pub use sources::{Source, SourceId, Sources, SourcesView};
pub use sync::{
    BlockVerification, FinishRequestOutcome, OptimisticHeadersSync, RequestAction, Start, SyncView,
};
pub use types::{ChainStateUpdate, Config, RequestFail, RequestSuccessBlock};
