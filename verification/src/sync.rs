//! Optimistic headers-only syncing.
//!
//! Optimistic syncing consists in assuming that all sources of blocks form the same chain. A
//! query for blocks is performed on a random source, and the response is verified. If it turns
//! out that the source doesn't belong to the same chain (or is malicious), a different source
//! is tried.
//!
//! While this syncing strategy is very simplistic, it is the most effective when the majority of
//! sources are well-behaved, which is normally the case.
//!
//! The [`OptimisticHeadersSync`] makes it possible to sync the finalized blocks of a chain, but
//! not the non-finalized blocks.
//!
//! Chance and the chain are on the side of the user. [`OptimisticHeadersSync::next_request_action`]
//! takes a number that the user has drawn. [`OptimisticHeadersSync::process_one`] tells what has
//! to be verified, takes the outcome, and tells what becomes of the chain.

use crate::block::{
    BlockInProgress, BlockStage, ChainAction, HeaderVerifySuccess, VerificationStep, VerifyError,
};
use crate::queue::{EntryState, EntryView, QueueView, RequestId, VerificationQueue};
use crate::sources::{Source, SourceId, Sources, SourcesView};
use crate::types::{ChainStateUpdate, Config, RequestFail, RequestSuccessBlock};
use core::marker::PhantomData;
use vstd::prelude::*;

verus! {

/// Optimistic headers-only syncing.
pub struct OptimisticHeadersSync<TRq, TSrc> {
    /// State of the chain after the latest verification.
    chain: ChainStateUpdate,
    /// List of sources of blocks.
    sources: Sources<TSrc>,
    /// Whether the requests in progress have to be cancelled before new ones are started.
    cancelling_requests: bool,
    /// Queue of block requests, either to be started, in progress, or completed.
    verification_queue: VerificationQueue<TRq>,
    /// Value passed by [`Config::download_ahead_blocks`].
    download_ahead_blocks: u32,
}

/// State of an [`OptimisticHeadersSync`].
#[verifier::ext_equal]
pub struct SyncView<TRq, TSrc> {
    pub chain: ChainStateUpdate,
    pub sources: SourcesView<TSrc>,
    pub cancelling_requests: bool,
    pub queue: QueueView<TRq>,
    pub download_ahead_blocks: u32,
}

impl<TRq, TSrc> SyncView<TRq, TSrc> {
    /// The parts are valid, and an entry of the queue refers to a source that is still there.
    pub open spec fn valid(self) -> bool {
        &&& self.sources.valid()
        &&& self.queue.valid()
        &&& forall|i: int|
            0 <= i < self.queue.entries.len() && (#[trigger] self.queue.entries[i]).source() is Some
                ==> self.sources.entries.contains_key(self.queue.entries[i].source()->0)
    }

    /// The heights of the blocks to download can be represented.
    pub open spec fn heights_fit(self) -> bool {
        &&& self.chain.best_block_number < u64::MAX
        &&& self.chain.best_block_number + self.download_ahead_blocks <= u64::MAX
    }

    /// The request at `pos` is to be cancelled next: requests are being cancelled, and it is the
    /// last one.
    pub open spec fn is_next_cancelled(self, pos: int) -> bool {
        self.cancelling_requests && self.queue.is_last_request(pos)
    }

    /// There is no request left to cancel.
    pub open spec fn nothing_to_cancel(self) -> bool {
        self.cancelling_requests ==> self.queue.no_request()
    }

    /// It is either not yet time to start requests, or the heights of their blocks can be
    /// represented.
    pub open spec fn ready_for_requests(self) -> bool {
        self.nothing_to_cancel() ==> self.heights_fit()
    }

    /// The queue once there is nothing left to cancel. It starts over after a cancellation.
    pub open spec fn surviving_queue(self) -> QueueView<TRq> {
        if self.cancelling_requests {
            self.queue.truncated(0)
        } else {
            self.queue
        }
    }

    /// `queue` is the queue when it is time to start requests.
    pub open spec fn is_refilled_queue(self, queue: QueueView<TRq>) -> bool {
        queue.is_refill_of(
            self.surviving_queue(),
            self.chain.best_block_number as int,
            self.chain.best_block_number + self.download_ahead_blocks,
        )
    }

    /// One more source.
    pub open spec fn source_added(self, user_data: TSrc) -> Self {
        SyncView { sources: self.sources.added(user_data), ..self }
    }

    /// The source in `slot` is gone, and so are the requests to it.
    pub open spec fn source_removed(self, slot: usize) -> Self {
        SyncView {
            sources: self.sources.removed(slot),
            queue: self.queue.released(slot),
            ..self
        }
    }

    /// The source in `slot` has other user data.
    pub open spec fn with_user_data(self, slot: usize, user_data: TSrc) -> Self {
        SyncView { sources: self.sources.with_user_data(slot, user_data), ..self }
    }

    /// The request at `pos` is cancelled.
    pub open spec fn request_cancelled(self, pos: int) -> Self {
        SyncView { queue: self.queue.truncated(pos), ..self }
    }

    /// Requests are no longer being cancelled, and the queue is another one.
    pub open spec fn with_queue(self, queue: QueueView<TRq>) -> Self {
        SyncView { cancelling_requests: false, queue, ..self }
    }

    /// The request `id` has failed.
    pub open spec fn request_failed(self, id: RequestId) -> Self {
        SyncView {
            queue: self.queue.with_ty(self.queue.position(id), EntryState::Missing),
            ..self
        }
    }

    /// The blocks of the request `id` have arrived.
    pub open spec fn request_succeeded(
        self,
        id: RequestId,
        blocks: Seq<RequestSuccessBlock>,
    ) -> Self {
        let pos = self.queue.position(id);
        SyncView {
            queue: self.queue.with_ty(
                pos,
                EntryState::Queued {
                    blocks,
                    sender: Some(self.queue.entries[pos].ty->source),
                },
            ),
            ..self
        }
    }

    /// The blocks of the first entry can be verified.
    pub open spec fn can_process(self) -> bool {
        &&& !self.cancelling_requests
        &&& self.queue.entries.len() > 0
        &&& self.queue.entries[0].ty is Queued
    }

    /// The first block of the first entry is taken out.
    pub open spec fn block_taken(self) -> Self {
        SyncView { queue: self.queue.block_taken(), ..self }
    }

    /// The verification of the first block of the first entry is about to begin.
    pub open spec fn is_next_block(self, progress: BlockInProgress) -> bool {
        &&& progress.block == self.queue.first_block()
        &&& progress.expected_height == self.queue.entries[0].block_height
        &&& progress.sender == self.queue.entries[0].ty->sender
        &&& progress.stage == if self.queue.first_block() is Some {
            BlockStage::Header
        } else {
            BlockStage::Finished
        }
    }

    /// Blocks that the source `sender` has sent have turned out not to be valid: everything is
    /// requested anew, and from another source.
    pub open spec fn blocks_refused(self, sender: Option<usize>) -> Self {
        SyncView {
            cancelling_requests: true,
            sources: match sender {
                Some(slot) => self.sources.with_ban(slot),
                None => self.sources,
            },
            ..self
        }
    }

    /// The state after the action that a verification has led to.
    pub open spec fn after_action(self, action: ChainAction, sender: Option<usize>) -> Self {
        if action is Clear {
            self.blocks_refused(sender)
        } else {
            self
        }
    }

    /// Taking a block out leaves a valid state.
    pub proof fn block_taken_keeps_valid(self)
        requires
            self.valid(),
            self.can_process(),
        ensures
            self.block_taken().valid(),
    {
        let before = self.queue.entries;
        let after = self.queue.block_taken().entries;
        assert(before[0].source() == before[0].ty->sender);
        assert forall|i: int|
            0 <= i < after.len() && (
            #[trigger] after[i]).source() is Some implies self.sources.entries.contains_key(
            after[i].source()->0,
        ) by {
            assert(after.len() < before.len() ==> after[i] == before[i + 1]);
            assert(after.len() == before.len() && i > 0 ==> after[i] == before[i]);
        }
    }

    /// The chain is in another state.
    pub open spec fn with_chain(self, chain: ChainStateUpdate) -> Self {
        SyncView { chain, ..self }
    }
}

impl<TRq, TSrc> View for OptimisticHeadersSync<TRq, TSrc> {
    type V = SyncView<TRq, TSrc>;

    closed spec fn view(&self) -> SyncView<TRq, TSrc> {
        SyncView {
            chain: self.chain,
            sources: self.sources@,
            cancelling_requests: self.cancelling_requests,
            queue: self.verification_queue@,
            download_ahead_blocks: self.download_ahead_blocks,
        }
    }
}

/// Request that should be emitted towards a certain source.
#[derive(Debug)]
pub enum RequestAction<'a, TRq, TSrc> {
    /// A request must be emitted for the given source.
    ///
    /// The request has **not** been acknowledged when this event is emitted. You **must** call
    /// [`Start::start`] to notify the [`OptimisticHeadersSync`] that the request has been sent
    /// out.
    Start {
        /// Source where to request blocks from.
        source_id: SourceId,
        /// User data of source where to request blocks from.
        source: &'a mut TSrc,
        /// Must be used to accept the request.
        start: Start<'a, TRq, TSrc>,
        /// Height of the block to request. Never zero.
        block_height: u64,
        /// Number of blocks to request. Never zero and never larger than the value passed through
        /// [`Config::blocks_request_granularity`].
        num_blocks: u32,
    },

    /// The given [`RequestId`] is no longer valid.
    ///
    /// > **Note**: The request can either be cancelled, or the request can be let through but
    /// >           marked in a way that [`OptimisticHeadersSync::finish_request`] isn't called.
    Cancel {
        /// Identifier for the request. No longer valid.
        request_id: RequestId,
        /// User data associated with the request.
        user_data: TRq,
        /// Source where to request blocks from.
        source_id: SourceId,
        /// User data of source where to request blocks from.
        source: &'a mut TSrc,
    },
}

/// Must be used to accept the request.
#[must_use]
pub struct Start<'a, TRq, TSrc> {
    /// Queue that holds the entry to request.
    pub verification_queue: &'a mut VerificationQueue<TRq>,
    /// Slot of the source that the request is addressed to.
    pub source: usize,
    /// Position of the entry to request.
    pub missing_pos: usize,
    pub marker: PhantomData<&'a TSrc>,
}

impl<'a, TRq, TSrc> Start<'a, TRq, TSrc> {
    /// Updates the [`OptimisticHeadersSync`] with the fact that the request has actually been
    /// started. Returns the identifier for the request that must later be passed back to
    /// [`OptimisticHeadersSync::finish_request`].
    pub fn start(self, user_data: TRq) -> (id: RequestId)
        requires
            self.verification_queue@.valid(),
            self.missing_pos < self.verification_queue@.entries.len(),
            self.verification_queue@.entries[self.missing_pos as int].ty is Missing,
            self.verification_queue@.next_request_id < u64::MAX,
        ensures
            id.number() == old(self.verification_queue)@.next_request_id,
            final(self.verification_queue)@ == old(self.verification_queue)@.started(
                self.missing_pos as int,
                id,
                self.source,
                user_data,
            ),
            final(self.verification_queue)@.valid(),
    {
        self.verification_queue.start(self.missing_pos, self.source, user_data)
    }

    /// Whether the request can be started: there is a number left to identify it.
    pub fn has_number(&self) -> (r: bool)
        ensures
            r == (old(self.verification_queue)@.next_request_id < u64::MAX),
    {
        self.verification_queue.has_number()
    }
}

impl<'a, TRq, TSrc> core::fmt::Debug for Start<'a, TRq, TSrc> {
    /// Prints the word `Start`, whatever the request is about. Its user data need not be printable.
    fn fmt(&self, f: &mut core::fmt::Formatter<'_>) -> (printed: core::fmt::Result)
        ensures
            printed is Ok ==> crate::format::text_written(*final(f))
                == crate::format::text_written(*old(f)) + "Start"@,
    {
        f.write_str("Start")
    }
}

/// What [`OptimisticHeadersSync::finish_request`] has done.
#[derive(Debug)]
pub enum FinishRequestOutcome<'a, TSrc> {
    /// The blocks wait for their verification.
    Queued,
    /// The request has to be made anew. Holds the user data of the source that has failed.
    SourcePunished(&'a mut TSrc),
}

impl<TRq, TSrc> OptimisticHeadersSync<TRq, TSrc> {
    /// The representation of the sources is consistent.
    pub closed spec fn consistent(&self) -> bool {
        self.sources.consistent()
    }

    /// What every operation keeps.
    pub open spec fn wf(&self) -> bool {
        self.consistent() && self@.valid()
    }

    /// Builds a new [`OptimisticHeadersSync`].
    pub fn new(config: Config) -> (sync: Self)
        requires
            config.blocks_request_granularity > 0,
            16 * config.sources_capacity <= isize::MAX,
        ensures
            sync.wf(),
            sync@.chain == config.chain_config,
            sync@.sources.entries == Map::<usize, Source<TSrc>>::empty(),
            sync@.sources.vacant == Seq::<usize>::empty(),
            !sync@.cancelling_requests,
            sync@.queue.entries == Seq::<EntryView<TRq>>::empty(),
            sync@.queue.next_request_id == 0,
            sync@.queue.granularity == config.blocks_request_granularity,
            sync@.download_ahead_blocks == config.download_ahead_blocks,
            crate::runs::is_new(sync@),
    {
        let entries: u32 = config.download_ahead_blocks / config.blocks_request_granularity;
        OptimisticHeadersSync {
            chain: config.chain_config,
            sources: Sources::with_capacity(config.sources_capacity),
            cancelling_requests: false,
            verification_queue: VerificationQueue::new(
                (entries as usize).saturating_add(1),
                config.blocks_request_granularity,
            ),
            download_ahead_blocks: config.download_ahead_blocks,
        }
    }

    /// Whether the [`SourceId`] is valid.
    pub fn has_source(&self, source: SourceId) -> (r: bool)
        requires
            self.wf(),
        ensures
            r == self@.sources.entries.contains_key(source.slot()),
    {
        self.sources.contains(source.get())
    }

    /// Whether one more source can be added.
    pub fn has_room(&self) -> (r: bool)
        requires
            self.wf(),
        ensures
            r == self@.sources.has_room(),
    {
        self.sources.has_room()
    }

    /// Whether the [`RequestId`] is valid.
    pub fn has_request(&self, request_id: RequestId) -> (r: bool)
        requires
            self.wf(),
        ensures
            r == self@.queue.has_request(request_id),
    {
        self.verification_queue.has_request(request_id)
    }

    /// Whether [`OptimisticHeadersSync::next_request_action`] can be called: there is a request
    /// left to cancel, or the heights of the blocks to download can be represented.
    pub fn ready_for_requests(&self) -> (r: bool)
        requires
            self.wf(),
        ensures
            r == self@.ready_for_requests(),
    {
        let heights_fit = self.chain.best_block_number < u64::MAX && self.chain.best_block_number
            <= u64::MAX - self.download_ahead_blocks as u64;
        heights_fit || self.cancelling_requests && self.verification_queue.has_any_request()
    }

    /// Inform the [`OptimisticHeadersSync`] of a new potential source of blocks.
    pub fn add_source(&mut self, source: TSrc) -> (id: SourceId)
        requires
            old(self).wf(),
            old(self)@.sources.has_room(),
        ensures
            final(self).wf(),
            id.slot() == old(self)@.sources.next_slot(),
            !old(self)@.sources.entries.contains_key(id.slot()),
            final(self)@ == old(self)@.source_added(source),
    {
        proof {
            self@.sources.added_is_fresh(source);
        }
        SourceId::new(self.sources.insert(source))
    }

    /// Inform the [`OptimisticHeadersSync`] that a source of blocks is no longer available.
    ///
    /// This automatically cancels all the requests that have been emitted for this source.
    /// This list of requests is returned as part of this function.
    pub fn remove_source(&mut self, source: SourceId) -> (r: (TSrc, Vec<(RequestId, TRq)>))
        requires
            old(self).wf(),
            old(self)@.sources.entries.contains_key(source.slot()),
        ensures
            final(self).wf(),
            r.0 == old(self)@.sources.entries[source.slot()].user_data,
            r.1@ == old(self)@.queue.requests_to(source.slot()),
            final(self)@ == old(self)@.source_removed(source.slot()),
            forall|i: int|
                0 <= i < old(self)@.queue.entries.len() && (
                #[trigger] old(self)@.queue.entries[i]).ty is Queued ==> {
                    let entry = final(self)@.queue.entries[i];
                    &&& entry.ty is Queued
                    &&& entry.ty->blocks == old(self)@.queue.entries[i].ty->blocks
                    &&& entry.block_height == old(self)@.queue.entries[i].block_height
                },
    {
        let slot: usize = source.get();
        let user_data = self.sources.remove(slot);
        let requests = self.verification_queue.release(slot);
        (user_data, requests)
    }

    /// Returns the next request that needs to be started, or the next one that needs to be
    /// cancelled.
    ///
    /// A request is addressed to the source that `pick` stands for: for a random source, `pick` has
    /// to be a random number.
    pub fn next_request_action(&mut self, pick: usize) -> (action: Option<
        RequestAction<'_, TRq, TSrc>,
    >)
        requires
            old(self).wf(),
            old(self)@.ready_for_requests(),
        ensures
            final(self).consistent(),
            match action {
                Some(RequestAction::Cancel { request_id, user_data, source_id, source }) => {
                    &&& final(self)@.valid()
                    &&& old(self)@.sources.entries.contains_key(source_id.slot())
                    &&& *source == old(self)@.sources.entries[source_id.slot()].user_data
                    &&& exists|pos: int| {
                        &&& #[trigger] old(self)@.is_next_cancelled(pos)
                        &&& old(self)@.queue.entries[pos].ty == EntryState::Requested {
                            id: request_id,
                            user_data,
                            source: source_id.slot(),
                        }
                        &&& final(self)@ == old(self)@.request_cancelled(pos).with_user_data(
                            source_id.slot(),
                            *final(source),
                        )
                    }
                    &&& forall|slot: usize| #[trigger]
                        old(self)@.sources.entries.contains_key(slot) ==> {
                            &&& final(self)@.sources.entries.contains_key(slot)
                            &&& final(self)@.sources.entries[slot].banned
                                == old(self)@.sources.entries[slot].banned
                        }
                },
                Some(RequestAction::Start { source_id, source, start, block_height, num_blocks }) => {
                    let queue = start.verification_queue@;
                    &&& old(self)@.nothing_to_cancel()
                    &&& old(self)@.is_refilled_queue(queue)
                    &&& old(self)@.sources.is_available(source_id.slot())
                    &&& source_id.slot() == old(self)@.sources.picked(pick)
                    &&& *source == old(self)@.sources.entries[source_id.slot()].user_data
                    &&& start.source == source_id.slot()
                    &&& queue.is_first_missing(start.missing_pos as int)
                    &&& block_height == queue.entries[start.missing_pos as int].block_height
                    &&& num_blocks == queue.num_blocks(start.missing_pos as int)
                    &&& block_height + num_blocks
                        == queue.entries[start.missing_pos as int].first_height
                        + old(self)@.queue.granularity
                    &&& block_height > 0
                    &&& 0 < num_blocks <= old(self)@.queue.granularity
                    &&& old(self)@.with_queue(queue).valid()
                    &&& final(self)@ == old(self)@.with_queue(
                        final(start.verification_queue)@,
                    ).with_user_data(source_id.slot(), *final(source))
                },
                None => {
                    &&& final(self)@.valid()
                    &&& old(self)@.nothing_to_cancel()
                    &&& old(self)@.is_refilled_queue(final(self)@.queue)
                    &&& final(self)@ == old(self)@.with_queue(final(self)@.queue)
                    &&& final(self)@.queue.no_missing() || forall|slot: usize|
                        !old(self)@.sources.is_available(slot)
                },
            },
    {
        if self.cancelling_requests {
            match self.verification_queue.pop_last_request() {
                Some((request_id, user_data, slot)) => {
                    let ghost pos = choose|pos: int|
                        {
                            &&& #[trigger] old(self)@.queue.is_last_request(pos)
                            &&& old(self)@.queue.entries[pos].ty
                                == EntryState::Requested {
                                id: request_id,
                                user_data,
                                source: slot,
                            }
                            &&& self.verification_queue@ == old(self)@.queue.truncated(pos)
                        };
                    assert(old(self)@.is_next_cancelled(pos));
                    return Some(
                        RequestAction::Cancel {
                            request_id,
                            user_data,
                            source_id: SourceId::new(slot),
                            source: self.sources.user_data_mut(slot),
                        },
                    );
                },
                None => {},
            }
            self.cancelling_requests = false;
        }
        self.verification_queue.refill(self.chain.best_block_number, self.download_ahead_blocks);
        proof {
            crate::laws::refilled_queue_is_valid(old(self)@, self.verification_queue@);
        }
        let missing_pos: usize = match self.verification_queue.first_missing() {
            Some(missing_pos) => missing_pos,
            None => return None,
        };
        let available = self.sources.available();
        proof {
            self.sources@.available_slots_are_listed();
        }
        if available.len() == 0 {
            assert forall|slot: usize| !old(self)@.sources.is_available(slot) by {
                assert(!available@.contains(slot));
            }
            return None;
        }
        let slot: usize = available[pick % available.len()];
        assert(available@.contains(slot));
        let (block_height, num_blocks) = self.verification_queue.blocks_at(missing_pos);
        proof {
            crate::laws::requests_are_never_too_large(
                self.verification_queue@,
                missing_pos as int,
            );
        }
        Some(
            RequestAction::Start {
                source_id: SourceId::new(slot),
                source: self.sources.user_data_mut(slot),
                start: Start {
                    verification_queue: &mut self.verification_queue,
                    source: slot,
                    missing_pos,
                    marker: PhantomData,
                },
                block_height,
                num_blocks,
            },
        )
    }

    /// Update the [`OptimisticHeadersSync`] with the outcome of a request.
    ///
    /// Returns the user data that was associated to that request.
    pub fn finish_request<'a>(
        &'a mut self,
        request_id: RequestId,
        outcome: Result<Vec<RequestSuccessBlock>, RequestFail>,
    ) -> (r: (TRq, FinishRequestOutcome<'a, TSrc>))
        requires
            old(self).wf(),
            old(self)@.queue.has_request(request_id),
        ensures
            final(self).wf(),
            ({
                let entry = old(self)@.queue.entries[old(self)@.queue.position(request_id)];
                &&& entry.is_request(request_id)
                &&& r.0 == entry.ty->user_data
                &&& match (outcome, r.1) {
                    (Ok(blocks), FinishRequestOutcome::Queued) => {
                        &&& final(self)@ == old(self)@.request_succeeded(request_id, blocks@)
                        &&& final(self)@.queue.entries[old(self)@.queue.position(request_id)].ty
                            == EntryState::<TRq>::Queued {
                            blocks: blocks@,
                            sender: Some(entry.ty->source),
                        }
                    },
                    (Err(_), FinishRequestOutcome::SourcePunished(source)) => {
                        &&& *source == old(self)@.sources.entries[entry.ty->source].user_data
                        &&& final(self)@ == old(self)@.request_failed(request_id).with_user_data(
                            entry.ty->source,
                            *final(source),
                        )
                    },
                    _ => false,
                }
            }),
    {
        match outcome {
            Ok(blocks) => {
                let (user_data, _) = self.verification_queue.finish(request_id, Some(blocks));
                (user_data, FinishRequestOutcome::Queued)
            },
            Err(_) => {
                let (user_data, slot) = self.verification_queue.finish(request_id, None);
                (
                    user_data,
                    FinishRequestOutcome::SourcePunished(self.sources.user_data_mut(slot)),
                )
            },
        }
    }

    /// Has everything requested anew, and not from the source `sender`.
    fn refuse(&mut self, sender: Option<usize>)
        requires
            old(self).wf(),
            sender is Some ==> old(self)@.sources.entries.contains_key(sender->0),
        ensures
            final(self).wf(),
            final(self)@ == old(self)@.blocks_refused(sender),
    {
        self.cancelling_requests = true;
        match sender {
            Some(slot) => {
                self.sources.ban(slot);
            },
            None => {},
        }
    }

    /// Process a single block in the queue of verification.
    ///
    /// Returns `None` where there is nothing to verify.
    pub fn process_one(&mut self) -> (verification: Option<BlockVerification<'_, TRq, TSrc>>)
        requires
            old(self).wf(),
        ensures
            match verification {
                Some(verification) => {
                    &&& old(self)@.can_process()
                    &&& verification.valid()
                    &&& old(self)@.is_next_block(verification.progress)
                    &&& verification.sync@ == old(self)@.block_taken()
                    &&& *final(self) == *final(verification.sync)
                },
                None => {
                    &&& !old(self)@.can_process()
                    &&& final(self).wf()
                    &&& final(self)@ == old(self)@
                },
            },
    {
        if self.cancelling_requests {
            return None;
        }
        match self.verification_queue.take_block() {
            Some((expected_height, block, sender)) => {
                proof {
                    old(self)@.block_taken_keeps_valid();
                }
                Some(
                    BlockVerification {
                        sync: self,
                        progress: BlockInProgress::new(block, expected_height, sender),
                    },
                )
            },
            None => None,
        }
    }
}

/// Block that is being verified.
///
/// Must be driven to its end, for the [`OptimisticHeadersSync`] to learn the state of the chain.
#[must_use]
pub struct BlockVerification<'a, TRq, TSrc> {
    pub sync: &'a mut OptimisticHeadersSync<TRq, TSrc>,
    pub progress: BlockInProgress,
}

impl<'a, TRq, TSrc> BlockVerification<'a, TRq, TSrc> {
    /// The block and the sources are in order, and the sender of the block is one of the sources.
    pub open spec fn valid(self) -> bool {
        &&& self.sync.wf()
        &&& self.progress.valid()
        &&& self.progress.sender is Some ==> self.sync@.sources.entries.contains_key(
            self.progress.sender->0,
        )
    }

    /// Takes the outcome of the verification of the header into account. Tells what
    /// becomes of the block.
    pub fn header_verified(self, outcome: Result<HeaderVerifySuccess, VerifyError>) -> (r: (
        Self,
        ChainAction,
    ))
        requires
            self.valid(),
            self.progress.stage is Header,
        ensures
            r.0.valid(),
            r.0.progress == self.progress.after_header(outcome),
            r.1 == self.progress.header_action(outcome),
            r.0.sync@ == old(self.sync)@.after_action(r.1, self.progress.sender),
            *final(r.0.sync) == *final(self.sync),
    {
        let mut verification = self;
        let action = verification.progress.header_verified(outcome);
        if action == ChainAction::Clear {
            verification.sync.refuse(verification.progress.sender);
        }
        (verification, action)
    }

    /// Takes the outcome of the verification of the justification into account. Tells what
    /// becomes of the justification.
    pub fn justification_verified(self, outcome: Result<(), VerifyError>) -> (r: (
        Self,
        ChainAction,
    ))
        requires
            self.valid(),
            self.progress.stage is Justification,
        ensures
            r.0.valid(),
            r.0.progress == self.progress.at(BlockStage::Finished),
            r.1 == self.progress.justification_action(outcome),
            r.0.sync@ == old(self.sync)@.after_action(r.1, self.progress.sender),
            *final(r.0.sync) == *final(self.sync),
    {
        let mut verification = self;
        let action = verification.progress.justification_verified(outcome);
        if action == ChainAction::Clear {
            verification.sync.refuse(verification.progress.sender);
        }
        (verification, action)
    }

    /// Ends the verification with the state that the chain is in now.
    pub fn finish(self, chain: ChainStateUpdate) -> (update: ChainStateUpdate)
        requires
            self.valid(),
            self.progress.stage is Finished,
        ensures
            update == chain,
            final(self.sync).wf(),
            final(self.sync)@ == old(self.sync)@.with_chain(chain),
    {
        self.sync.chain = chain;
        chain
    }

    /// What has to be verified next.
    pub fn step(&self) -> (step: VerificationStep<'_>)
        requires
            self.valid(),
        ensures
            self.progress.is_step(step),
            self.progress.stage is Header ==> step is Header && step->Header_0@
                == self.progress.block->0.scale_encoded_header@,
            self.progress.stage is Justification ==> step is Justification
                && step->Justification_0@
                == self.progress.block->0.scale_encoded_justification->0@,
            self.progress.stage is Finished ==> step is Report,
    {
        self.progress.step()
    }
}

} // verus!
