//! What holds after any series of calls.

use crate::block::{HeaderVerifySuccess, VerifyError};
use crate::laws;
use crate::queue::{EntryView, QueueView, RequestId};
use crate::sources::Source;
use crate::sync::SyncView;
use crate::types::{ChainStateUpdate, RequestSuccessBlock};
use vstd::prelude::*;

verus! {

/// A call, with what the user gives and leaves behind, and with what it has found.
pub enum Call<TRq, TSrc> {
    /// [`add_source`](crate::OptimisticHeadersSync::add_source).
    AddSource { user_data: TSrc },
    /// [`remove_source`](crate::OptimisticHeadersSync::remove_source).
    RemoveSource { slot: usize },
    /// [`next_request_action`](crate::OptimisticHeadersSync::next_request_action) that cancels the
    /// request at `pos`. The source of the request has the user data `source_data` from then on.
    Cancel { pos: int, source_data: TSrc },
    /// [`next_request_action`](crate::OptimisticHeadersSync::next_request_action) with nothing to
    /// start.
    Refill { queue: QueueView<TRq> },
    /// [`next_request_action`](crate::OptimisticHeadersSync::next_request_action) that offers a
    /// request to the source in `slot`, which isn't accepted.
    Decline { queue: QueueView<TRq>, slot: usize, source_data: TSrc },
    /// [`next_request_action`](crate::OptimisticHeadersSync::next_request_action) that offers the
    /// request for the entry at `pos` to the source in `slot`, and [`start`](crate::Start::start).
    Start {
        queue: QueueView<TRq>,
        pos: int,
        id: RequestId,
        slot: usize,
        user_data: TRq,
        source_data: TSrc,
    },
    /// [`finish_request`](crate::OptimisticHeadersSync::finish_request) with a failure.
    Fail { id: RequestId, source_data: TSrc },
    /// [`finish_request`](crate::OptimisticHeadersSync::finish_request) with blocks.
    Succeed { id: RequestId, blocks: Seq<RequestSuccessBlock> },
    /// [`process_one`](crate::OptimisticHeadersSync::process_one), driven to its end.
    Process {
        header: Result<HeaderVerifySuccess, VerifyError>,
        justification: Result<(), VerifyError>,
        report: ChainStateUpdate,
    },
    /// [`process_one`](crate::OptimisticHeadersSync::process_one), not driven to its end: the state
    /// of the chain isn't reported. The block may have been refused by then.
    Abandon { refused: bool },
}

/// The call can be made, and can find what it has found.
pub open spec fn possible<TRq, TSrc>(state: SyncView<TRq, TSrc>, call: Call<TRq, TSrc>) -> bool {
    match call {
        Call::AddSource { user_data } => state.sources.has_room(),
        Call::RemoveSource { slot } => state.sources.entries.contains_key(slot),
        Call::Cancel { pos, source_data } => state.is_next_cancelled(pos),
        Call::Refill { queue } => state.nothing_to_cancel() && state.is_refilled_queue(queue),
        Call::Decline { queue, slot, source_data } => {
            &&& state.nothing_to_cancel()
            &&& state.is_refilled_queue(queue)
            &&& state.sources.is_available(slot)
        },
        Call::Start { queue, pos, id, slot, user_data, source_data } => {
            &&& state.nothing_to_cancel()
            &&& state.is_refilled_queue(queue)
            &&& state.sources.is_available(slot)
            &&& queue.is_first_missing(pos)
            &&& queue.next_request_id < u64::MAX
            &&& id.number() == queue.next_request_id
        },
        Call::Fail { id, source_data } => state.queue.has_request(id),
        Call::Succeed { id, blocks } => state.queue.has_request(id),
        Call::Process { header, justification, report } => state.can_process(),
        Call::Abandon { refused } => {
            state.can_process() && (refused ==> state.queue.first_block() is Some)
        },
    }
}

/// The state after the call.
pub open spec fn after<TRq, TSrc>(
    state: SyncView<TRq, TSrc>,
    call: Call<TRq, TSrc>,
) -> SyncView<TRq, TSrc> {
    match call {
        Call::AddSource { user_data } => state.source_added(user_data),
        Call::RemoveSource { slot } => state.source_removed(slot),
        Call::Cancel { pos, source_data } => state.request_cancelled(pos).with_user_data(
            state.queue.entries[pos].ty->source,
            source_data,
        ),
        Call::Refill { queue } => state.with_queue(queue),
        Call::Decline { queue, slot, source_data } => state.with_queue(queue).with_user_data(
            slot,
            source_data,
        ),
        Call::Start { queue, pos, id, slot, user_data, source_data } => state.with_queue(
            queue.started(pos, id, slot, user_data),
        ).with_user_data(slot, source_data),
        Call::Fail { id, source_data } => state.request_failed(id).with_user_data(
            state.queue.entries[state.queue.position(id)].ty->source,
            source_data,
        ),
        Call::Succeed { id, blocks } => state.request_succeeded(id, blocks),
        Call::Process { header, justification, report } => {
            if state.queue.first_block() is Some {
                laws::block_processed(state, header, justification, report)
            } else {
                state.block_taken().with_chain(report)
            }
        },
        Call::Abandon { refused } => {
            if refused {
                state.block_taken().blocks_refused(state.queue.entries[0].ty->sender)
            } else {
                state.block_taken()
            }
        },
    }
}

/// The best block does not go back, unless blocks have been refused.
pub open spec fn best_block_is_kept<TRq, TSrc>(
    state: SyncView<TRq, TSrc>,
    call: Call<TRq, TSrc>,
) -> bool {
    call is Process && !after(state, call).cancelling_requests ==> state.chain.best_block_number
        <= call->report.best_block_number
}

/// A response holds no fewer blocks than were asked for. A block that has not been refused is not
/// above the best block, which is reported next.
pub open spec fn blocks_are_delivered<TRq, TSrc>(
    state: SyncView<TRq, TSrc>,
    call: Call<TRq, TSrc>,
) -> bool {
    match call {
        Call::Succeed { id, blocks } => state.queue.num_blocks(state.queue.position(id))
            <= blocks.len(),
        Call::Process { header, justification, report } => {
            after(state, call).cancelling_requests || state.queue.entries[0].block_height
                <= report.best_block_number
        },
        Call::Abandon { refused } => refused,
        _ => true,
    }
}

/// A call keeps the state valid, and the configuration as it is.
pub proof fn call_keeps_valid<TRq, TSrc>(state: SyncView<TRq, TSrc>, call: Call<TRq, TSrc>)
    requires
        state.valid(),
        possible(state, call),
    ensures
        after(state, call).valid(),
        after(state, call).queue.granularity == state.queue.granularity,
        after(state, call).download_ahead_blocks == state.download_ahead_blocks,
{
    match call {
        Call::AddSource { user_data } => {
            laws::source_added_then_removed(state, user_data);
        },
        Call::RemoveSource { slot } => {
            state.sources.removed_stays_valid(slot);
        },
        Call::Cancel { pos, source_data } => {
            laws::cancelled_request_is_gone(state, pos);
            assert(state.queue.entries[pos].source() is Some);
        },
        Call::Refill { queue } => {
            laws::refilled_queue_is_valid(state, queue);
        },
        Call::Decline { queue, slot, source_data } => {
            laws::refilled_queue_is_valid(state, queue);
        },
        Call::Start { queue, pos, id, slot, user_data, source_data } => {
            laws::refilled_queue_is_valid(state, queue);
            laws::started_request_is_new(state, queue, pos, id, slot, user_data, source_data);
        },
        Call::Fail { id, source_data } => {
            let pos = state.queue.position(id);
            assert(state.queue.is_request_at(pos, id));
            assert(state.queue.entries[pos].source() is Some);
        },
        Call::Succeed { id, blocks } => {
            let pos = state.queue.position(id);
            assert(state.queue.is_request_at(pos, id));
            assert(state.queue.entries[pos].source() is Some);
        },
        Call::Process { header, justification, report } => {
            state.block_taken_keeps_valid();
            assert(state.queue.entries[0].source() == state.queue.entries[0].ty->sender);
        },
        Call::Abandon { refused } => {
            state.block_taken_keeps_valid();
            assert(state.queue.entries[0].source() == state.queue.entries[0].ty->sender);
        },
    }
}

/// A call keeps the queue within the download-ahead window, given that the best block is kept.
pub proof fn call_keeps_window<TRq, TSrc>(state: SyncView<TRq, TSrc>, call: Call<TRq, TSrc>)
    requires
        state.valid(),
        laws::in_window(state),
        possible(state, call),
        best_block_is_kept(state, call),
    ensures
        laws::in_window(after(state, call)),
        call is Start ==> call->Start_queue.entries[call->Start_pos].block_height
            <= laws::window_end(state),
{
    match call {
        Call::AddSource { user_data } => {},
        Call::RemoveSource { slot } => {},
        Call::Cancel { pos, source_data } => {},
        Call::Refill { queue } => {
            refilled_queue_is_in_window(state, queue);
        },
        Call::Decline { queue, slot, source_data } => {
            refilled_queue_is_in_window(state, queue);
        },
        Call::Start { queue, pos, id, slot, user_data, source_data } => {
            refilled_queue_is_in_window(state, queue);
        },
        Call::Fail { id, source_data } => {
            assert(state.queue.is_request_at(state.queue.position(id), id));
        },
        Call::Succeed { id, blocks } => {
            assert(state.queue.is_request_at(state.queue.position(id), id));
        },
        Call::Process { header, justification, report } => {
            taken_block_keeps_window(state);
        },
        Call::Abandon { refused } => {
            taken_block_keeps_window(state);
        },
    }
}

proof fn taken_block_keeps_window<TRq, TSrc>(state: SyncView<TRq, TSrc>)
    requires
        laws::in_window(state),
        state.can_process(),
    ensures
        laws::in_window(state.block_taken()),
{
    let before = state.queue.entries;
    let taken = state.block_taken().queue.entries;
    assert forall|i: int|
        0 <= i < taken.len() && !((#[trigger] taken[i]).ty is Queued) implies taken[i].block_height
        <= laws::window_end(state) by {
        assert(taken.len() < before.len() ==> taken[i] == before[i + 1]);
        assert(taken.len() == before.len() && i > 0 ==> taken[i] == before[i]);
    }
}

proof fn refilled_queue_is_in_window<TRq, TSrc>(
    state: SyncView<TRq, TSrc>,
    queue: QueueView<TRq>,
)
    requires
        laws::in_window(state),
        state.is_refilled_queue(queue),
    ensures
        forall|i: int|
            0 <= i < queue.entries.len() && !((#[trigger] queue.entries[i]).ty is Queued)
                ==> queue.entries[i].block_height <= laws::window_end(state),
{
    let len = state.surviving_queue().entries.len() as int;
    assert forall|i: int|
        0 <= i < queue.entries.len() && !((
        #[trigger] queue.entries[i]).ty is Queued) implies queue.entries[i].block_height
        <= laws::window_end(state) by {
        if i < len {
            assert(queue.entries.take(len)[i] == queue.entries[i]);
            assert(queue.entries[i] == state.queue.entries[i]);
        } else if i == 0 {
            assert(queue.entries.take(0).len() == 0);
        }
    }
}

/// A call keeps the start of the queue at the best block or before, given that the blocks are
/// delivered that were asked for.
pub proof fn call_keeps_start_at_best<TRq, TSrc>(
    state: SyncView<TRq, TSrc>,
    call: Call<TRq, TSrc>,
)
    requires
        state.valid(),
        laws::starts_at_best(state),
        laws::responses_are_complete(state.queue),
        possible(state, call),
        blocks_are_delivered(state, call),
    ensures
        laws::starts_at_best(after(state, call)),
        laws::responses_are_complete(after(state, call).queue),
{
    match call {
        Call::AddSource { user_data } => {},
        Call::RemoveSource { slot } => {
            let before = state.queue.entries;
            let released = after(state, call).queue.entries;
            assert forall|i: int|
                0 <= i < released.len() && (#[trigger] released[i]).ty is Queued implies {
                &&& before[i].ty is Queued
                &&& released[i].ty->blocks == before[i].ty->blocks
                &&& released[i].block_height == before[i].block_height
                &&& released[i].first_height == before[i].first_height
            } by {
                assert(released[i] == before[i].released(slot));
            }
        },
        Call::Cancel { pos, source_data } => {},
        Call::Refill { queue } => {
            laws::refilled_queue_starts_at_best(state, queue);
            refill_keeps_responses_complete(state, queue);
        },
        Call::Decline { queue, slot, source_data } => {
            laws::refilled_queue_starts_at_best(state, queue);
            refill_keeps_responses_complete(state, queue);
        },
        Call::Start { queue, pos, id, slot, user_data, source_data } => {
            laws::refilled_queue_starts_at_best(state, queue);
            refill_keeps_responses_complete(state, queue);
        },
        Call::Fail { id, source_data } => {
            assert(state.queue.is_request_at(state.queue.position(id), id));
        },
        Call::Succeed { id, blocks } => {
            let pos = state.queue.position(id);
            assert(state.queue.is_request_at(pos, id));
            laws::requests_are_never_too_large(state.queue, pos);
            if pos + 1 < state.queue.entries.len() {
                assert(state.queue.entries[pos + 1].first_height
                    == state.queue.entries[pos].first_height + state.queue.granularity);
            }
        },
        Call::Process { header, justification, report } => {
            taken_block_keeps_responses_complete(state);
        },
        Call::Abandon { refused } => {
            taken_block_keeps_responses_complete(state);
        },
    }
}

proof fn taken_block_keeps_responses_complete<TRq, TSrc>(state: SyncView<TRq, TSrc>)
    requires
        state.valid(),
        laws::responses_are_complete(state.queue),
        state.can_process(),
    ensures
        ({
            let taken = state.block_taken().queue;
            &&& laws::responses_are_complete(taken)
            &&& taken.entries.len() > 0 ==> taken.entries[0].block_height
                <= state.queue.entries[0].block_height + 1
        }),
{
    let before = state.queue.entries;
    let taken = state.block_taken().queue.entries;
    assert(before[0].ty is Queued);
    assert forall|i: int| 0 <= i < taken.len() implies {
        ||| taken.len() < before.len() && #[trigger] taken[i] == before[i + 1]
        ||| taken.len() == before.len() && (i > 0 ==> taken[i] == before[i])
    } by {}
    if before.len() > 1 {
        assert(before[1].first_height == before[0].first_height + state.queue.granularity);
    }
}

proof fn refill_keeps_responses_complete<TRq, TSrc>(
    state: SyncView<TRq, TSrc>,
    queue: QueueView<TRq>,
)
    requires
        laws::responses_are_complete(state.queue),
        state.is_refilled_queue(queue),
    ensures
        laws::responses_are_complete(queue),
{
    let len = state.surviving_queue().entries.len() as int;
    assert forall|i: int|
        0 <= i < queue.entries.len() && (#[trigger] queue.entries[i]).ty is Queued implies i < len
        && queue.entries[i] == state.queue.entries[i] by {
        if i < len {
            assert(queue.entries.take(len)[i] == queue.entries[i]);
        }
    }
}

/// The call has found a block that is not in order.
pub open spec fn refuses<TRq, TSrc>(state: SyncView<TRq, TSrc>, call: Call<TRq, TSrc>) -> bool {
    match call {
        Call::Process { header, justification, report } => {
            let first = state.queue.entries[0];
            first.ty->blocks.len() > 0 && !laws::block_in_order(
                first.block_height as int,
                first.ty->blocks[0],
                header,
                justification,
            )
        },
        Call::Abandon { refused } => refused,
        _ => false,
    }
}

/// A source is banned where blocks that it has sent have been refused, and nowhere else: neither a
/// failure nor a cancellation nor the misbehaviour of another source bans it. It is gone where it
/// has been removed, and nowhere else. Its user data changes where the user is given access to it,
/// and nowhere else.
pub proof fn call_leaves_sources_alone<TRq, TSrc>(
    state: SyncView<TRq, TSrc>,
    call: Call<TRq, TSrc>,
    slot: usize,
)
    requires
        state.valid(),
        possible(state, call),
        state.sources.entries.contains_key(slot),
    ensures
        ({
            let before = state.sources.entries;
            let entries = after(state, call).sources.entries;
            let written = match call {
                Call::Cancel { pos, source_data } => Some(
                    (state.queue.entries[pos].ty->source, source_data),
                ),
                Call::Decline { queue, slot, source_data } => Some((slot, source_data)),
                Call::Start { queue, pos, id, slot, user_data, source_data } => Some(
                    (slot, source_data),
                ),
                Call::Fail { id, source_data } => Some(
                    (state.queue.entries[state.queue.position(id)].ty->source, source_data),
                ),
                _ => None,
            };
            &&& !entries.contains_key(slot) <==> call == Call::<TRq, TSrc>::RemoveSource { slot }
            &&& entries.contains_key(slot) ==> {
                &&& entries[slot].banned <==> {
                    ||| before[slot].banned
                    ||| refuses(state, call) && state.queue.entries[0].ty->sender == Some(slot)
                }
                &&& entries[slot].user_data == match written {
                    Some((source, source_data)) if source == slot => source_data,
                    _ => before[slot].user_data,
                }
            }
        }),
{
    match call {
        Call::AddSource { user_data } => {
            state.sources.added_is_fresh(user_data);
        },
        Call::Cancel { pos, source_data } => {
            assert(state.queue.entries[pos].source() is Some);
        },
        Call::Fail { id, source_data } => {
            let pos = state.queue.position(id);
            assert(state.queue.is_request_at(pos, id));
            assert(state.queue.entries[pos].source() is Some);
        },
        Call::Process { header, justification, report } => {
            let first = state.queue.entries[0];
            assert(first.source() == first.ty->sender);
            if first.ty->blocks.len() > 0 {
                laws::blocks_out_of_order_are_refused(state, header, justification, report);
            }
        },
        Call::Abandon { refused } => {
            let first = state.queue.entries[0];
            assert(first.source() == first.ty->sender);
        },
        _ => {},
    }
}

/// The position that the entry at `i` has after the call.
pub open spec fn position_after<TRq, TSrc>(
    state: SyncView<TRq, TSrc>,
    call: Call<TRq, TSrc>,
    i: int,
) -> int {
    if after(state, call).queue.entries.len() < state.queue.entries.len() && (call is Process
        || call is Abandon) {
        i - 1
    } else {
        i
    }
}

/// Blocks that have arrived stay in the queue, in their order and for their heights, whatever
/// happens to the sources, to the requests and to the entries before them, until it is their turn,
/// or until blocks have been refused and everything is requested anew.
pub proof fn call_leaves_arrived_blocks_alone<TRq, TSrc>(
    state: SyncView<TRq, TSrc>,
    call: Call<TRq, TSrc>,
    i: int,
)
    requires
        state.valid(),
        possible(state, call),
        !state.cancelling_requests,
        0 <= i < state.queue.entries.len(),
        state.queue.entries[i].ty is Queued,
        call is Process || call is Abandon ==> i > 0,
    ensures
        ({
            let before = state.queue.entries[i];
            let entries = after(state, call).queue.entries;
            let at = position_after(state, call, i);
            &&& 0 <= at < entries.len()
            &&& entries[at].ty is Queued
            &&& entries[at].ty->blocks == before.ty->blocks
            &&& entries[at].block_height == before.block_height
            &&& entries[at].first_height == before.first_height
            &&& entries[at].ty->sender == if call == (Call::<TRq, TSrc>::RemoveSource {
                slot: before.ty->sender->0,
            }) {
                None
            } else {
                before.ty->sender
            }
        }),
{
    call_leaves_entry_alone(state, call, i);
}

/// A request without an answer stays in the queue as it is, until it is answered, until it is
/// cancelled, or until its source is removed.
pub proof fn call_leaves_requests_alone<TRq, TSrc>(
    state: SyncView<TRq, TSrc>,
    call: Call<TRq, TSrc>,
    i: int,
)
    requires
        state.valid(),
        possible(state, call),
        0 <= i < state.queue.entries.len(),
        state.queue.entries[i].ty is Requested,
        match call {
            Call::RemoveSource { slot } => state.queue.entries[i].ty->source != slot,
            Call::Cancel { pos, source_data } => i != pos,
            Call::Fail { id, source_data } => state.queue.entries[i].ty->id != id,
            Call::Succeed { id, blocks } => state.queue.entries[i].ty->id != id,
            _ => true,
        },
    ensures
        ({
            let entries = after(state, call).queue.entries;
            let at = position_after(state, call, i);
            &&& 0 <= at < entries.len()
            &&& entries[at] == state.queue.entries[i]
        }),
{
    call_leaves_entry_alone(state, call, i);
}

proof fn call_leaves_entry_alone<TRq, TSrc>(
    state: SyncView<TRq, TSrc>,
    call: Call<TRq, TSrc>,
    i: int,
)
    requires
        state.valid(),
        possible(state, call),
        0 <= i < state.queue.entries.len(),
        !(state.queue.entries[i].ty is Missing),
        state.queue.entries[i].ty is Queued ==> {
            &&& !state.cancelling_requests
            &&& call is Process || call is Abandon ==> i > 0
        },
        match call {
            Call::Cancel { pos, source_data } => i != pos,
            Call::Fail { id, source_data } => !state.queue.is_request_at(i, id),
            Call::Succeed { id, blocks } => !state.queue.is_request_at(i, id),
            _ => true,
        },
    ensures
        ({
            let entries = after(state, call).queue.entries;
            let at = position_after(state, call, i);
            &&& 0 <= at < entries.len()
            &&& entries[at] == match call {
                Call::RemoveSource { slot } => state.queue.entries[i].released(slot),
                _ => state.queue.entries[i],
            }
        }),
{
    let before = state.queue.entries;
    let entries = after(state, call).queue.entries;
    match call {
        Call::RemoveSource { slot } => {
            assert(entries[i] == before[i].released(slot));
        },
        Call::Refill { queue } => {
            assert(queue.entries.take(before.len() as int)[i] == queue.entries[i]);
        },
        Call::Decline { queue, slot, source_data } => {
            assert(queue.entries.take(before.len() as int)[i] == queue.entries[i]);
        },
        Call::Start { queue, pos, id, slot, user_data, source_data } => {
            assert(queue.entries.take(before.len() as int)[i] == queue.entries[i]);
        },
        Call::Fail { id, source_data } => {
            assert(state.queue.is_request_at(state.queue.position(id), id));
        },
        Call::Succeed { id, blocks } => {
            assert(state.queue.is_request_at(state.queue.position(id), id));
        },
        Call::Process { header, justification, report } => {
            assert(entries == state.block_taken().queue.entries);
            assert(i > 0);
        },
        Call::Abandon { refused } => {
            assert(i > 0);
        },
        _ => {},
    }
}

/// What is known of the chain is what was reported last.
pub proof fn call_leaves_chain_alone<TRq, TSrc>(
    state: SyncView<TRq, TSrc>,
    call: Call<TRq, TSrc>,
)
    ensures
        after(state, call).chain == match call {
            Call::Process { header, justification, report } => report,
            _ => state.chain,
        },
{
}

/// Requests are cancelled from the refusal of blocks on, and until none is left and requests are
/// started again.
pub proof fn call_leaves_cancelling_alone<TRq, TSrc>(
    state: SyncView<TRq, TSrc>,
    call: Call<TRq, TSrc>,
)
    requires
        possible(state, call),
    ensures
        after(state, call).cancelling_requests <==> {
            ||| refuses(state, call)
            ||| state.cancelling_requests && !(call is Refill || call is Decline || call is Start)
        },
{
}

/// What a new [`OptimisticHeadersSync`](crate::OptimisticHeadersSync) is like.
pub open spec fn is_new<TRq, TSrc>(state: SyncView<TRq, TSrc>) -> bool {
    &&& state.sources.entries == Map::<usize, Source<TSrc>>::empty()
    &&& state.sources.vacant == Seq::<usize>::empty()
    &&& !state.cancelling_requests
    &&& state.queue.entries == Seq::<EntryView<TRq>>::empty()
    &&& state.queue.next_request_id == 0
    &&& state.queue.granularity > 0
}

/// `states` are the states that the calls `calls` lead through, from a new
/// [`OptimisticHeadersSync`](crate::OptimisticHeadersSync) on.
pub open spec fn is_run<TRq, TSrc>(
    states: Seq<SyncView<TRq, TSrc>>,
    calls: Seq<Call<TRq, TSrc>>,
) -> bool {
    &&& states.len() == calls.len() + 1
    &&& is_new(states[0])
    &&& forall|k: int|
        0 <= k < calls.len() ==> {
            &&& possible(states[k], #[trigger] calls[k])
            &&& states[k + 1] == after(states[k], calls[k])
        }
}

/// Every state that calls lead to is valid, and has the configuration of the first one.
pub proof fn run_is_valid<TRq, TSrc>(
    states: Seq<SyncView<TRq, TSrc>>,
    calls: Seq<Call<TRq, TSrc>>,
    i: int,
)
    requires
        is_run(states, calls),
        0 <= i < states.len(),
    ensures
        states[i].valid(),
        states[i].queue.granularity == states[0].queue.granularity,
        states[i].download_ahead_blocks == states[0].download_ahead_blocks,
    decreases i,
{
    if i > 0 {
        run_is_valid(states, calls, i - 1);
        call_keeps_valid(states[i - 1], calls[i - 1]);
    }
}

/// No request is ever started beyond the download-ahead window, whatever calls have been made
/// before, given that the best block never goes back unless blocks have been refused.
pub proof fn run_stays_in_window<TRq, TSrc>(
    states: Seq<SyncView<TRq, TSrc>>,
    calls: Seq<Call<TRq, TSrc>>,
    i: int,
)
    requires
        is_run(states, calls),
        forall|k: int|
            0 <= k < calls.len() ==> best_block_is_kept(states[k], #[trigger] calls[k]),
        0 <= i < states.len(),
    ensures
        laws::in_window(states[i]),
        i < calls.len() && calls[i] is Start
            ==> calls[i]->Start_queue.entries[calls[i]->Start_pos].block_height
            <= laws::window_end(states[i]),
    decreases i,
{
    if i > 0 {
        run_stays_in_window(states, calls, i - 1);
        run_is_valid(states, calls, i - 1);
        call_keeps_window(states[i - 1], calls[i - 1]);
    }
    if i < calls.len() {
        run_is_valid(states, calls, i);
        call_keeps_window(states[i], calls[i]);
    }
}

/// Whatever calls have been made, the queue starts right behind the best block or before, unless it
/// is empty or about to start over, given that the blocks are delivered that were asked for.
pub proof fn run_starts_at_best<TRq, TSrc>(
    states: Seq<SyncView<TRq, TSrc>>,
    calls: Seq<Call<TRq, TSrc>>,
    i: int,
)
    requires
        is_run(states, calls),
        forall|k: int|
            0 <= k < calls.len() ==> blocks_are_delivered(states[k], #[trigger] calls[k]),
        0 <= i < states.len(),
    ensures
        laws::starts_at_best(states[i]),
        laws::responses_are_complete(states[i].queue),
    decreases i,
{
    if i > 0 {
        run_starts_at_best(states, calls, i - 1);
        run_is_valid(states, calls, i - 1);
        call_keeps_start_at_best(states[i - 1], calls[i - 1]);
    }
}

/// The queue that a call has refilled, if it has refilled one.
pub open spec fn refilled<TRq, TSrc>(call: Call<TRq, TSrc>) -> Option<QueueView<TRq>> {
    match call {
        Call::Refill { queue } => Some(queue),
        Call::Decline { queue, slot, source_data } => Some(queue),
        Call::Start { queue, pos, id, slot, user_data, source_data } => Some(queue),
        _ => None,
    }
}

/// Whatever calls have been made before, when it is time to start requests there is exactly one
/// entry for each block from the one behind the best block to the one that is the configured number
/// of blocks ahead of it, given that the blocks are delivered that were asked for.
pub proof fn run_requests_blocks_ahead<TRq, TSrc>(
    states: Seq<SyncView<TRq, TSrc>>,
    calls: Seq<Call<TRq, TSrc>>,
    i: int,
    height: int,
)
    requires
        is_run(states, calls),
        forall|k: int|
            0 <= k < calls.len() ==> blocks_are_delivered(states[k], #[trigger] calls[k]),
        0 <= i < calls.len(),
        refilled(calls[i]) is Some,
        states[i].chain.best_block_number < height <= states[i].chain.best_block_number
            + states[i].download_ahead_blocks,
    ensures
        ({
            let queue = refilled(calls[i])->0;
            &&& exists|pos: int| #[trigger] laws::covers(queue, pos, height)
            &&& forall|j: int, k: int| #[trigger]
                laws::covers(queue, j, height) && #[trigger] laws::covers(queue, k, height) ==> j
                    == k
        }),
{
    run_is_valid(states, calls, i);
    run_starts_at_best(states, calls, i);
    laws::blocks_behind_best_are_requested(states[i], refilled(calls[i])->0, height);
}

/// A request that is started later has a larger identifier: no identifier is ever given twice.
pub proof fn run_numbers_requests<TRq, TSrc>(
    states: Seq<SyncView<TRq, TSrc>>,
    calls: Seq<Call<TRq, TSrc>>,
    i: int,
    j: int,
)
    requires
        is_run(states, calls),
        0 <= i < j < calls.len(),
        calls[i] is Start,
        calls[j] is Start,
    ensures
        calls[i]->Start_id.number() < calls[j]->Start_id.number(),
{
    assert(possible(states[i], calls[i]));
    assert(possible(states[j], calls[j]));
    next_number_grows(states, calls, i + 1, j);
}

proof fn next_number_grows<TRq, TSrc>(
    states: Seq<SyncView<TRq, TSrc>>,
    calls: Seq<Call<TRq, TSrc>>,
    i: int,
    j: int,
)
    requires
        is_run(states, calls),
        0 <= i <= j < states.len(),
    ensures
        states[i].queue.next_request_id <= states[j].queue.next_request_id,
    decreases j - i,
{
    if i < j {
        next_number_grows(states, calls, i, j - 1);
        assert(possible(states[j - 1], calls[j - 1]));
    }
}

} // verus!
