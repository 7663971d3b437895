//! What holds of the syncing as a whole.

use crate::block::{BlockInProgress, BlockStage, ChainAction, HeaderVerifySuccess, VerifyError};
use crate::queue::{EntryState, EntryView, QueueView, RequestId};
use crate::sync::SyncView;
use crate::types::{ChainStateUpdate, RequestSuccessBlock};
use vstd::prelude::*;

verus! {

/// A new source can be told from all the others. Removing it again gives its user data back,
/// cancels nothing, and leaves the other sources and the queue as they were.
pub proof fn source_added_then_removed<TRq, TSrc>(state: SyncView<TRq, TSrc>, user_data: TSrc)
    requires
        state.valid(),
        state.sources.has_room(),
    ensures
        ({
            let slot = state.sources.next_slot() as usize;
            let after = state.source_added(user_data);
            &&& !state.sources.entries.contains_key(slot)
            &&& after.valid()
            &&& after.sources.entries.contains_key(slot)
            &&& after.sources.entries[slot].user_data == user_data
            &&& after.sources.is_available(slot)
            &&& after.queue.requests_to(slot).len() == 0
            &&& after.source_removed(slot).sources.entries == state.sources.entries
            &&& after.source_removed(slot).queue == state.queue
        }),
{
    let slot = state.sources.next_slot() as usize;
    let after = state.source_added(user_data);
    state.sources.added_is_fresh(user_data);
    assert forall|i: int| 0 <= i < state.queue.entries.len() implies (
    #[trigger] state.queue.entries[i]).source() != Some(slot) by {}
    assert(after.source_removed(slot).sources.entries =~= state.sources.entries);
    assert(after.source_removed(slot).queue.entries =~= state.queue.entries);
    no_request_to_other_sources(state.queue.entries, slot);
}

proof fn no_request_to_other_sources<TRq>(entries: Seq<EntryView<TRq>>, slot: usize)
    requires
        forall|i: int| 0 <= i < entries.len() ==> !(#[trigger] entries[i]).is_request_to(slot),
    ensures
        entries.filter(|entry: EntryView<TRq>| entry.is_request_to(slot)).len() == 0,
    decreases entries.len(),
{
    reveal(Seq::filter);
    if entries.len() > 0 {
        assert(!entries[entries.len() - 1].is_request_to(slot));
        no_request_to_other_sources(entries.drop_last(), slot);
    }
}

/// A request to `slot` is in the list of the requests to `slot`.
proof fn request_is_listed<TRq>(entries: Seq<EntryView<TRq>>, slot: usize, pos: int)
    requires
        0 <= pos < entries.len(),
        entries[pos].is_request_to(slot),
    ensures
        entries.filter(|entry: EntryView<TRq>| entry.is_request_to(slot)).contains(
            entries[pos],
        ),
    decreases entries.len(),
{
    reveal(Seq::filter);
    let pred = |entry: EntryView<TRq>| entry.is_request_to(slot);
    let shorter = entries.drop_last();
    if pos == entries.len() - 1 {
        let all = entries.filter(pred);
        assert(all[all.len() - 1] == entries[pos]);
    } else {
        request_is_listed(shorter, slot, pos);
        let i = choose|i: int|
            0 <= i < shorter.filter(pred).len() && shorter.filter(pred)[i] == entries[pos];
        assert(entries.filter(pred)[i] == entries[pos]);
    }
}

/// Removing a source cancels the requests to it, all of them and no others, and hands them out.
/// Nothing in the queue refers to the source any longer.
pub proof fn removed_source_has_its_requests_cancelled<TRq, TSrc>(
    state: SyncView<TRq, TSrc>,
    slot: usize,
    pos: int,
)
    requires
        state.valid(),
        state.sources.entries.contains_key(slot),
        0 <= pos < state.queue.entries.len(),
        state.queue.entries[pos].ty is Requested,
    ensures
        ({
            let entry = state.queue.entries[pos];
            let after = state.source_removed(slot);
            if entry.is_request_to(slot) {
                &&& state.queue.requests_to(slot).contains(entry.request())
                &&& !after.queue.has_request(entry.ty->id)
            } else {
                after.queue.is_request_at(pos, entry.ty->id) && after.queue.entries[pos] == entry
            }
        }),
        forall|i: int|
            0 <= i < state.queue.entries.len() ==> (
            #[trigger] state.source_removed(slot).queue.entries[i]).source() != Some(slot),
        state.source_removed(slot).valid(),
{
    let entry = state.queue.entries[pos];
    let after = state.source_removed(slot);
    state.sources.removed_stays_valid(slot);
    if entry.is_request_to(slot) {
        let pred = |entry: EntryView<TRq>| entry.is_request_to(slot);
        let request = |entry: EntryView<TRq>| entry.request();
        request_is_listed(state.queue.entries, slot, pos);
        let i = choose|i: int|
            0 <= i < state.queue.entries.filter(pred).len() && state.queue.entries.filter(pred)[i]
                == entry;
        assert(state.queue.entries.filter(pred).map_values(request)[i] == entry.request());
        assert forall|other: int| !after.queue.is_request_at(other, entry.ty->id) by {
            if after.queue.is_request_at(other, entry.ty->id) {
                assert(state.queue.is_request_at(other, entry.ty->id));
                state.queue.position_is_unique(other, entry.ty->id);
                state.queue.position_is_unique(pos, entry.ty->id);
            }
        }
    }
}

/// A request gets an identifier that no ongoing request has and that is larger than that of every
/// request before. The identifier is valid from then on, and stands for the user data that was
/// given. The other requests stay as they are.
pub proof fn started_request_is_new<TRq, TSrc>(
    state: SyncView<TRq, TSrc>,
    queue: QueueView<TRq>,
    pos: int,
    id: RequestId,
    slot: usize,
    user_data: TRq,
    source_data: TSrc,
)
    requires
        state.with_queue(queue).valid(),
        state.sources.entries.contains_key(slot),
        0 <= pos < queue.entries.len(),
        queue.entries[pos].ty is Missing,
        queue.next_request_id < u64::MAX,
        id.number() == queue.next_request_id,
    ensures
        state.with_queue(queue.started(pos, id, slot, user_data)).with_user_data(
            slot,
            source_data,
        ).valid(),
        !queue.has_request(id),
        queue.started(pos, id, slot, user_data).has_request(id),
        queue.started(pos, id, slot, user_data).position(id) == pos,
        queue.started(pos, id, slot, user_data).entries[pos].request() == (id, user_data),
        forall|other: RequestId| #[trigger]
            queue.has_request(other) ==> {
                &&& other.number() < id.number()
                &&& queue.started(pos, id, slot, user_data).has_request(other)
                &&& queue.started(pos, id, slot, user_data).position(other) == queue.position(other)
                &&& queue.started(pos, id, slot, user_data).entries[queue.position(other)]
                    == queue.entries[queue.position(other)]
            },
{
    let after = queue.started(pos, id, slot, user_data);
    assert(after.is_request_at(pos, id));
    assert(after.valid());
    after.position_is_unique(pos, id);
    assert forall|other: RequestId| #[trigger] queue.has_request(other) implies {
        &&& other.number() < id.number()
        &&& after.has_request(other)
        &&& after.position(other) == queue.position(other)
        &&& after.entries[queue.position(other)] == queue.entries[queue.position(other)]
    } by {
        let at = queue.position(other);
        assert(queue.is_request_at(at, other));
        assert(after.is_request_at(at, other));
        after.position_is_unique(at, other);
    }
}

/// A finished request is no longer valid, and its identifier is never given to another request.
/// The other requests stay as they are.
pub proof fn finished_request_is_gone<TRq, TSrc>(
    state: SyncView<TRq, TSrc>,
    id: RequestId,
    blocks: Seq<RequestSuccessBlock>,
)
    requires
        state.valid(),
        state.queue.has_request(id),
    ensures
        !state.request_failed(id).queue.has_request(id),
        !state.request_succeeded(id, blocks).queue.has_request(id),
        id.number() < state.request_failed(id).queue.next_request_id,
        id.number() < state.request_succeeded(id, blocks).queue.next_request_id,
        forall|other: RequestId| #[trigger]
            state.queue.has_request(other) && other != id ==> {
                &&& state.request_failed(id).queue.has_request(other)
                &&& state.request_failed(id).queue.position(other) == state.queue.position(other)
                &&& state.request_failed(id).queue.entries[state.queue.position(other)]
                    == state.queue.entries[state.queue.position(other)]
                &&& state.request_succeeded(id, blocks).queue.has_request(other)
                &&& state.request_succeeded(id, blocks).queue.position(other)
                    == state.queue.position(other)
                &&& state.request_succeeded(id, blocks).queue.entries[state.queue.position(other)]
                    == state.queue.entries[state.queue.position(other)]
            },
{
    let pos = state.queue.position(id);
    assert(state.queue.is_request_at(pos, id));
    let failed = state.request_failed(id).queue;
    let succeeded = state.request_succeeded(id, blocks).queue;
    assert forall|other: int|
        !failed.is_request_at(other, id) && !succeeded.is_request_at(other, id) by {
        if failed.is_request_at(other, id) || succeeded.is_request_at(other, id) {
            assert(state.queue.is_request_at(other, id));
            state.queue.position_is_unique(other, id);
        }
    }
    assert forall|other: RequestId| #[trigger]
        state.queue.has_request(other) && other != id implies {
        &&& failed.has_request(other)
        &&& failed.position(other) == state.queue.position(other)
        &&& failed.entries[state.queue.position(other)] == state.queue.entries[state.queue.position(
            other,
        )]
        &&& succeeded.has_request(other)
        &&& succeeded.position(other) == state.queue.position(other)
        &&& succeeded.entries[state.queue.position(other)]
            == state.queue.entries[state.queue.position(other)]
    } by {
        let at = state.queue.position(other);
        assert(state.queue.is_request_at(at, other));
        assert(failed.is_request_at(at, other));
        assert(succeeded.is_request_at(at, other));
        failed.position_is_unique(at, other);
        succeeded.position_is_unique(at, other);
    }
}

/// A cancelled request is no longer valid. The other requests are still to be cancelled, one by
/// one: they stay as they are, and the queue gets shorter with each cancellation.
pub proof fn cancelled_request_is_gone<TRq, TSrc>(state: SyncView<TRq, TSrc>, pos: int)
    requires
        state.valid(),
        state.is_next_cancelled(pos),
    ensures
        state.request_cancelled(pos).valid(),
        state.request_cancelled(pos).cancelling_requests,
        state.request_cancelled(pos).queue.entries.len() < state.queue.entries.len(),
        !state.request_cancelled(pos).queue.has_request(state.queue.entries[pos].ty->id),
        forall|other: RequestId| #[trigger]
            state.queue.has_request(other) && other != state.queue.entries[pos].ty->id ==> {
                &&& state.request_cancelled(pos).queue.has_request(other)
                &&& state.request_cancelled(pos).queue.position(other) == state.queue.position(
                    other,
                )
                &&& state.request_cancelled(pos).queue.entries[state.queue.position(other)]
                    == state.queue.entries[state.queue.position(other)]
            },
{
    let id = state.queue.entries[pos].ty->id;
    let after = state.request_cancelled(pos).queue;
    assert(state.queue.is_request_at(pos, id));
    assert forall|other: int| !after.is_request_at(other, id) by {
        if after.is_request_at(other, id) {
            assert(state.queue.is_request_at(other, id));
            state.queue.position_is_unique(other, id);
            state.queue.position_is_unique(pos, id);
        }
    }
    assert forall|other: RequestId| #[trigger]
        state.queue.has_request(other) && other != id implies {
        &&& after.has_request(other)
        &&& after.position(other) == state.queue.position(other)
        &&& after.entries[state.queue.position(other)] == state.queue.entries[state.queue.position(
            other,
        )]
    } by {
        let at = state.queue.position(other);
        assert(state.queue.is_request_at(at, other));
        assert(after.is_request_at(at, other));
        after.position_is_unique(at, other);
    }
}

/// The requests of a queue without an answer, from the front to the back.
pub open spec fn ongoing_requests<TRq>(queue: QueueView<TRq>) -> Seq<EntryView<TRq>> {
    queue.entries.filter(|entry: EntryView<TRq>| entry.ty is Requested)
}

/// Requests are cancelled from the last one to the first one, each of them once: a cancellation
/// takes the last ongoing request away, and no other. New requests are started when none is left.
pub proof fn requests_are_cancelled_one_by_one<TRq, TSrc>(state: SyncView<TRq, TSrc>, pos: int)
    requires
        state.cancelling_requests,
    ensures
        state.is_next_cancelled(pos) ==> {
            &&& ongoing_requests(state.queue).len() > 0
            &&& ongoing_requests(state.queue).last() == state.queue.entries[pos]
            &&& ongoing_requests(state.request_cancelled(pos).queue) == ongoing_requests(
                state.queue,
            ).drop_last()
        },
        state.nothing_to_cancel() <==> ongoing_requests(state.queue).len() == 0,
{
    if state.is_next_cancelled(pos) {
        last_request_is_listed_last(state.queue, pos);
    }
    no_request_is_listed(state.queue);
}

proof fn last_request_is_listed_last<TRq>(queue: QueueView<TRq>, pos: int)
    requires
        queue.is_last_request(pos),
    ensures
        ongoing_requests(queue) == ongoing_requests(queue.truncated(pos)).push(queue.entries[pos]),
    decreases queue.entries.len(),
{
    reveal(Seq::filter);
    let last = queue.entries.len() - 1;
    if pos < last {
        let shorter = queue.truncated(last);
        assert(!(queue.entries[last].ty is Requested));
        last_request_is_listed_last(shorter, pos);
        assert(queue.entries.drop_last() =~= shorter.entries);
        assert(shorter.truncated(pos).entries =~= queue.truncated(pos).entries);
    } else {
        assert(queue.entries.drop_last() =~= queue.truncated(pos).entries);
    }
}

proof fn no_request_is_listed<TRq>(queue: QueueView<TRq>)
    ensures
        queue.no_request() <==> ongoing_requests(queue).len() == 0,
    decreases queue.entries.len(),
{
    reveal(Seq::filter);
    if queue.entries.len() > 0 {
        let last = queue.entries.len() - 1;
        let shorter = queue.truncated(last);
        no_request_is_listed(shorter);
        assert(queue.entries.drop_last() =~= shorter.entries);
        if ongoing_requests(queue).len() == 0 {
            assert forall|i: int| 0 <= i < queue.entries.len() implies !((
            #[trigger] queue.entries[i]).ty is Requested) by {
                if i < last {
                    assert(shorter.entries[i] == queue.entries[i]);
                }
            }
        }
    }
}

/// Neither the start of further requests nor the verification of blocks touches a request that is
/// still without an answer.
pub proof fn requests_survive<TRq, TSrc>(
    state: SyncView<TRq, TSrc>,
    queue: QueueView<TRq>,
    id: RequestId,
)
    requires
        state.valid(),
        !state.cancelling_requests,
        state.queue.has_request(id),
        queue.valid(),
        state.is_refilled_queue(queue),
    ensures
        queue.has_request(id),
        queue.entries[queue.position(id)] == state.queue.entries[state.queue.position(id)],
        state.can_process() ==> {
            let after = state.block_taken().queue;
            &&& after.has_request(id)
            &&& after.entries[after.position(id)] == state.queue.entries[state.queue.position(id)]
        },
{
    let pos = state.queue.position(id);
    assert(state.queue.is_request_at(pos, id));
    assert(queue.entries[pos] == queue.entries.take(state.queue.entries.len() as int)[pos]);
    assert(queue.is_request_at(pos, id));
    queue.position_is_unique(pos, id);
    if state.can_process() {
        let after = state.block_taken().queue;
        let at = if after.entries.len() < state.queue.entries.len() {
            pos - 1
        } else {
            pos
        };
        assert(after.is_request_at(at, id));
        assert(after.valid());
        after.position_is_unique(at, id);
    }
}

/// What the user has configured stays as it is.
pub proof fn configuration_is_kept<TRq, TSrc>(
    state: SyncView<TRq, TSrc>,
    slot: usize,
    user_data: TSrc,
    queue: QueueView<TRq>,
    pos: int,
    id: RequestId,
    request_data: TRq,
    blocks: Seq<RequestSuccessBlock>,
    sender: Option<usize>,
    chain: ChainStateUpdate,
)
    requires
        state.is_refilled_queue(queue),
    ensures
        forall|after: SyncView<TRq, TSrc>|
            #![trigger after.queue.granularity]
            #![trigger after.download_ahead_blocks]
            {
                ||| after == state.source_added(user_data)
                ||| after == state.source_removed(slot)
                ||| after == state.with_user_data(slot, user_data)
                ||| after == state.request_cancelled(pos)
                ||| after == state.with_queue(queue)
                ||| after == state.with_queue(queue.started(pos, id, slot, request_data))
                ||| after == state.request_failed(id)
                ||| after == state.request_succeeded(id, blocks)
                ||| after == state.block_taken()
                ||| after == state.blocks_refused(sender)
                ||| after == state.with_chain(chain)
            } ==> after.queue.granularity == state.queue.granularity && after.download_ahead_blocks
                == state.download_ahead_blocks,
{
}

/// An entry behind another one starts behind all of its blocks.
pub proof fn entries_do_not_overlap<TRq>(queue: QueueView<TRq>, i: int, j: int)
    requires
        queue.valid(),
        0 <= i < j < queue.entries.len(),
    ensures
        queue.entries[i].first_height + queue.granularity <= queue.entries[j].first_height,
        queue.entries[j].first_height == queue.entries[j].block_height,
    decreases j - i,
{
    let before = queue.entries[j - 1];
    assert(queue.entries[j].first_height == before.first_height + queue.granularity);
    if i < j - 1 {
        entries_do_not_overlap(queue, i, j - 1);
    }
}

/// At least one block is asked for, never more than a response may hold, and exactly those up to
/// the next entry.
pub proof fn requests_are_never_too_large<TRq>(queue: QueueView<TRq>, pos: int)
    requires
        queue.valid(),
        0 <= pos < queue.entries.len(),
        !(queue.entries[pos].ty is Queued),
    ensures
        0 < queue.num_blocks(pos) <= queue.granularity,
        queue.entries[pos].block_height > 0,
        pos + 1 < queue.entries.len() ==> queue.entries[pos].block_height + queue.num_blocks(pos)
            == queue.entries[pos + 1].block_height,
{
    if pos + 1 < queue.entries.len() {
        let next = queue.entries[pos + 1];
        assert(next.first_height == queue.entries[pos].first_height + queue.granularity);
    }
}

/// The entry at `pos` stands for the block at height `height`, which has yet to be verified.
pub open spec fn covers<TRq>(queue: QueueView<TRq>, pos: int, height: int) -> bool {
    &&& 0 <= pos < queue.entries.len()
    &&& queue.entries[pos].block_height <= height < queue.entries[pos].first_height
        + queue.granularity
}

proof fn some_entry_covers<TRq>(queue: QueueView<TRq>, last: int, height: int) -> (pos: int)
    requires
        queue.valid(),
        0 <= last < queue.entries.len(),
        queue.entries[0].block_height <= height < queue.entries[last].first_height
            + queue.granularity,
    ensures
        covers(queue, pos, height),
    decreases last,
{
    if queue.entries[last].block_height <= height {
        last
    } else {
        assert(queue.entries[last].first_height == queue.entries[last - 1].first_height
            + queue.granularity);
        some_entry_covers(queue, last - 1, height)
    }
}

/// When it is time to start requests, there is exactly one entry for each block from the first one
/// of the queue to the one that is the configured number of blocks ahead of the best block. A queue
/// that starts over starts right behind the best block.
pub proof fn blocks_ahead_are_requested<TRq, TSrc>(
    state: SyncView<TRq, TSrc>,
    queue: QueueView<TRq>,
    height: int,
)
    requires
        state.with_queue(queue).valid(),
        state.is_refilled_queue(queue),
        queue.entries[0].block_height <= height <= state.chain.best_block_number
            + state.download_ahead_blocks,
    ensures
        exists|pos: int| #[trigger] covers(queue, pos, height),
        forall|i: int, j: int| #[trigger]
            covers(queue, i, height) && #[trigger] covers(queue, j, height) ==> i == j,
        state.surviving_queue().entries.len() == 0 ==> queue.entries[0].block_height
            == state.chain.best_block_number + 1,
{
    let last = queue.entries.len() - 1;
    let pos = some_entry_covers(queue, last, height);
    assert forall|i: int, j: int| #[trigger]
        covers(queue, i, height) && #[trigger] covers(queue, j, height) implies i == j by {
        if i < j {
            entries_do_not_overlap(queue, i, j);
        } else if j < i {
            entries_do_not_overlap(queue, j, i);
        }
    }
    if state.surviving_queue().entries.len() == 0 {
        assert(queue.entries.take(0).len() == 0);
        assert(queue.entries[0].block_height == state.chain.best_block_number + 1);
    }
}

/// The queue starts right behind the best block or before, unless it is empty or about to start over.
pub open spec fn starts_at_best<TRq, TSrc>(state: SyncView<TRq, TSrc>) -> bool {
    state.cancelling_requests || state.queue.entries.len() == 0
        || state.queue.entries[0].block_height <= state.chain.best_block_number + 1
}

/// The blocks that have arrived and have yet to be verified reach to the end of their entries
/// at least.
pub open spec fn responses_are_complete<TRq>(queue: QueueView<TRq>) -> bool {
    forall|i: int|
        0 <= i < queue.entries.len() && (#[trigger] queue.entries[i]).ty is Queued ==> {
            &&& queue.entries[i].ty->blocks.len() > 0
            &&& queue.entries[i].first_height + queue.granularity <= queue.entries[i].block_height
                + queue.entries[i].ty->blocks.len()
        }
}

/// When it is time to start requests, there is exactly one entry for each block from the one behind
/// the best block to the one that is the configured number of blocks ahead of it.
pub proof fn blocks_behind_best_are_requested<TRq, TSrc>(
    state: SyncView<TRq, TSrc>,
    queue: QueueView<TRq>,
    height: int,
)
    requires
        state.valid(),
        starts_at_best(state),
        state.is_refilled_queue(queue),
        state.chain.best_block_number < height <= state.chain.best_block_number
            + state.download_ahead_blocks,
    ensures
        exists|pos: int| #[trigger] covers(queue, pos, height),
        forall|i: int, j: int| #[trigger]
            covers(queue, i, height) && #[trigger] covers(queue, j, height) ==> i == j,
{
    refilled_queue_is_valid(state, queue);
    refilled_queue_starts_at_best(state, queue);
    blocks_ahead_are_requested(state, queue, height);
}

/// A refill makes a valid queue of a valid one.
pub proof fn refilled_queue_is_valid<TRq, TSrc>(
    state: SyncView<TRq, TSrc>,
    queue: QueueView<TRq>,
)
    requires
        state.valid(),
        state.is_refilled_queue(queue),
    ensures
        state.with_queue(queue).valid(),
{
    let before = state.surviving_queue();
    let len = before.entries.len() as int;
    let best = state.chain.best_block_number as int;
    assert forall|i: int| 0 <= i < len implies queue.entries[i] == #[trigger] before.entries[i] by {
        assert(queue.entries.take(len)[i] == queue.entries[i]);
    }
    assert forall|i: int, j: int|
        0 <= i && j == i + 1 && j < queue.entries.len() implies (
    #[trigger] queue.entries[j]).first_height == (#[trigger] queue.entries[i]).first_height
        + queue.granularity by {
        if j < len {
            assert(before.entries[j].first_height == before.entries[i].first_height
                + before.granularity);
        } else {
            assert(queue.entries.take(j).last() == queue.entries[i]);
        }
    }
    all_entries_start_above_zero(queue, before, best, best + state.download_ahead_blocks);
    assert forall|i: int| 0 <= i < queue.entries.len() implies {
        &&& 0 < (#[trigger] queue.entries[i]).first_height <= queue.entries[i].block_height
        &&& i > 0 || !(queue.entries[i].ty is Queued) ==> queue.entries[i].block_height
            == queue.entries[i].first_height
    } by {
        if i < len {
            assert(queue.entries[i] == before.entries[i]);
        }
    }
    assert forall|i: int|
        0 <= i < queue.entries.len() && !((#[trigger] queue.entries[i]).ty is Missing) implies i
        < len && queue.entries[i] == state.queue.entries[i] by {
        if i < len {
            assert(queue.entries[i] == before.entries[i]);
        }
    }
}

proof fn all_entries_start_above_zero<TRq>(
    queue: QueueView<TRq>,
    before: QueueView<TRq>,
    best_block: int,
    target: int,
)
    requires
        before.valid(),
        best_block >= 0,
        queue.is_refill_of(before, best_block, target),
    ensures
        forall|i: int|
            0 <= i < queue.entries.len() ==> 0 < (#[trigger] queue.entries[i]).first_height,
{
    let len = before.entries.len() as int;
    assert forall|i: int| 0 <= i < queue.entries.len() implies 0 < (
    #[trigger] queue.entries[i]).first_height by {
        if i < len {
            assert(queue.entries.take(len)[i] == before.entries[i]);
        } else if i > 0 {
            assert(queue.entries.take(i).last() == queue.entries[i - 1]);
        }
    }
}

/// A refill leaves the start of the queue where it is, or has the queue start right behind the best
/// block.
pub proof fn refilled_queue_starts_at_best<TRq, TSrc>(
    state: SyncView<TRq, TSrc>,
    queue: QueueView<TRq>,
)
    requires
        starts_at_best(state),
        state.is_refilled_queue(queue),
    ensures
        starts_at_best(state.with_queue(queue)),
        queue.entries[0].block_height <= state.chain.best_block_number + 1,
{
    let len = state.surviving_queue().entries.len() as int;
    if len > 0 {
        assert(queue.entries.take(len)[0] == queue.entries[0]);
    } else {
        assert(queue.entries.take(0).len() == 0);
    }
}

/// There is but one way to refill a queue.
pub proof fn refill_is_unique<TRq>(
    before: QueueView<TRq>,
    best_block: int,
    target: int,
    one: QueueView<TRq>,
    other: QueueView<TRq>,
)
    requires
        one.is_refill_of(before, best_block, target),
        other.is_refill_of(before, best_block, target),
    ensures
        one == other,
{
    if one.entries.len() <= other.entries.len() {
        shorter_refill_is_prefix(before, best_block, target, one, other, one.entries.len() as int);
        assert(one.entries.take(one.entries.len() as int) =~= one.entries);
        refills_have_same_length(before, best_block, target, one, other);
    } else {
        shorter_refill_is_prefix(before, best_block, target, other, one, other.entries.len() as int);
        assert(other.entries.take(other.entries.len() as int) =~= other.entries);
        refills_have_same_length(before, best_block, target, other, one);
    }
    assert(one.entries =~= other.entries);
}

proof fn shorter_refill_is_prefix<TRq>(
    before: QueueView<TRq>,
    best_block: int,
    target: int,
    one: QueueView<TRq>,
    other: QueueView<TRq>,
    len: int,
)
    requires
        one.is_refill_of(before, best_block, target),
        other.is_refill_of(before, best_block, target),
        0 <= len <= one.entries.len() <= other.entries.len(),
    ensures
        one.entries.take(len) == other.entries.take(len),
    decreases len,
{
    if len > 0 {
        shorter_refill_is_prefix(before, best_block, target, one, other, len - 1);
        let i = len - 1;
        if i < before.entries.len() {
            assert(one.entries[i] == one.entries.take(before.entries.len() as int)[i]);
            assert(other.entries[i] == other.entries.take(before.entries.len() as int)[i]);
        } else {
            assert(one.entries[i].ty is Missing);
            assert(other.entries[i].ty is Missing);
            assert(one.entries[i] == other.entries[i]);
        }
        assert(one.entries.take(len) =~= one.entries.take(i).push(one.entries[i]));
        assert(other.entries.take(len) =~= other.entries.take(i).push(other.entries[i]));
    }
}

proof fn refills_have_same_length<TRq>(
    before: QueueView<TRq>,
    best_block: int,
    target: int,
    one: QueueView<TRq>,
    other: QueueView<TRq>,
)
    requires
        one.is_refill_of(before, best_block, target),
        other.is_refill_of(before, best_block, target),
        one.entries.len() <= other.entries.len(),
        one.entries == other.entries.take(one.entries.len() as int),
    ensures
        one.entries.len() == other.entries.len(),
{
    let i = one.entries.len() as int;
    if i < other.entries.len() {
        assert(other.entries[i].ty is Missing);
    }
}

/// Once blocks have been refused, no request is addressed to the source that has sent them,
/// whatever number is drawn.
pub proof fn refused_source_is_avoided<TRq, TSrc>(
    state: SyncView<TRq, TSrc>,
    slot: usize,
    pick: usize,
)
    requires
        state.valid(),
        state.sources.entries.contains_key(slot),
        state.blocks_refused(Some(slot)).sources.available().len() > 0,
    ensures
        state.blocks_refused(Some(slot)).sources.picked(pick) != slot,
        state.sources.is_available(state.blocks_refused(Some(slot)).sources.picked(pick)),
{
    let after = state.blocks_refused(Some(slot)).sources;
    assert(after.entries.dom() =~= state.sources.entries.dom());
    after.available_slots_are_listed();
    assert(after.available().contains(after.available()[0]));
    after.any_available_source_can_be_picked(after.available()[0]);
    assert(after.is_available(after.picked(pick)));
}

/// A different source is tried: each of those that can be asked besides the one that has been
/// refused can be picked.
pub proof fn another_source_is_tried<TRq, TSrc>(
    state: SyncView<TRq, TSrc>,
    slot: usize,
    other: usize,
)
    requires
        state.valid(),
        state.sources.entries.contains_key(slot),
        state.sources.is_available(other),
        other != slot,
    ensures
        exists|pick: usize| state.blocks_refused(Some(slot)).sources.picked(pick) == other,
{
    let after = state.blocks_refused(Some(slot)).sources;
    assert(after.entries.dom() =~= state.sources.entries.dom());
    after.any_available_source_can_be_picked(other);
}

/// A ban lasts until the source is removed.
pub proof fn ban_lasts<TRq, TSrc>(
    state: SyncView<TRq, TSrc>,
    slot: usize,
    other: usize,
    user_data: TSrc,
    queue: QueueView<TRq>,
    pos: int,
    id: RequestId,
    blocks: Seq<RequestSuccessBlock>,
    chain: ChainStateUpdate,
)
    requires
        state.valid(),
        state.sources.has_room(),
        state.sources.entries.contains_key(slot),
        state.sources.entries[slot].banned,
        state.sources.entries.contains_key(other),
    ensures
        !state.sources.is_available(slot),
        !state.source_added(user_data).sources.is_available(slot),
        !state.source_removed(other).sources.is_available(slot),
        !state.with_user_data(other, user_data).sources.is_available(slot),
        !state.with_queue(queue).sources.is_available(slot),
        !state.request_cancelled(pos).sources.is_available(slot),
        !state.request_failed(id).sources.is_available(slot),
        !state.request_succeeded(id, blocks).sources.is_available(slot),
        !state.block_taken().sources.is_available(slot),
        !state.blocks_refused(Some(other)).sources.is_available(slot),
        !state.blocks_refused(None).sources.is_available(slot),
        !state.with_chain(chain).sources.is_available(slot),
{
    state.sources.added_is_fresh(user_data);
}

/// After blocks have been refused nothing is verified until every request has been cancelled. The
/// queue then starts over right behind the best block, with nothing requested.
pub proof fn refusal_starts_over<TRq, TSrc>(
    state: SyncView<TRq, TSrc>,
    sender: Option<usize>,
    queue: QueueView<TRq>,
)
    requires
        state.blocks_refused(sender).is_refilled_queue(queue),
    ensures
        !state.blocks_refused(sender).can_process(),
        queue.entries.len() > 0,
        queue.entries[0].block_height == state.chain.best_block_number + 1,
        forall|i: int| 0 <= i < queue.entries.len() ==> (#[trigger] queue.entries[i]).ty is Missing,
{
    assert(queue.entries.take(0).len() == 0);
}

/// The blocks that arrive for the first entry are the ones that are verified, against the heights
/// that they were requested for, and on the account of the source that has sent them.
pub proof fn arrived_blocks_are_verified<TRq, TSrc>(
    state: SyncView<TRq, TSrc>,
    id: RequestId,
    blocks: Seq<RequestSuccessBlock>,
    progress: BlockInProgress,
)
    requires
        state.valid(),
        !state.cancelling_requests,
        state.queue.is_request_at(0, id),
        blocks.len() > 0,
        state.request_succeeded(id, blocks).is_next_block(progress),
    ensures
        state.request_succeeded(id, blocks).can_process(),
        progress.block == Some(blocks[0]),
        progress.expected_height == state.queue.entries[0].block_height,
        progress.sender == Some(state.queue.entries[0].ty->source),
        progress.stage is Header,
        blocks.len() > 1 && state.queue.entries[0].block_height < u64::MAX ==> {
            let after = state.request_succeeded(id, blocks).block_taken();
            &&& after.can_process()
            &&& after.queue.entries[0].block_height == state.queue.entries[0].block_height + 1
            &&& after.queue.entries[0].ty->blocks == blocks.drop_first()
            &&& after.queue.entries[0].ty->sender == Some(state.queue.entries[0].ty->source)
            &&& after.queue.entries.drop_first() == state.queue.entries.drop_first()
        },
        blocks.len() == 1 ==> state.request_succeeded(id, blocks).block_taken().queue.entries
            == state.queue.entries.drop_first(),
{
    state.queue.position_is_unique(0, id);
    let after = state.request_succeeded(id, blocks).block_taken();
    if blocks.len() > 1 && state.queue.entries[0].block_height < u64::MAX {
        assert(after.queue.entries.drop_first() =~= state.queue.entries.drop_first());
    } else {
        assert(after.queue.entries =~= state.queue.entries.drop_first());
    }
}

/// The highest block that a request may start at: the one that is the configured number of blocks
/// ahead of the best block, or the next one where no download ahead is configured.
pub open spec fn window_end<TRq, TSrc>(state: SyncView<TRq, TSrc>) -> int {
    if state.download_ahead_blocks > 0 {
        state.chain.best_block_number + state.download_ahead_blocks
    } else {
        state.chain.best_block_number + 1
    }
}

/// No entry whose blocks have yet to arrive starts beyond the download-ahead window, unless the
/// queue is about to start over.
pub open spec fn in_window<TRq, TSrc>(state: SyncView<TRq, TSrc>) -> bool {
    state.cancelling_requests || forall|i: int|
        0 <= i < state.queue.entries.len() && !((#[trigger] state.queue.entries[i]).ty is Queued)
            ==> state.queue.entries[i].block_height <= window_end(state)
}

/// The block is in order, given what comes out of the verification of its header and of its
/// justification.
pub open spec fn block_in_order(
    height: int,
    block: RequestSuccessBlock,
    header: Result<HeaderVerifySuccess, VerifyError>,
    justification: Result<(), VerifyError>,
) -> bool {
    &&& match header {
        Ok(HeaderVerifySuccess::Insert { block_height, is_new_best }) => {
            is_new_best && block_height == height
        },
        Ok(HeaderVerifySuccess::Duplicate) => true,
        Err(_) => false,
    }
    &&& block.scale_encoded_justification is Some ==> justification is Ok
}

/// The block that is verified next.
pub open spec fn next_block<TRq, TSrc>(state: SyncView<TRq, TSrc>) -> BlockInProgress {
    BlockInProgress {
        block: state.queue.first_block(),
        expected_height: state.queue.entries[0].block_height,
        sender: state.queue.entries[0].ty->sender,
        stage: if state.queue.first_block() is Some {
            BlockStage::Header
        } else {
            BlockStage::Finished
        },
    }
}

/// What is done with the chain while a block is verified.
pub open spec fn block_actions(
    progress: BlockInProgress,
    header: Result<HeaderVerifySuccess, VerifyError>,
    justification: Result<(), VerifyError>,
) -> Seq<ChainAction> {
    if progress.after_header(header).stage is Justification {
        seq![progress.header_action(header), progress.justification_action(justification)]
    } else {
        seq![progress.header_action(header)]
    }
}

/// The state once the next block has been verified and the state of the chain has been reported.
pub open spec fn block_processed<TRq, TSrc>(
    state: SyncView<TRq, TSrc>,
    header: Result<HeaderVerifySuccess, VerifyError>,
    justification: Result<(), VerifyError>,
    report: ChainStateUpdate,
) -> SyncView<TRq, TSrc> {
    let progress = next_block(state);
    let after_header = state.block_taken().after_action(
        progress.header_action(header),
        progress.sender,
    );
    if progress.after_header(header).stage is Justification {
        after_header.after_action(
            progress.justification_action(justification),
            progress.sender,
        ).with_chain(report)
    } else {
        after_header.with_chain(report)
    }
}

/// A block that is not in order has the chain cleared, its sender banned, and nothing more verified
/// until everything has been requested anew. A block that is in order has none of this.
pub proof fn blocks_out_of_order_are_refused<TRq, TSrc>(
    state: SyncView<TRq, TSrc>,
    header: Result<HeaderVerifySuccess, VerifyError>,
    justification: Result<(), VerifyError>,
    report: ChainStateUpdate,
)
    requires
        state.valid(),
        state.can_process(),
        state.queue.first_block() is Some,
    ensures
        ({
            let progress = next_block(state);
            let actions = block_actions(progress, header, justification);
            let after = block_processed(state, header, justification, report);
            &&& state.is_next_block(progress)
            &&& after.chain == report
            &&& if block_in_order(
                progress.expected_height as int,
                progress.block->0,
                header,
                justification,
            ) {
                &&& !actions.contains(ChainAction::Clear)
                &&& after == state.block_taken().with_chain(report)
            } else {
                &&& actions.last() is Clear
                &&& after == state.block_taken().blocks_refused(progress.sender).with_chain(report)
                &&& !after.can_process()
                &&& progress.sender is Some ==> !after.sources.is_available(progress.sender->0)
            }
        }),
{
}

/// The state once the blocks from the `i`-th one on have been verified.
pub open spec fn blocks_processed<TRq, TSrc>(
    state: SyncView<TRq, TSrc>,
    headers: Seq<Result<HeaderVerifySuccess, VerifyError>>,
    justifications: Seq<Result<(), VerifyError>>,
    reports: Seq<ChainStateUpdate>,
    i: int,
) -> SyncView<TRq, TSrc>
    decreases headers.len() - i,
{
    if i < headers.len() && state.can_process() {
        blocks_processed(
            block_processed(state, headers[i], justifications[i], reports[i]),
            headers,
            justifications,
            reports,
            i + 1,
        )
    } else {
        state
    }
}

/// What is done with the chain, and on account of which block, while the blocks from the `i`-th one
/// on are verified.
pub open spec fn actions_taken<TRq, TSrc>(
    state: SyncView<TRq, TSrc>,
    headers: Seq<Result<HeaderVerifySuccess, VerifyError>>,
    justifications: Seq<Result<(), VerifyError>>,
    reports: Seq<ChainStateUpdate>,
    i: int,
) -> Seq<(RequestSuccessBlock, ChainAction)>
    decreases headers.len() - i,
{
    if i < headers.len() && state.can_process() {
        let progress = next_block(state);
        block_actions(progress, headers[i], justifications[i]).map_values(
            |action: ChainAction| (progress.block->0, action),
        ) + actions_taken(
            block_processed(state, headers[i], justifications[i], reports[i]),
            headers,
            justifications,
            reports,
            i + 1,
        )
    } else {
        Seq::empty()
    }
}

/// From the `i`-th block on, each block in its turn: it is inserted, unless the chain holds it
/// already, and then its justification is applied, if it has one.
pub open spec fn actions_in_order(
    blocks: Seq<RequestSuccessBlock>,
    headers: Seq<Result<HeaderVerifySuccess, VerifyError>>,
    i: int,
) -> Seq<(RequestSuccessBlock, ChainAction)>
    decreases blocks.len() - i,
{
    if i < blocks.len() {
        let action = if headers[i]->Ok_0 is Duplicate {
            ChainAction::Keep
        } else {
            ChainAction::Insert
        };
        let of_block = if blocks[i].scale_encoded_justification is Some {
            seq![(blocks[i], action), (blocks[i], ChainAction::Apply)]
        } else {
            seq![(blocks[i], action)]
        };
        of_block + actions_in_order(blocks, headers, i + 1)
    } else {
        Seq::empty()
    }
}

proof fn remaining_blocks_are_processed<TRq, TSrc>(
    state: SyncView<TRq, TSrc>,
    blocks: Seq<RequestSuccessBlock>,
    first_height: int,
    headers: Seq<Result<HeaderVerifySuccess, VerifyError>>,
    justifications: Seq<Result<(), VerifyError>>,
    reports: Seq<ChainStateUpdate>,
    i: int,
)
    requires
        state.can_process(),
        0 <= i < blocks.len(),
        state.queue.entries[0].ty->blocks == blocks.skip(i),
        state.queue.entries[0].block_height == first_height + i,
        first_height + blocks.len() - 1 <= u64::MAX,
        headers.len() == blocks.len(),
        justifications.len() == blocks.len(),
        reports.len() == blocks.len(),
        forall|k: int|
            i <= k < blocks.len() ==> block_in_order(
                first_height + k,
                #[trigger] blocks[k],
                headers[k],
                justifications[k],
            ),
    ensures
        blocks_processed(state, headers, justifications, reports, i) == (SyncView {
            chain: reports[blocks.len() - 1],
            queue: state.queue.popped(),
            ..state
        }),
        actions_taken(state, headers, justifications, reports, i) == actions_in_order(
            blocks,
            headers,
            i,
        ),
    decreases blocks.len() - i,
{
    reveal_with_fuel(blocks_processed, 2);
    reveal_with_fuel(actions_taken, 2);
    reveal_with_fuel(actions_in_order, 2);
    let progress = next_block(state);
    let next = block_processed(state, headers[i], justifications[i], reports[i]);
    assert(blocks.skip(i)[0] == blocks[i]);
    assert(progress.block == Some(blocks[i]));
    assert(block_in_order(first_height + i, blocks[i], headers[i], justifications[i]));
    assert(progress.accepts(headers[i]));
    assert(next == state.block_taken().with_chain(reports[i]));
    assert(block_actions(progress, headers[i], justifications[i]).map_values(
        |action: ChainAction| (progress.block->0, action),
    ) + actions_in_order(blocks, headers, i + 1) =~= actions_in_order(blocks, headers, i));
    if i + 1 < blocks.len() {
        assert(blocks.skip(i).drop_first() =~= blocks.skip(i + 1));
        remaining_blocks_are_processed(
            next,
            blocks,
            first_height,
            headers,
            justifications,
            reports,
            i + 1,
        );
        assert(next.queue.popped().entries =~= state.queue.popped().entries);
    }
}

/// A response whose blocks are all in order is verified whole, one block per call: each block is
/// inserted in its turn, none is skipped, each justification is applied behind its block, and then
/// the entry is gone. Where the last block is new, and where the best block that is reported after
/// its insertion is the one that was inserted, the last report is about the last block of the
/// response.
pub proof fn whole_response_is_verified<TRq, TSrc>(
    state: SyncView<TRq, TSrc>,
    headers: Seq<Result<HeaderVerifySuccess, VerifyError>>,
    justifications: Seq<Result<(), VerifyError>>,
    reports: Seq<ChainStateUpdate>,
)
    requires
        state.can_process(),
        state.queue.entries[0].ty->blocks.len() > 0,
        state.queue.entries[0].block_height + state.queue.entries[0].ty->blocks.len() - 1
            <= u64::MAX,
        headers.len() == state.queue.entries[0].ty->blocks.len(),
        justifications.len() == headers.len(),
        reports.len() == headers.len(),
        forall|k: int|
            0 <= k < headers.len() ==> block_in_order(
                state.queue.entries[0].block_height + k,
                #[trigger] state.queue.entries[0].ty->blocks[k],
                headers[k],
                justifications[k],
            ),
    ensures
        ({
            let blocks = state.queue.entries[0].ty->blocks;
            let last = blocks.len() - 1;
            let end = blocks_processed(state, headers, justifications, reports, 0);
            &&& end == (SyncView {
                chain: reports[last],
                queue: state.queue.popped(),
                ..state
            })
            &&& actions_taken(state, headers, justifications, reports, 0) == actions_in_order(
                blocks,
                headers,
                0,
            )
            &&& headers[last]->Ok_0 is Insert && reports[last].best_block_number
                == headers[last]->Ok_0->block_height ==> end.chain.best_block_number
                == state.queue.entries[0].block_height + last
        }),
{
    let blocks = state.queue.entries[0].ty->blocks;
    assert(blocks.skip(0) =~= blocks);
    remaining_blocks_are_processed(
        state,
        blocks,
        state.queue.entries[0].block_height as int,
        headers,
        justifications,
        reports,
        0,
    );
    let last = blocks.len() - 1;
    assert(block_in_order(
        state.queue.entries[0].block_height + last,
        blocks[last],
        headers[last],
        justifications[last],
    ));
}

} // verus!
