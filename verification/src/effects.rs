//! What each operation does to each part of the state, and what it leaves alone.

use crate::block::{
    BlockInProgress, BlockStage, ChainAction, HeaderVerifySuccess, VerificationStep, VerifyError,
};
use crate::queue::{EntryState, QueueView, RequestId};
use crate::sync::SyncView;
use crate::types::{ChainStateUpdate, RequestSuccessBlock};
use vstd::prelude::*;

verus! {

/// A new source takes the slot that was released last, or else a new one behind all the others. It
/// has the user data that was given and can be asked for blocks. Everything else stays as it is.
pub proof fn adding_a_source<TRq, TSrc>(state: SyncView<TRq, TSrc>, user_data: TSrc)
    requires
        state.valid(),
        state.sources.has_room(),
    ensures
        ({
            let slot = state.sources.next_slot() as usize;
            let vacant = state.sources.vacant;
            let after = state.source_added(user_data);
            &&& if vacant.len() > 0 {
                &&& slot == vacant[vacant.len() - 1]
                &&& after.sources.vacant == vacant.take(vacant.len() - 1)
            } else {
                &&& slot == state.sources.entries.len()
                &&& after.sources.vacant.len() == 0
            }
            &&& !state.sources.entries.contains_key(slot)
            &&& after.sources.entries.contains_key(slot)
            &&& after.sources.entries[slot].user_data == user_data
            &&& !after.sources.entries[slot].banned
            &&& forall|other: usize|
                other != slot ==> {
                    &&& #[trigger] after.sources.entries.contains_key(other)
                        == state.sources.entries.contains_key(other)
                    &&& after.sources.entries[other] == state.sources.entries[other]
                }
            &&& after.queue == state.queue
            &&& after.chain == state.chain
            &&& after.cancelling_requests == state.cancelling_requests
            &&& after.download_ahead_blocks == state.download_ahead_blocks
        }),
{
    state.sources.added_is_fresh(user_data);
    assert(state.source_added(user_data).sources.vacant =~= if state.sources.vacant.len() > 0 {
        state.sources.vacant.take(state.sources.vacant.len() - 1)
    } else {
        state.sources.vacant
    });
}

/// There is room for one more source until the storage of the slots, in use or released, is full.
pub proof fn room_for_sources<TRq, TSrc>(state: SyncView<TRq, TSrc>)
    ensures
        state.sources.has_room() <==> (state.sources.entries.len() + state.sources.vacant.len())
            * 32 <= isize::MAX,
{
}

/// Removing a source leaves the other sources as they are, and every block that has arrived in its
/// place, whoever has sent it: such an entry keeps its blocks, in their order, and its heights. A
/// request to the source has to be made anew, for the same heights. A request to another source
/// stays as it is.
pub proof fn removing_a_source<TRq, TSrc>(state: SyncView<TRq, TSrc>, slot: usize)
    requires
        state.sources.entries.contains_key(slot),
    ensures
        ({
            let before = state.queue.entries;
            let after = state.source_removed(slot);
            let entries = after.queue.entries;
            &&& !after.sources.entries.contains_key(slot)
            &&& after.sources.vacant == state.sources.vacant.push(slot)
            &&& forall|other: usize|
                other != slot ==> {
                    &&& #[trigger] after.sources.entries.contains_key(other)
                        == state.sources.entries.contains_key(other)
                    &&& after.sources.entries[other] == state.sources.entries[other]
                }
            &&& entries.len() == before.len()
            &&& forall|i: int|
                0 <= i < before.len() ==> {
                    &&& (#[trigger] entries[i]).first_height == before[i].first_height
                    &&& entries[i].block_height == before[i].block_height
                    &&& match before[i].ty {
                        EntryState::Missing => entries[i].ty is Missing,
                        EntryState::Requested { id, user_data, source } => {
                            if source == slot {
                                entries[i].ty is Missing
                            } else {
                                entries[i].ty == before[i].ty
                            }
                        },
                        EntryState::Queued { blocks, sender } => {
                            &&& entries[i].ty is Queued
                            &&& entries[i].ty->blocks == blocks
                            &&& entries[i].ty->sender == if sender == Some(slot) {
                                None
                            } else {
                                sender
                            }
                        },
                    }
                }
            &&& after.queue.next_request_id == state.queue.next_request_id
            &&& after.queue.granularity == state.queue.granularity
            &&& after.chain == state.chain
            &&& after.cancelling_requests == state.cancelling_requests
            &&& after.download_ahead_blocks == state.download_ahead_blocks
        }),
{
    assert(state.source_removed(slot).queue.entries.len() == state.queue.entries.len());
    assert forall|i: int| 0 <= i < state.queue.entries.len() implies (
    #[trigger] state.source_removed(slot).queue.entries[i]) == state.queue.entries[i].released(
        slot,
    ) by {}
}

/// `positions` are the positions of the requests to `slot`, each of them once, from the front to the
/// back.
pub open spec fn are_positions_of_requests_to<TRq>(
    queue: QueueView<TRq>,
    slot: usize,
    positions: Seq<int>,
) -> bool {
    &&& forall|k: int|
        0 <= k < positions.len() ==> {
            &&& 0 <= #[trigger] positions[k] < queue.entries.len()
            &&& queue.entries[positions[k]].ty is Requested
            &&& queue.entries[positions[k]].ty->source == slot
        }
    &&& forall|k: int, l: int|
        0 <= k < l < positions.len() ==> #[trigger] positions[k] < #[trigger] positions[l]
    &&& forall|i: int|
        0 <= i < queue.entries.len() && (#[trigger] queue.entries[i]).ty is Requested
            && queue.entries[i].ty->source == slot ==> positions.contains(i)
}

/// The requests that are handed out when a source is removed are those that were addressed to it:
/// all of them, nothing else, each of them once, from the front of the queue to its back, and each
/// with its user data.
pub proof fn requests_of_a_removed_source<TRq>(queue: QueueView<TRq>, slot: usize)
    ensures
        exists|positions: Seq<int>| {
            &&& #[trigger] are_positions_of_requests_to(queue, slot, positions)
            &&& queue.requests_to(slot).len() == positions.len()
            &&& forall|k: int|
                0 <= k < positions.len() ==> {
                    let entry = queue.entries[positions[k]];
                    #[trigger] queue.requests_to(slot)[k] == (entry.ty->id, entry.ty->user_data)
                }
        },
    decreases queue.entries.len(),
{
    reveal(Seq::filter);
    let requests = queue.requests_to(slot);
    if queue.entries.len() == 0 {
        let positions = Seq::<int>::empty();
        assert(are_positions_of_requests_to(queue, slot, positions));
    } else {
        let last = queue.entries.len() - 1;
        let shorter = queue.truncated(last);
        assert(queue.entries.drop_last() =~= shorter.entries);
        requests_of_a_removed_source(shorter, slot);
        let fewer = choose|positions: Seq<int>| {
            &&& #[trigger] are_positions_of_requests_to(shorter, slot, positions)
            &&& shorter.requests_to(slot).len() == positions.len()
            &&& forall|k: int|
                0 <= k < positions.len() ==> {
                    let entry = shorter.entries[positions[k]];
                    #[trigger] shorter.requests_to(slot)[k] == (entry.ty->id, entry.ty->user_data)
                }
        };
        let is_last = queue.entries[last].ty is Requested && queue.entries[last].ty->source == slot;
        let positions = if is_last {
            fewer.push(last)
        } else {
            fewer
        };
        assert(queue.entries[last].is_request_to(slot) == is_last);
        if is_last {
            assert(requests =~= shorter.requests_to(slot).push(queue.entries[last].request()));
        } else {
            assert(requests =~= shorter.requests_to(slot));
        }
        assert forall|k: int| 0 <= k < positions.len() implies {
            let entry = queue.entries[positions[k]];
            #[trigger] requests[k] == (entry.ty->id, entry.ty->user_data)
        } by {
            if k < fewer.len() {
                assert(shorter.entries[fewer[k]] == queue.entries[fewer[k]]);
                assert(requests[k] == shorter.requests_to(slot)[k]);
            }
        }
        assert forall|i: int|
            0 <= i < queue.entries.len() && (#[trigger] queue.entries[i]).ty is Requested
                && queue.entries[i].ty->source == slot implies positions.contains(i) by {
            if i < last {
                assert(shorter.entries[i] == queue.entries[i]);
                assert(fewer.contains(i));
                let k = choose|k: int| 0 <= k < fewer.len() && fewer[k] == i;
                assert(positions[k] == i);
            } else {
                assert(positions[positions.len() - 1] == i);
            }
        }
        assert(are_positions_of_requests_to(queue, slot, positions));
    }
}

/// Writing the user data of a source changes nothing else: neither whether it can be asked for
/// blocks, nor another source, nor the queue.
pub proof fn writing_user_data<TRq, TSrc>(
    state: SyncView<TRq, TSrc>,
    slot: usize,
    user_data: TSrc,
)
    requires
        state.sources.entries.contains_key(slot),
    ensures
        ({
            let after = state.with_user_data(slot, user_data);
            &&& after.sources.entries.contains_key(slot)
            &&& after.sources.entries[slot].user_data == user_data
            &&& after.sources.entries[slot].banned == state.sources.entries[slot].banned
            &&& forall|other: usize|
                other != slot ==> {
                    &&& #[trigger] after.sources.entries.contains_key(other)
                        == state.sources.entries.contains_key(other)
                    &&& after.sources.entries[other] == state.sources.entries[other]
                }
            &&& after.sources.vacant == state.sources.vacant
            &&& after.queue == state.queue
            &&& after.chain == state.chain
            &&& after.cancelling_requests == state.cancelling_requests
            &&& after.download_ahead_blocks == state.download_ahead_blocks
        }),
{
}

/// Requests are cancelled from the back of the queue. A cancellation takes the last request away
/// with all that stands behind it, leaves what stands before it, and leaves the sources as they
/// are: each one that could be asked for blocks still can be. The cancelling goes on.
pub proof fn cancelling_a_request<TRq, TSrc>(state: SyncView<TRq, TSrc>, pos: int)
    requires
        state.is_next_cancelled(pos),
    ensures
        ({
            let before = state.queue.entries;
            let after = state.request_cancelled(pos);
            &&& state.cancelling_requests
            &&& 0 <= pos < before.len()
            &&& before[pos].ty is Requested
            &&& forall|i: int|
                pos < i < before.len() ==> !((#[trigger] before[i]).ty is Requested)
            &&& after.queue.entries.len() == pos
            &&& forall|i: int| 0 <= i < pos ==> #[trigger] after.queue.entries[i] == before[i]
            &&& after.queue.next_request_id == state.queue.next_request_id
            &&& after.queue.granularity == state.queue.granularity
            &&& after.sources.entries == state.sources.entries
            &&& after.sources.vacant == state.sources.vacant
            &&& after.chain == state.chain
            &&& after.cancelling_requests
            &&& after.download_ahead_blocks == state.download_ahead_blocks
        }),
{
}

/// It is time to start requests where requests are not being cancelled, or where none is left
/// without an answer. As long as one is left, the last one is the next to be cancelled.
pub proof fn cancelling_is_over<TRq, TSrc>(state: SyncView<TRq, TSrc>)
    ensures
        state.nothing_to_cancel() <==> (!state.cancelling_requests || forall|i: int|
            0 <= i < state.queue.entries.len() ==> !((
            #[trigger] state.queue.entries[i]).ty is Requested)),
        !state.nothing_to_cancel() <==> exists|pos: int| #[trigger] state.is_next_cancelled(pos),
{
    if !state.nothing_to_cancel() {
        let i = choose|i: int|
            0 <= i < state.queue.entries.len() && state.queue.entries[i].ty is Requested;
        let pos = last_request_from(state.queue, i);
        assert(state.is_next_cancelled(pos));
    }
}

proof fn last_request_from<TRq>(queue: QueueView<TRq>, i: int) -> (pos: int)
    requires
        0 <= i < queue.entries.len(),
        queue.entries[i].ty is Requested,
    ensures
        queue.is_last_request(pos),
    decreases queue.entries.len() - i,
{
    if exists|j: int| i < j < queue.entries.len() && queue.entries[j].ty is Requested {
        let j = choose|j: int| i < j < queue.entries.len() && queue.entries[j].ty is Requested;
        last_request_from(queue, j)
    } else {
        i
    }
}

/// Requests can be started where the heights of the next block and of the block that is the
/// configured number of blocks ahead can be represented. Cancelling has no such limit.
pub proof fn heights_that_fit<TRq, TSrc>(state: SyncView<TRq, TSrc>)
    ensures
        state.ready_for_requests() <==> {
            ||| state.chain.best_block_number + 1 <= u64::MAX && state.chain.best_block_number
                + state.download_ahead_blocks <= u64::MAX
            ||| exists|pos: int| #[trigger] state.is_next_cancelled(pos)
        },
{
    cancelling_is_over(state);
}

/// A refill loses nothing: what stands in the queue stays there, unless requests were being
/// cancelled, where the queue starts over. New entries have yet to be requested. Each one starts
/// where the one before it ends, and the first one of an empty queue right behind the best block.
/// There are as many as it takes to have an entry for the block that is the configured number of
/// blocks ahead, and at least one entry, and not one more.
pub proof fn refilling_the_queue<TRq, TSrc>(state: SyncView<TRq, TSrc>, queue: QueueView<TRq>)
    requires
        state.is_refilled_queue(queue),
    ensures
        ({
            let kept = if state.cancelling_requests {
                0
            } else {
                state.queue.entries.len() as int
            };
            let target = state.chain.best_block_number + state.download_ahead_blocks;
            let last = queue.entries.len() - 1;
            &&& kept <= queue.entries.len()
            &&& queue.entries.len() > 0
            &&& forall|i: int|
                0 <= i < kept ==> #[trigger] queue.entries[i] == state.queue.entries[i]
            &&& forall|i: int|
                kept <= i < queue.entries.len() ==> {
                    &&& (#[trigger] queue.entries[i]).ty is Missing
                    &&& queue.entries[i].block_height == queue.entries[i].first_height
                    &&& i == 0 ==> queue.entries[i].first_height == state.chain.best_block_number
                        + 1
                    &&& i > 0 ==> {
                        &&& queue.entries[i].first_height == queue.entries[i - 1].first_height
                            + state.queue.granularity
                        &&& queue.entries[i].first_height <= target
                    }
                }
            &&& queue.entries[last].first_height + state.queue.granularity > target
            &&& queue.next_request_id == state.queue.next_request_id
            &&& queue.granularity == state.queue.granularity
        }),
        ({
            let after = state.with_queue(queue);
            &&& after.queue == queue
            &&& !after.cancelling_requests
            &&& after.sources == state.sources
            &&& after.chain == state.chain
            &&& after.download_ahead_blocks == state.download_ahead_blocks
        }),
{
    let before = state.surviving_queue();
    let kept = before.entries.len() as int;
    assert forall|i: int| 0 <= i < kept implies #[trigger] queue.entries[i]
        == state.queue.entries[i] by {
        assert(queue.entries.take(kept)[i] == queue.entries[i]);
    }
    assert forall|i: int| kept <= i < queue.entries.len() implies {
        &&& (#[trigger] queue.entries[i]).ty is Missing
        &&& queue.entries[i].block_height == queue.entries[i].first_height
        &&& i == 0 ==> queue.entries[i].first_height == state.chain.best_block_number + 1
        &&& i > 0 ==> {
            &&& queue.entries[i].first_height == queue.entries[i - 1].first_height
                + state.queue.granularity
            &&& queue.entries[i].first_height <= state.chain.best_block_number
                + state.download_ahead_blocks
        }
    } by {
        if i > 0 {
            assert(queue.entries.take(i).last() == queue.entries[i - 1]);
        } else {
            assert(queue.entries.take(0).len() == 0);
        }
    }
}

/// The entry that is requested next is the lowest one that has yet to be requested. Nothing is left
/// to request where there is none.
pub proof fn choosing_the_entry_to_request<TRq>(queue: QueueView<TRq>, pos: int)
    ensures
        queue.is_first_missing(pos) <==> {
            &&& 0 <= pos < queue.entries.len()
            &&& queue.entries[pos].ty is Missing
            &&& forall|i: int| 0 <= i < pos ==> !((#[trigger] queue.entries[i]).ty is Missing)
        },
        queue.no_missing() <==> forall|i: int|
            0 <= i < queue.entries.len() ==> !((#[trigger] queue.entries[i]).ty is Missing),
{
}

/// A request asks for all the blocks of its entry, whether or not there is an entry behind it: it
/// starts at the first height of the entry and reaches to where the next entry starts or will start.
pub proof fn counting_the_blocks_to_request<TRq>(queue: QueueView<TRq>, pos: int)
    requires
        queue.valid(),
        0 <= pos < queue.entries.len(),
        !(queue.entries[pos].ty is Queued),
    ensures
        queue.entries[pos].block_height == queue.entries[pos].first_height,
        queue.entries[pos].block_height + queue.num_blocks(pos) == queue.entries[pos].first_height
            + queue.granularity,
        pos + 1 < queue.entries.len() ==> queue.entries[pos + 1].first_height
            == queue.entries[pos].block_height + queue.num_blocks(pos),
{
    if pos + 1 < queue.entries.len() {
        assert(queue.entries[pos + 1].first_height == queue.entries[pos].first_height
            + queue.granularity);
    }
}

/// The blocks that an offered request asks for are followed by those of the next entry, also where
/// that entry is added by a later refill only.
pub proof fn requests_follow_each_other<TRq, TSrc>(
    state: SyncView<TRq, TSrc>,
    queue: QueueView<TRq>,
    pos: int,
    later: SyncView<TRq, TSrc>,
    longer: QueueView<TRq>,
)
    requires
        state.valid(),
        state.is_refilled_queue(queue),
        0 <= pos < queue.entries.len(),
        !(queue.entries[pos].ty is Queued),
        later.queue == queue,
        !later.cancelling_requests,
        later.is_refilled_queue(longer),
        pos + 1 < longer.entries.len(),
    ensures
        longer.entries[pos] == queue.entries[pos],
        longer.entries[pos + 1].first_height == queue.entries[pos].block_height
            + queue.num_blocks(pos),
{
    crate::laws::refilled_queue_is_valid(state, queue);
    counting_the_blocks_to_request(queue, pos);
    refilling_the_queue(later, longer);
    assert(longer.entries[pos] == queue.entries[pos]);
    if pos + 1 < queue.entries.len() {
        assert(longer.entries[pos + 1] == queue.entries[pos + 1]);
    }
}

/// Starting a request marks one entry with the request, its user data and its source, and uses one
/// number up. The heights and the other entries stay as they are.
pub proof fn starting_a_request<TRq>(
    queue: QueueView<TRq>,
    pos: int,
    id: RequestId,
    slot: usize,
    user_data: TRq,
)
    requires
        0 <= pos < queue.entries.len(),
        queue.next_request_id < u64::MAX,
    ensures
        ({
            let after = queue.started(pos, id, slot, user_data);
            &&& after.entries.len() == queue.entries.len()
            &&& after.entries[pos].ty is Requested
            &&& after.entries[pos].ty->id == id
            &&& after.entries[pos].ty->user_data == user_data
            &&& after.entries[pos].ty->source == slot
            &&& after.entries[pos].first_height == queue.entries[pos].first_height
            &&& after.entries[pos].block_height == queue.entries[pos].block_height
            &&& forall|i: int|
                0 <= i < queue.entries.len() && i != pos ==> #[trigger] after.entries[i]
                    == queue.entries[i]
            &&& after.next_request_id == queue.next_request_id + 1
            &&& after.granularity == queue.granularity
        }),
{
}

/// An identifier is valid where an entry stands for it, and there is but one such entry.
pub proof fn finding_a_request<TRq>(queue: QueueView<TRq>, id: RequestId)
    requires
        queue.valid(),
    ensures
        queue.has_request(id) <==> exists|pos: int|
            0 <= pos < queue.entries.len() && (#[trigger] queue.entries[pos]).ty is Requested
                && queue.entries[pos].ty->id == id,
        forall|pos: int|
            0 <= pos < queue.entries.len() && (#[trigger] queue.entries[pos]).ty is Requested
                && queue.entries[pos].ty->id == id ==> queue.position(id) == pos,
{
    if queue.has_request(id) {
        assert(queue.is_request_at(queue.position(id), id));
    }
    assert forall|pos: int|
        0 <= pos < queue.entries.len() && (#[trigger] queue.entries[pos]).ty is Requested
            && queue.entries[pos].ty->id == id implies queue.position(id) == pos
        && queue.has_request(id) by {
        assert(queue.is_request_at(pos, id));
        queue.position_is_unique(pos, id);
    }
}

/// A response is queued where it was asked for, whatever that position is: exactly its blocks, in
/// its order, at the heights of the request, on the account of the source that was asked. A failure
/// has the same blocks requested anew. In either case the other entries and the sources stay as
/// they are.
pub proof fn finishing_a_request<TRq, TSrc>(
    state: SyncView<TRq, TSrc>,
    id: RequestId,
    pos: int,
    blocks: Seq<RequestSuccessBlock>,
)
    requires
        state.valid(),
        0 <= pos < state.queue.entries.len(),
        state.queue.entries[pos].ty is Requested,
        state.queue.entries[pos].ty->id == id,
    ensures
        ({
            let before = state.queue.entries;
            let after = state.request_succeeded(id, blocks);
            let entries = after.queue.entries;
            &&& entries.len() == before.len()
            &&& entries[pos].ty is Queued
            &&& entries[pos].ty->blocks == blocks
            &&& entries[pos].ty->sender == Some(before[pos].ty->source)
            &&& entries[pos].first_height == before[pos].first_height
            &&& entries[pos].block_height == before[pos].block_height
            &&& forall|i: int|
                0 <= i < before.len() && i != pos ==> #[trigger] entries[i] == before[i]
            &&& after.queue.next_request_id == state.queue.next_request_id
            &&& after.queue.granularity == state.queue.granularity
            &&& after.sources == state.sources
            &&& after.chain == state.chain
            &&& after.cancelling_requests == state.cancelling_requests
            &&& after.download_ahead_blocks == state.download_ahead_blocks
        }),
        ({
            let before = state.queue.entries;
            let after = state.request_failed(id);
            let entries = after.queue.entries;
            &&& entries.len() == before.len()
            &&& entries[pos].ty is Missing
            &&& entries[pos].first_height == before[pos].first_height
            &&& entries[pos].block_height == before[pos].block_height
            &&& forall|i: int|
                0 <= i < before.len() && i != pos ==> #[trigger] entries[i] == before[i]
            &&& after.queue.next_request_id == state.queue.next_request_id
            &&& after.queue.granularity == state.queue.granularity
            &&& after.sources == state.sources
            &&& after.chain == state.chain
            &&& after.cancelling_requests == state.cancelling_requests
            &&& after.download_ahead_blocks == state.download_ahead_blocks
        }),
{
    finding_a_request(state.queue, id);
}

/// Blocks are verified where those of the first entry have arrived, unless requests are being
/// cancelled. The block that is verified is the first one of that entry, against the height of the
/// entry, and on the account of the source that has sent it.
pub proof fn choosing_the_block_to_verify<TRq, TSrc>(
    state: SyncView<TRq, TSrc>,
    progress: BlockInProgress,
)
    ensures
        state.can_process() <==> {
            &&& !state.cancelling_requests
            &&& state.queue.entries.len() > 0
            &&& state.queue.entries[0].ty is Queued
        },
        state.is_next_block(progress) ==> {
            let first = state.queue.entries[0];
            &&& progress.expected_height == first.block_height
            &&& progress.sender == first.ty->sender
            &&& first.ty->blocks.len() > 0 ==> {
                &&& progress.block == Some(first.ty->blocks[0])
                &&& progress.stage is Header
            }
            &&& first.ty->blocks.len() == 0 ==> {
                &&& progress.block is None
                &&& progress.stage is Finished
            }
        },
{
}

/// Taking a block out leaves the other blocks of the entry in their order, for the heights behind
/// it, and on the account of the same source. Once no block is left the entry is gone, and the next
/// one is the first one. The other entries and the sources stay as they are.
pub proof fn taking_a_block<TRq, TSrc>(state: SyncView<TRq, TSrc>)
    requires
        state.can_process(),
    ensures
        ({
            let before = state.queue.entries;
            let blocks = before[0].ty->blocks;
            let after = state.block_taken();
            let entries = after.queue.entries;
            &&& if blocks.len() > 1 && before[0].block_height < u64::MAX {
                &&& entries.len() == before.len()
                &&& entries[0].ty is Queued
                &&& entries[0].ty->blocks.len() == blocks.len() - 1
                &&& forall|k: int|
                    0 <= k < blocks.len() - 1 ==> #[trigger] entries[0].ty->blocks[k] == blocks[k
                        + 1]
                &&& entries[0].ty->sender == before[0].ty->sender
                &&& entries[0].block_height == before[0].block_height + 1
                &&& entries[0].first_height == before[0].first_height
                &&& forall|i: int| 0 < i < before.len() ==> #[trigger] entries[i] == before[i]
            } else {
                &&& entries.len() == before.len() - 1
                &&& forall|i: int|
                    0 <= i < before.len() - 1 ==> #[trigger] entries[i] == before[i + 1]
            }
            &&& after.queue.next_request_id == state.queue.next_request_id
            &&& after.queue.granularity == state.queue.granularity
            &&& after.sources == state.sources
            &&& after.chain == state.chain
            &&& after.cancelling_requests == state.cancelling_requests
            &&& after.download_ahead_blocks == state.download_ahead_blocks
        }),
{
}

/// Refusing blocks has everything cancelled, and bans the source that has sent them, if it is still
/// there. It keeps its user data. No other source is banned, and the queue stays as it is until the
/// requests are cancelled.
pub proof fn refusing_blocks<TRq, TSrc>(state: SyncView<TRq, TSrc>, sender: Option<usize>)
    requires
        sender is Some ==> state.sources.entries.contains_key(sender->0),
    ensures
        ({
            let after = state.blocks_refused(sender);
            &&& after.cancelling_requests
            &&& sender matches Some(slot) ==> {
                &&& after.sources.entries.contains_key(slot)
                &&& after.sources.entries[slot].banned
                &&& after.sources.entries[slot].user_data == state.sources.entries[slot].user_data
            }
            &&& forall|other: usize|
                sender != Some(other) ==> {
                    &&& #[trigger] after.sources.entries.contains_key(other)
                        == state.sources.entries.contains_key(other)
                    &&& after.sources.entries[other] == state.sources.entries[other]
                }
            &&& after.sources.vacant == state.sources.vacant
            &&& after.queue == state.queue
            &&& after.chain == state.chain
            &&& after.download_ahead_blocks == state.download_ahead_blocks
        }),
{
}

/// Clearing the chain has the blocks refused. No other action changes the state. The report of the
/// chain is taken over as it is, and changes nothing else.
pub proof fn acting_on_the_chain<TRq, TSrc>(
    state: SyncView<TRq, TSrc>,
    action: ChainAction,
    sender: Option<usize>,
    chain: ChainStateUpdate,
)
    ensures
        action == ChainAction::Clear ==> state.after_action(action, sender)
            == state.blocks_refused(sender),
        action != ChainAction::Clear ==> state.after_action(action, sender) == state,
        ({
            let after = state.with_chain(chain);
            &&& after.chain == chain
            &&& after.sources == state.sources
            &&& after.queue == state.queue
            &&& after.cancelling_requests == state.cancelling_requests
            &&& after.download_ahead_blocks == state.download_ahead_blocks
        }),
{
}

/// What is handed out to be verified is the header of the block, then its justification, byte for
/// byte, and then nothing more.
pub proof fn handing_out_what_to_verify(progress: BlockInProgress, step: VerificationStep<'_>)
    requires
        progress.valid(),
        progress.is_step(step),
    ensures
        progress.stage is Header ==> {
            &&& progress.block is Some
            &&& step is Header
            &&& step->Header_0@ == progress.block->0.scale_encoded_header@
        },
        progress.stage is Justification ==> {
            &&& progress.block is Some
            &&& progress.block->0.scale_encoded_justification is Some
            &&& step is Justification
            &&& step->Justification_0@ == progress.block->0.scale_encoded_justification->0@
        },
        progress.stage is Finished ==> step is Report,
{
}

/// A header that is not valid has the chain cleared, and so has a block that is not the new best one
/// or not at the height that was asked for. Another one is inserted, unless the chain holds it
/// already. The justification is next where the block has one and hasn't been refused. The block,
/// its height and its sender stay the same.
pub proof fn judging_a_header(
    progress: BlockInProgress,
    outcome: Result<HeaderVerifySuccess, VerifyError>,
)
    requires
        progress.block is Some,
    ensures
        ({
            let action = progress.header_action(outcome);
            let after = progress.after_header(outcome);
            &&& match outcome {
                Ok(HeaderVerifySuccess::Insert { block_height, is_new_best }) => {
                    if is_new_best && block_height == progress.expected_height {
                        action == ChainAction::Insert
                    } else {
                        action == ChainAction::Clear
                    }
                },
                Ok(HeaderVerifySuccess::Duplicate) => action == ChainAction::Keep,
                Err(_) => action == ChainAction::Clear,
            }
            &&& after.stage == if action != ChainAction::Clear
                && progress.block->0.scale_encoded_justification is Some {
                BlockStage::Justification
            } else {
                BlockStage::Finished
            }
            &&& after.block == progress.block
            &&& after.expected_height == progress.expected_height
            &&& after.sender == progress.sender
        }),
{
}

/// A justification that is valid is applied. Another one has the chain cleared. Nothing is left to
/// verify then. The block, its height and its sender stay the same.
pub proof fn judging_a_justification(
    progress: BlockInProgress,
    outcome: Result<(), VerifyError>,
)
    ensures
        outcome is Ok ==> progress.justification_action(outcome) == ChainAction::Apply,
        outcome is Err ==> progress.justification_action(outcome) == ChainAction::Clear,
        ({
            let after = progress.at(BlockStage::Finished);
            &&& after.stage is Finished
            &&& after.block == progress.block
            &&& after.expected_height == progress.expected_height
            &&& after.sender == progress.sender
        }),
{
}

/// What is handed out while a block is verified is the header, and then the justification, of the
/// first block of the first entry, byte for byte.
pub proof fn verifying_the_first_block<TRq, TSrc>(
    state: SyncView<TRq, TSrc>,
    progress: BlockInProgress,
    outcome: Result<HeaderVerifySuccess, VerifyError>,
    first_step: VerificationStep<'_>,
    second_step: VerificationStep<'_>,
)
    requires
        state.can_process(),
        state.queue.entries[0].ty->blocks.len() > 0,
        state.is_next_block(progress),
        progress.is_step(first_step),
        progress.after_header(outcome).is_step(second_step),
    ensures
        ({
            let block = state.queue.entries[0].ty->blocks[0];
            &&& first_step is Header
            &&& first_step->Header_0@ == block.scale_encoded_header@
            &&& second_step is Justification <==> {
                &&& progress.header_action(outcome) != ChainAction::Clear
                &&& block.scale_encoded_justification is Some
            }
            &&& second_step is Justification ==> second_step->Justification_0@
                == block.scale_encoded_justification->0@
            &&& !(second_step is Justification) ==> second_step is Report
        }),
{
}

/// A number picks a source that is not banned. The numbers below the number of such sources pick
/// each of them once, in the order of their slots, and a larger number picks what its remainder
/// picks.
pub proof fn picking_a_source<TRq, TSrc>(state: SyncView<TRq, TSrc>, pick: usize, other: usize)
    requires
        state.valid(),
        state.sources.available().len() > 0,
    ensures
        ({
            let sources = state.sources;
            let count = sources.available().len();
            let slot = sources.picked(pick);
            &&& sources.entries.contains_key(slot)
            &&& !sources.entries[slot].banned
            &&& pick < other < count ==> slot < sources.picked(other)
            &&& pick as int % count as int == other as int % count as int <==> slot
                == sources.picked(other)
        }),
        forall|slot: usize|
            #[trigger] state.sources.entries.contains_key(slot)
                && !state.sources.entries[slot].banned ==> exists|small: usize|
                small < state.sources.available().len() && #[trigger] state.sources.picked(small)
                    == slot,
{
    let sources = state.sources;
    let available = sources.available();
    let count = available.len() as int;
    sources.available_slots_are_listed();
    assert(available.contains(available[0]));
    sources.any_available_source_can_be_picked(available[0]);
    vstd::arithmetic::div_mod::lemma_mod_bound(pick as int, count);
    vstd::arithmetic::div_mod::lemma_mod_bound(other as int, count);
    if pick < other < count {
        vstd::arithmetic::div_mod::lemma_small_mod(pick as nat, available.len());
        vstd::arithmetic::div_mod::lemma_small_mod(other as nat, available.len());
    }
    let i = pick as int % count;
    let j = other as int % count;
    assert(i < j ==> available[i] < available[j]);
    assert(j < i ==> available[j] < available[i]);
    assert forall|slot: usize|
        #[trigger] sources.entries.contains_key(slot) && !sources.entries[slot].banned implies exists|
        small: usize,
    | small < available.len() && #[trigger] sources.picked(small) == slot by {
        assert(sources.is_available(slot));
        assert(available.contains(slot));
        let k = choose|k: int| 0 <= k < available.len() && available[k] == slot;
        sources.slots_are_at_least_positions(k);
        vstd::arithmetic::div_mod::lemma_small_mod(k as nat, available.len());
        assert(sources.picked(k as usize) == slot);
    }
}

/// A source can be picked where there is one that is not banned.
pub proof fn sources_that_can_be_asked<TRq, TSrc>(state: SyncView<TRq, TSrc>, slot: usize)
    requires
        state.valid(),
    ensures
        state.sources.is_available(slot) <==> {
            &&& state.sources.entries.contains_key(slot)
            &&& !state.sources.entries[slot].banned
        },
        state.sources.is_available(slot) ==> state.sources.available().len() > 0,
{
    state.sources.available_slots_are_listed();
    if state.sources.is_available(slot) {
        assert(state.sources.available().contains(slot));
    }
}

} // verus!
