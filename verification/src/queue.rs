//! Queue of block requests, either to be started, in progress, or completed.

use crate::types::RequestSuccessBlock;
use std::collections::VecDeque;
use vstd::prelude::*;

verus! {

/// Identifier for an ongoing request in the
/// [`OptimisticHeadersSync`](crate::OptimisticHeadersSync).
#[derive(Debug, Copy, Clone, Ord, PartialOrd, Eq, PartialEq, Hash, Structural)]
pub struct RequestId(u64);

impl RequestId {
    /// The number of the request. Requests are numbered in the order in which they start.
    pub closed spec fn number(self) -> u64 {
        self.0
    }

    /// Two identifiers are the same one where they hold the same number.
    pub proof fn number_identifies(self, other: RequestId)
        ensures
            self.number() == other.number() <==> self == other,
    {
    }
}

/// State of the request for the blocks of an entry.
enum VerificationQueueEntryTy<TRq> {
    Missing,
    Requested {
        id: RequestId,
        /// User-chosen data for this request.
        user_data: TRq,
        /// Slot of the source that the request is addressed to.
        source: usize,
    },
    Queued {
        /// Blocks that have yet to be verified.
        blocks: Vec<RequestSuccessBlock>,
        /// Slot of the source that has sent the blocks, unless that source is gone.
        sender: Option<usize>,
    },
}

/// Run of consecutive blocks, requested at once.
struct VerificationQueueEntry<TRq> {
    /// Height of the first block that is requested.
    first_height: u64,
    /// Height of the first block that has yet to be verified.
    block_height: u64,
    ty: VerificationQueueEntryTy<TRq>,
}

/// State of the request for the blocks of an entry.
#[verifier::ext_equal]
pub enum EntryState<TRq> {
    /// The blocks have yet to be requested.
    Missing,
    /// The blocks have been requested and haven't arrived.
    Requested { id: RequestId, user_data: TRq, source: usize },
    /// The blocks have arrived. These have yet to be verified. The sender is the slot of the
    /// source that has sent them, unless that source is gone.
    Queued { blocks: Seq<RequestSuccessBlock>, sender: Option<usize> },
}

/// Run of consecutive blocks, requested at once.
#[verifier::ext_equal]
pub struct EntryView<TRq> {
    /// Height of the first block that is requested.
    pub first_height: u64,
    /// Height of the first block that has yet to be verified.
    pub block_height: u64,
    pub ty: EntryState<TRq>,
}

impl<TRq> VerificationQueueEntryTy<TRq> {
    spec fn view(self) -> EntryState<TRq> {
        match self {
            VerificationQueueEntryTy::Missing => EntryState::Missing,
            VerificationQueueEntryTy::Requested { id, user_data, source } => EntryState::Requested {
                id,
                user_data,
                source,
            },
            VerificationQueueEntryTy::Queued { blocks, sender } => EntryState::Queued {
                blocks: blocks@,
                sender,
            },
        }
    }
}

impl<TRq> VerificationQueueEntry<TRq> {
    spec fn view(self) -> EntryView<TRq> {
        EntryView {
            first_height: self.first_height,
            block_height: self.block_height,
            ty: self.ty.view(),
        }
    }
}

impl<TRq> EntryView<TRq> {
    /// The slot of the source that has been asked for the blocks or has sent them.
    pub open spec fn source(self) -> Option<usize> {
        match self.ty {
            EntryState::Missing => None,
            EntryState::Requested { id, user_data, source } => Some(source),
            EntryState::Queued { blocks, sender } => sender,
        }
    }

    /// The blocks have been requested under the number `id`.
    pub open spec fn is_request(self, id: RequestId) -> bool {
        self.ty is Requested && self.ty->id == id
    }

    /// The blocks have been requested from the source in `slot`.
    pub open spec fn is_request_to(self, slot: usize) -> bool {
        self.ty is Requested && self.ty->source == slot
    }

    /// The request of the entry, with its user data.
    pub open spec fn request(self) -> (RequestId, TRq) {
        (self.ty->id, self.ty->user_data)
    }

    /// The entry once the source in `slot` is gone: a request to it has to be made anew, and
    /// nobody answers for the blocks that it has sent.
    pub open spec fn released(self, slot: usize) -> Self {
        EntryView {
            first_height: self.first_height,
            block_height: self.block_height,
            ty: match self.ty {
                EntryState::Requested { id, user_data, source } if source == slot =>
                    EntryState::Missing,
                EntryState::Queued { blocks, sender } if sender == Some(slot) =>
                    EntryState::Queued { blocks, sender: None },
                ty => ty,
            },
        }
    }
}

/// The entries of a queue, the number of the next request and the number of blocks per entry.
#[verifier::ext_equal]
pub struct QueueView<TRq> {
    pub entries: Seq<EntryView<TRq>>,
    pub next_request_id: u64,
    pub granularity: u32,
}

impl<TRq> QueueView<TRq> {
    /// Each entry starts where the one before it ends, only the first one can hold blocks that have
    /// been verified in part, and no two requests have the same number.
    pub open spec fn valid(self) -> bool {
        &&& self.granularity > 0
        &&& forall|i: int|
            0 <= i < self.entries.len() ==> {
                &&& 0 < (#[trigger] self.entries[i]).first_height <= self.entries[i].block_height
                &&& i > 0 || !(self.entries[i].ty is Queued) ==> self.entries[i].block_height
                    == self.entries[i].first_height
            }
        &&& forall|i: int, j: int|
            0 <= i && j == i + 1 && j < self.entries.len() ==> (
            #[trigger] self.entries[j]).first_height == (#[trigger] self.entries[i]).first_height
                + self.granularity
        &&& forall|i: int|
            0 <= i < self.entries.len() && (#[trigger] self.entries[i]).ty is Requested
                ==> self.entries[i].ty->id.number() < self.next_request_id
        &&& forall|i: int, j: int|
            0 <= i < j < self.entries.len() && (#[trigger] self.entries[i]).ty is Requested && (
            #[trigger] self.entries[j]).ty is Requested ==> self.entries[i].ty->id
                != self.entries[j].ty->id
    }

    /// The entry at `pos` has been requested and none behind it has.
    pub open spec fn is_last_request(self, pos: int) -> bool {
        &&& 0 <= pos < self.entries.len()
        &&& self.entries[pos].ty is Requested
        &&& forall|i: int|
            pos < i < self.entries.len() ==> !((#[trigger] self.entries[i]).ty is Requested)
    }

    /// No entry has been requested without an answer yet.
    pub open spec fn no_request(self) -> bool {
        forall|i: int|
            0 <= i < self.entries.len() ==> !((#[trigger] self.entries[i]).ty is Requested)
    }

    /// The entry at `pos` has to be requested and none before it has to be.
    pub open spec fn is_first_missing(self, pos: int) -> bool {
        &&& 0 <= pos < self.entries.len()
        &&& self.entries[pos].ty is Missing
        &&& forall|i: int| 0 <= i < pos ==> !((#[trigger] self.entries[i]).ty is Missing)
    }

    /// No entry has to be requested.
    pub open spec fn no_missing(self) -> bool {
        forall|i: int|
            0 <= i < self.entries.len() ==> !((#[trigger] self.entries[i]).ty is Missing)
    }

    /// The entry at `pos` is the request `id`.
    pub open spec fn is_request_at(self, pos: int, id: RequestId) -> bool {
        0 <= pos < self.entries.len() && self.entries[pos].is_request(id)
    }

    /// `id` is a request that has been started and that is neither finished nor cancelled.
    pub open spec fn has_request(self, id: RequestId) -> bool {
        exists|pos: int| self.is_request_at(pos, id)
    }

    /// The position of the request `id`.
    pub open spec fn position(self, id: RequestId) -> int {
        choose|pos: int| self.is_request_at(pos, id)
    }

    /// The requests addressed to the source in `slot`, from the front to the back.
    pub open spec fn requests_to(self, slot: usize) -> Seq<(RequestId, TRq)> {
        self.entries.filter(
            |entry: EntryView<TRq>| entry.is_request_to(slot),
        ).map_values(
            |entry: EntryView<TRq>| entry.request(),
        )
    }

    /// Number of blocks to ask for at `pos`: up to the next entry, but no more than a response may
    /// hold.
    pub open spec fn num_blocks(self, pos: int) -> int {
        if pos + 1 < self.entries.len() && self.entries[pos + 1].block_height
            - self.entries[pos].block_height < self.granularity {
            self.entries[pos + 1].block_height - self.entries[pos].block_height
        } else {
            self.granularity as int
        }
    }

    /// The height at which an entry behind all the others starts.
    pub open spec fn next_height(self, best_block: int) -> int {
        if self.entries.len() == 0 {
            best_block + 1
        } else {
            self.entries.last().first_height + self.granularity
        }
    }

    /// `self` is `before` with missing entries behind it, as many as it takes to have an entry for
    /// the block at height `target` (and at least one entry), and not one more.
    pub open spec fn is_refill_of(self, before: Self, best_block: int, target: int) -> bool {
        &&& self.next_request_id == before.next_request_id
        &&& self.granularity == before.granularity
        &&& before.entries.len() <= self.entries.len()
        &&& self.entries.take(before.entries.len() as int) == before.entries
        &&& forall|i: int| #![trigger self.entries[i]]
            before.entries.len() <= i < self.entries.len() ==> {
                let shorter = QueueView { entries: self.entries.take(i), ..self };
                &&& self.entries[i].ty is Missing
                &&& self.entries[i].first_height == shorter.next_height(best_block)
                &&& self.entries[i].block_height == self.entries[i].first_height
                &&& i == 0 || shorter.next_height(best_block) <= target
            }
        &&& self.entries.len() > 0
        &&& self.next_height(best_block) > target
    }

    /// Only the entries before `pos` are left.
    pub open spec fn truncated(self, pos: int) -> Self {
        QueueView { entries: self.entries.take(pos), ..self }
    }

    /// The first entry is gone.
    pub open spec fn popped(self) -> Self {
        QueueView { entries: self.entries.drop_first(), ..self }
    }

    /// The first block of the first entry, if it holds one.
    pub open spec fn first_block(self) -> Option<RequestSuccessBlock> {
        let blocks = self.entries[0].ty->blocks;
        if blocks.len() > 0 {
            Some(blocks[0])
        } else {
            None
        }
    }

    /// The first block of the first entry is taken out. The entry stays where it holds more blocks
    /// (and where there is a height for them).
    pub open spec fn block_taken(self) -> Self {
        let first = self.entries[0];
        let blocks = first.ty->blocks;
        if blocks.len() > 1 && first.block_height < u64::MAX {
            QueueView {
                entries: self.entries.update(
                    0,
                    EntryView {
                        first_height: first.first_height,
                        block_height: (first.block_height + 1) as u64,
                        ty: EntryState::Queued {
                            blocks: blocks.drop_first(),
                            sender: first.ty->sender,
                        },
                    },
                ),
                ..self
            }
        } else {
            self.popped()
        }
    }

    /// The entry at `pos` is in another state.
    pub open spec fn with_ty(self, pos: int, ty: EntryState<TRq>) -> Self {
        QueueView {
            entries: self.entries.update(
                pos,
                EntryView { ty, ..self.entries[pos] },
            ),
            ..self
        }
    }

    /// The entry at `pos` has been requested from the source in `slot`, under the next number.
    pub open spec fn started(self, pos: int, id: RequestId, source: usize, user_data: TRq) -> Self {
        QueueView {
            next_request_id: (self.next_request_id + 1) as u64,
            ..self.with_ty(pos, EntryState::Requested { id, user_data, source })
        }
    }

    /// There is but one entry per request.
    pub proof fn position_is_unique(self, pos: int, id: RequestId)
        requires
            self.valid(),
            self.is_request_at(pos, id),
        ensures
            self.position(id) == pos,
    {
        let other = self.position(id);
        assert(self.is_request_at(other, id));
        if other < pos {
            assert(self.entries[other].ty->id != self.entries[pos].ty->id);
        } else if pos < other {
            assert(self.entries[pos].ty->id != self.entries[other].ty->id);
        }
    }

    /// The source in `slot` is gone.
    pub open spec fn released(self, slot: usize) -> Self {
        QueueView {
            entries: self.entries.map_values(
                |entry: EntryView<TRq>| entry.released(slot),
            ),
            ..self
        }
    }
}

/// Queue of block requests.
pub struct VerificationQueue<TRq> {
    entries: VecDeque<VerificationQueueEntry<TRq>>,
    /// Identifier to assign to the next request.
    next_request_id: RequestId,
    /// Number of blocks that an entry stands for.
    granularity: u32,
}

impl<TRq> View for VerificationQueue<TRq> {
    type V = QueueView<TRq>;

    closed spec fn view(&self) -> QueueView<TRq> {
        QueueView {
            entries: self.entries@.map_values(|entry: VerificationQueueEntry<TRq>| entry.view()),
            next_request_id: self.next_request_id.0,
            granularity: self.granularity,
        }
    }
}

/// `VecDeque::get_mut` of the standard library: the element at a position, to be written through,
/// or `None` behind the last one.
#[verifier::external_body]
fn vec_deque_get_mut<T>(deque: &mut VecDeque<T>, index: usize) -> (element: Option<&mut T>)
    ensures
        match element {
            Some(element) => {
                &&& index < old(deque)@.len()
                &&& *element == old(deque)@[index as int]
                &&& final(deque)@ == old(deque)@.update(index as int, *final(element))
            },
            None => index >= old(deque)@.len() && final(deque)@ == old(deque)@,
        },
{
    deque.get_mut(index)
}

impl<TRq> VerificationQueue<TRq> {
    /// An empty queue.
    pub(crate) fn new(capacity: usize, granularity: u32) -> (queue: Self)
        requires
            granularity > 0,
        ensures
            queue@.valid(),
            queue@.entries == Seq::<EntryView<TRq>>::empty(),
            queue@.next_request_id == 0,
            queue@.granularity == granularity,
    {
        VerificationQueue {
            entries: VecDeque::with_capacity(capacity),
            next_request_id: RequestId(0),
            granularity,
        }
    }

    /// Removes the last request of the queue, and everything behind it. Empties the queue where
    /// there is no request.
    pub(crate) fn pop_last_request(&mut self) -> (request: Option<(RequestId, TRq, usize)>)
        requires
            old(self)@.valid(),
        ensures
            final(self)@.valid(),
            match request {
                Some((id, user_data, source)) => exists|pos: int| {
                    &&& #[trigger] old(self)@.is_last_request(pos)
                    &&& old(self)@.entries[pos].ty == EntryState::Requested {
                        id,
                        user_data,
                        source,
                    }
                    &&& final(self)@ == old(self)@.truncated(pos)
                },
                None => old(self)@.no_request() && final(self)@ == old(self)@.truncated(0),
            },
    {
        loop
            invariant
                self@.entries.len() <= old(self)@.entries.len(),
                self@ == old(self)@.truncated(self@.entries.len() as int),
                old(self)@.valid(),
                forall|i: int|
                    self@.entries.len() <= i < old(self)@.entries.len() ==> !((
                    #[trigger] old(self)@.entries[i]).ty is Requested),
            decreases self@.entries.len(),
        {
            let ghost before = self@;
            match self.entries.pop_back() {
                Some(entry) => {
                    let ghost pos = before.entries.len() - 1;
                    assert(entry.view() == before.entries[pos]);
                    assert(self@ =~= old(self)@.truncated(pos));
                    match entry.ty {
                        VerificationQueueEntryTy::Requested { id, user_data, source } => {
                            assert(old(self)@.is_last_request(pos));
                            return Some((id, user_data, source));
                        },
                        _ => {},
                    }
                },
                None => {
                    assert(self@ =~= old(self)@.truncated(0));
                    return None;
                },
            }
        }
    }

    /// Appends missing entries until there is one for the block that is `download_ahead` blocks
    /// ahead of the best block, and until there is one at all.
    pub(crate) fn refill(&mut self, best_block: u64, download_ahead: u32)
        requires
            old(self)@.valid(),
            best_block < u64::MAX,
            best_block + download_ahead <= u64::MAX,
        ensures
            final(self)@.valid(),
            final(self)@.is_refill_of(
                old(self)@,
                best_block as int,
                best_block + download_ahead,
            ),
    {
        let target: u64 = best_block + download_ahead as u64;
        loop
            invariant
                self@.valid(),
                best_block < u64::MAX,
                target == best_block + download_ahead,
                self@.next_request_id == old(self)@.next_request_id,
                self@.granularity == old(self)@.granularity,
                old(self)@.entries.len() <= self@.entries.len(),
                self@.entries.take(old(self)@.entries.len() as int) == old(self)@.entries,
                forall|i: int|
                    #![trigger self@.entries[i]]
                    old(self)@.entries.len() <= i < self@.entries.len() ==> {
                        let shorter = QueueView { entries: self@.entries.take(i), ..self@ };
                        &&& self@.entries[i].ty is Missing
                        &&& self@.entries[i].first_height == shorter.next_height(best_block as int)
                        &&& self@.entries[i].block_height == self@.entries[i].first_height
                        &&& i == 0 || shorter.next_height(best_block as int) <= target
                    },
            ensures
                self@.entries.len() > 0,
                self@.next_height(best_block as int) > target,
            decreases target + self@.granularity + 1 - self@.next_height(best_block as int),
        {
            let ghost before = self@;
            let len: usize = self.entries.len();
            let block_height: u64 = if len == 0 {
                best_block + 1
            } else {
                match self.entries[len - 1].first_height.checked_add(self.granularity as u64) {
                    Some(block_height) if block_height <= target => block_height,
                    _ => break,
                }
            };
            self.entries.push_back(
                VerificationQueueEntry {
                    first_height: block_height,
                    block_height,
                    ty: VerificationQueueEntryTy::Missing,
                },
            );
            proof {
                assert(self@.entries =~~= before.entries.push(
                    EntryView { first_height: block_height, block_height, ty: EntryState::Missing },
                ));
                assert(self@.valid());
                assert forall|i: int| 0 <= i < before.entries.len() implies self@.entries.take(i)
                    == #[trigger] before.entries.take(i) by {
                    assert(self@.entries.take(i) =~= before.entries.take(i));
                }
                assert(self@.entries.take(before.entries.len() as int) =~= before.entries);
                assert(self@.entries.take(old(self)@.entries.len() as int) =~= old(self)@.entries);
            }
        }
    }

    /// The first entry that has to be requested.
    pub(crate) fn first_missing(&self) -> (pos: Option<usize>)
        ensures
            match pos {
                Some(pos) => self@.is_first_missing(pos as int),
                None => self@.no_missing(),
            },
    {
        let mut pos: usize = 0;
        while pos < self.entries.len()
            invariant
                forall|i: int| 0 <= i < pos ==> !((#[trigger] self@.entries[i]).ty is Missing),
            decreases self@.entries.len() - pos,
        {
            match self.entries[pos].ty {
                VerificationQueueEntryTy::Missing => return Some(pos),
                _ => {},
            }
            pos += 1;
        }
        None
    }

    /// The height of the first block of a missing entry, and the number of blocks to ask for.
    pub(crate) fn blocks_at(&self, pos: usize) -> (blocks: (u64, u32))
        requires
            self@.valid(),
            pos < self@.entries.len(),
            self@.entries[pos as int].ty is Missing,
        ensures
            blocks.0 == self@.entries[pos as int].block_height,
            blocks.1 == self@.num_blocks(pos as int),
            blocks.0 + blocks.1 == self@.entries[pos as int].first_height + self@.granularity,
    {
        let block_height: u64 = self.entries[pos].block_height;
        assert(self@.entries[pos as int] == self.entries@[pos as int].view());
        let num_blocks: u32 = if pos < self.entries.len() - 1 {
            assert(self@.entries[pos + 1] == self.entries@[pos + 1].view());
            let distance: u64 = self.entries[pos + 1].block_height - block_height;
            if distance < self.granularity as u64 {
                distance as u32
            } else {
                self.granularity
            }
        } else {
            self.granularity
        };
        (block_height, num_blocks)
    }

    /// Marks a missing entry as requested.
    pub(crate) fn start(&mut self, pos: usize, source: usize, user_data: TRq) -> (id: RequestId)
        requires
            old(self)@.valid(),
            pos < old(self)@.entries.len(),
            old(self)@.entries[pos as int].ty is Missing,
            old(self)@.next_request_id < u64::MAX,
        ensures
            final(self)@.valid(),
            id.number() == old(self)@.next_request_id,
            final(self)@ == old(self)@.started(pos as int, id, source, user_data),
    {
        let id = self.next_request_id;
        self.next_request_id = RequestId(id.0 + 1);
        match vec_deque_get_mut(&mut self.entries, pos) {
            Some(entry) => {
                entry.ty = VerificationQueueEntryTy::Requested { id, user_data, source };
            },
            None => {},
        }
        assert(self@.entries =~~= old(self)@.started(pos as int, id, source, user_data).entries);
        id
    }

    /// Whether `id` is an ongoing request.
    pub(crate) fn has_request(&self, id: RequestId) -> (r: bool)
        ensures
            r == self@.has_request(id),
    {
        let mut pos: usize = 0;
        while pos < self.entries.len()
            invariant
                forall|i: int| 0 <= i < pos ==> !self@.is_request_at(i, id),
            decreases self@.entries.len() - pos,
        {
            match self.entries[pos].ty {
                VerificationQueueEntryTy::Requested { id: other, .. } => {
                    if other == id {
                        assert(self@.is_request_at(pos as int, id));
                        return true;
                    }
                },
                _ => {},
            }
            pos += 1;
        }
        false
    }

    /// Whether there is an ongoing request.
    pub(crate) fn has_any_request(&self) -> (r: bool)
        ensures
            r == !self@.no_request(),
    {
        let mut pos: usize = 0;
        while pos < self.entries.len()
            invariant
                forall|i: int| 0 <= i < pos ==> !((#[trigger] self@.entries[i]).ty is Requested),
            decreases self@.entries.len() - pos,
        {
            assert(self@.entries[pos as int] == self.entries@[pos as int].view());
            match self.entries[pos].ty {
                VerificationQueueEntryTy::Requested { .. } => return true,
                _ => {},
            }
            pos += 1;
        }
        false
    }

    /// Whether there is a number left for one more request.
    pub(crate) fn has_number(&self) -> (r: bool)
        ensures
            r == (self@.next_request_id < u64::MAX),
    {
        self.next_request_id.0 < u64::MAX
    }

    /// Ends the request `id`, with the blocks that have arrived if there are any. Returns the user
    /// data of the request and the slot that it was addressed to.
    pub(crate) fn finish(&mut self, id: RequestId, blocks: Option<Vec<RequestSuccessBlock>>) -> (r:
        (TRq, usize))
        requires
            old(self)@.valid(),
            old(self)@.has_request(id),
        ensures
            final(self)@.valid(),
            old(self)@.is_request_at(old(self)@.position(id), id),
            r.0 == old(self)@.entries[old(self)@.position(id)].ty->user_data,
            r.1 == old(self)@.entries[old(self)@.position(id)].ty->source,
            final(self)@ == old(self)@.with_ty(
                old(self)@.position(id),
                match blocks {
                    Some(blocks) => EntryState::Queued { blocks: blocks@, sender: Some(r.1) },
                    None => EntryState::Missing,
                },
            ),
    {
        let ghost target = self@.position(id);
        let len: usize = self.entries.len();
        let mut pos: usize = 0;
        loop
            invariant
                self@ == old(self)@,
                len == self@.entries.len(),
                self@.valid(),
                self@.is_request_at(target, id),
                target == self@.position(id),
                pos <= target,
            ensures
                pos == target,
            decreases target - pos,
        {
            match self.entries[pos].ty {
                VerificationQueueEntryTy::Requested { id: other, .. } => {
                    if other == id {
                        proof {
                            self@.position_is_unique(pos as int, id);
                        }
                        break;
                    }
                },
                _ => {},
            }
            pos += 1;
        }
        assert(self@.entries[pos as int] == self.entries@[pos as int].view());
        let mut ty = VerificationQueueEntryTy::Missing;
        match vec_deque_get_mut(&mut self.entries, pos) {
            Some(entry) => {
                core::mem::swap(&mut entry.ty, &mut ty);
            },
            None => {},
        }
        match ty {
            VerificationQueueEntryTy::Requested { id: _, user_data, source } => {
                match blocks {
                    Some(blocks) => {
                        match vec_deque_get_mut(&mut self.entries, pos) {
                            Some(entry) => {
                                entry.ty =
                                VerificationQueueEntryTy::Queued { blocks, sender: Some(source) };
                            },
                            None => {},
                        }
                    },
                    None => {},
                }
                assert(self@.entries =~~= old(self)@.with_ty(
                    pos as int,
                    self@.entries[pos as int].ty,
                ).entries);
                (user_data, source)
            },
            _ => { unreached() },
        }
    }

    /// Takes every request to the source in `slot` out of the queue. Nobody answers any longer for
    /// the blocks that this source has sent.
    pub(crate) fn release(&mut self, slot: usize) -> (requests: Vec<(RequestId, TRq)>)
        requires
            old(self)@.valid(),
        ensures
            final(self)@.valid(),
            requests@ == old(self)@.requests_to(slot),
            final(self)@ == old(self)@.released(slot),
    {
        let ghost is_request_to = |entry: EntryView<TRq>| entry.is_request_to(slot);
        let ghost request = |entry: EntryView<TRq>| entry.request();
        let len: usize = self.entries.len();
        let mut requests: Vec<(RequestId, TRq)> = Vec::new();
        let mut pos: usize = 0;
        proof {
            reveal(Seq::filter);
        }
        while pos < len
            invariant
                pos <= len,
                len == old(self)@.entries.len(),
                self@.entries.len() == len,
                self@.next_request_id == old(self)@.next_request_id,
                self@.granularity == old(self)@.granularity,
                forall|i: int|
                    0 <= i < pos ==> #[trigger] self@.entries[i] == old(self)@.entries[i].released(
                        slot,
                    ),
                forall|i: int|
                    pos <= i < len ==> #[trigger] self@.entries[i] == old(self)@.entries[i],
                is_request_to == |entry: EntryView<TRq>| entry.is_request_to(slot),
                request == |entry: EntryView<TRq>| entry.request(),
                requests@ == old(self)@.entries.take(pos as int).filter(is_request_to).map_values(
                    request,
                ),
            decreases len - pos,
        {
            let ghost before = self@.entries;
            let ghost entry_before = before[pos as int];
            let ghost seen = old(self)@.entries.take(pos as int);
            proof {
                let longer = old(self)@.entries.take(pos + 1);
                assert(longer.drop_last() =~= seen);
                assert(longer.last() == entry_before);
                reveal(Seq::filter);
                assert(longer.filter(is_request_to) == if is_request_to(entry_before) {
                    seen.filter(is_request_to).push(entry_before)
                } else {
                    seen.filter(is_request_to)
                });
            }
            match vec_deque_get_mut(&mut self.entries, pos) {
                Some(entry) => {
                    let mut ty = VerificationQueueEntryTy::Missing;
                    core::mem::swap(&mut entry.ty, &mut ty);
                    match ty {
                        VerificationQueueEntryTy::Missing => {},
                        VerificationQueueEntryTy::Requested { id, user_data, source } => {
                            if source == slot {
                                requests.push((id, user_data));
                            } else {
                                entry.ty =
                                VerificationQueueEntryTy::Requested { id, user_data, source };
                            }
                        },
                        VerificationQueueEntryTy::Queued { blocks, sender } => {
                            let sender = match sender {
                                Some(sender) if sender != slot => Some(sender),
                                _ => None,
                            };
                            entry.ty = VerificationQueueEntryTy::Queued { blocks, sender };
                        },
                    }
                },
                None => {},
            }
            proof {
                let entry = self.entries@[pos as int].view();
                assert(self@.entries =~~= before.update(pos as int, entry));
                assert(entry =~~= entry_before.released(slot));
            }
            pos += 1;
        }
        proof {
            assert(old(self)@.entries.take(len as int) =~= old(self)@.entries);
            assert(self@ =~= old(self)@.released(slot));
        }
        requests
    }

    /// Takes the first block of the first entry out, where the blocks of that entry have arrived:
    /// the height that the block should have, the block, unless the response was empty, and the
    /// slot of the source that has sent it.
    pub(crate) fn take_block(&mut self) -> (taken: Option<
        (u64, Option<RequestSuccessBlock>, Option<usize>),
    >)
        requires
            old(self)@.valid(),
        ensures
            final(self)@.valid(),
            match taken {
                Some((block_height, block, sender)) => {
                    &&& old(self)@.entries.len() > 0
                    &&& old(self)@.entries[0].ty is Queued
                    &&& block_height == old(self)@.entries[0].block_height
                    &&& block == old(self)@.first_block()
                    &&& sender == old(self)@.entries[0].ty->sender
                    &&& final(self)@ == old(self)@.block_taken()
                },
                None => {
                    &&& old(self)@.entries.len() == 0 || !(old(self)@.entries[0].ty is Queued)
                    &&& final(self)@ == old(self)@
                },
            },
    {
        if self.entries.len() == 0 {
            return None;
        }
        match self.entries[0].ty {
            VerificationQueueEntryTy::Queued { .. } => {},
            _ => return None,
        }
        match self.entries.pop_front() {
            Some(VerificationQueueEntry { first_height, block_height, ty }) => match ty {
                VerificationQueueEntryTy::Queued { blocks, sender } => {
                    let mut blocks = blocks;
                    let block = if blocks.len() > 0 {
                        Some(blocks.remove(0))
                    } else {
                        None
                    };
                    if blocks.len() > 0 && block_height < u64::MAX {
                        self.entries.push_front(
                            VerificationQueueEntry {
                                first_height,
                                block_height: block_height + 1,
                                ty: VerificationQueueEntryTy::Queued { blocks, sender },
                            },
                        );
                    }
                    assert(self@.entries =~~= old(self)@.block_taken().entries);
                    Some((block_height, block, sender))
                },
                _ => None,
            },
            None => None,
        }
    }
}

} // verus!
