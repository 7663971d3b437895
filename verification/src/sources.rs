//! Sources of blocks, identified by the slot that they occupy.

use slab::Slab;
use vstd::prelude::*;

verus! {

/// The [`Slab`] of the `slab` crate. Nothing is known of what is inside of it but through
/// [`slab_contents`] and [`slab_vacant`].
#[verifier::external_type_specification]
#[verifier::external_body]
#[verifier::reject_recursive_types(T)]
pub struct ExSlab<T>(slab::Slab<T>);

/// The values that a slab holds, by key.
pub uninterp spec fn slab_contents(slab: Slab<bool>) -> Map<usize, bool>;

/// The keys that a slab has handed out before and that are free again. The last one is the
/// first to be handed out.
pub uninterp spec fn slab_vacant(slab: Slab<bool>) -> Seq<usize>;

/// The slot that comes next, when `count` slots are occupied and those of `vacant` were released:
/// the one released last, or else a new one behind all the others.
pub open spec fn next_slot(count: nat, vacant: Seq<usize>) -> int {
    if vacant.len() > 0 {
        vacant.last() as int
    } else {
        count as int
    }
}

/// The slots still vacant once the next one has been handed out.
pub open spec fn vacant_after_insert(vacant: Seq<usize>) -> Seq<usize> {
    if vacant.len() > 0 {
        vacant.drop_last()
    } else {
        vacant
    }
}

/// `slab::Slab::with_capacity`: a slab without values and without released keys. It panics where
/// the requested storage exceeds `isize::MAX` bytes; an entry takes at most 16 bytes.
#[verifier::external_body]
fn slab_with_capacity(capacity: usize) -> (slab: Slab<bool>)
    requires
        16 * capacity <= isize::MAX,
    ensures
        slab_contents(slab).dom() == Set::<usize>::empty(),
        slab_vacant(slab) == Seq::<usize>::empty(),
{
    Slab::with_capacity(capacity)
}

/// `slab::Slab::insert`: stores the value under the key released last, or, where all the keys
/// handed out so far are in use, under a new key, which is their number. It panics where the
/// storage grows beyond `isize::MAX` bytes; the storage doubles when it is full and an entry takes
/// at most 16 bytes.
#[verifier::external_body]
fn slab_insert(slab: &mut Slab<bool>, value: bool) -> (key: usize)
    requires
        32 * (slab_contents(*old(slab)).len() + slab_vacant(*old(slab)).len()) <= isize::MAX,
    ensures
        key == next_slot(slab_contents(*old(slab)).len(), slab_vacant(*old(slab))),
        slab_contents(*final(slab)) == slab_contents(*old(slab)).insert(key, value),
        slab_vacant(*final(slab)) == vacant_after_insert(slab_vacant(*old(slab))),
{
    slab.insert(value)
}

/// `slab::Slab::remove`: takes the value out and releases its key. It panics where no value is
/// stored under the key.
#[verifier::external_body]
fn slab_remove(slab: &mut Slab<bool>, key: usize) -> (value: bool)
    requires
        slab_contents(*old(slab)).contains_key(key),
    ensures
        value == slab_contents(*old(slab))[key],
        slab_contents(*final(slab)) == slab_contents(*old(slab)).remove(key),
        slab_vacant(*final(slab)) == slab_vacant(*old(slab)).push(key),
{
    slab.remove(key)
}

/// `slab::Slab::get_mut`: the value stored under the key, to be written through, or `None` where
/// there is none.
#[verifier::external_body]
fn slab_get_mut(slab: &mut Slab<bool>, key: usize) -> (value: Option<&mut bool>)
    ensures
        slab_vacant(*final(slab)) == slab_vacant(*old(slab)),
        match value {
            Some(value) => {
                &&& slab_contents(*old(slab)).contains_key(key)
                &&& *value == slab_contents(*old(slab))[key]
                &&& slab_contents(*final(slab)) == slab_contents(*old(slab)).insert(
                    key,
                    *final(value),
                )
            },
            None => {
                &&& !slab_contents(*old(slab)).contains_key(key)
                &&& slab_contents(*final(slab)) == slab_contents(*old(slab))
            },
        },
{
    slab.get_mut(key)
}

/// `slab::Slab::iter`: every key in use with the value stored under it, by ascending key.
#[verifier::external_body]
fn slab_iter(slab: &Slab<bool>) -> (entries: Vec<(usize, bool)>)
    ensures
        forall|i: int, j: int|
            0 <= i < j < entries@.len() ==> (#[trigger] entries@[i]).0 < (#[trigger] entries@[j]).0,
        forall|i: int|
            0 <= i < entries@.len() ==> {
                &&& slab_contents(*slab).contains_key((#[trigger] entries@[i]).0)
                &&& slab_contents(*slab)[entries@[i].0] == entries@[i].1
            },
        forall|key: usize| #[trigger]
            slab_contents(*slab).contains_key(key) ==> exists|i: int|
                0 <= i < entries@.len() && (#[trigger] entries@[i]).0 == key,
{
    slab.iter().map(|(key, value)| (key, *value)).collect()
}

/// Each element is larger than the ones before it.
pub open spec fn is_ascending(slots: Seq<usize>) -> bool {
    forall|i: int, j: int|
        0 <= i < j < slots.len() ==> (#[trigger] slots[i]) < (#[trigger] slots[j])
}

proof fn filtered_slots(count: nat, pred: spec_fn(usize) -> bool)
    requires
        count <= usize::MAX,
    ensures
        ({
            let slots = Seq::new(count, |i: int| i as usize).filter(pred);
            &&& is_ascending(slots)
            &&& forall|slot: usize| #[trigger] slots.contains(slot) <==> slot < count && pred(slot)
        }),
    decreases count,
{
    reveal(Seq::filter);
    let all = Seq::new(count, |i: int| i as usize);
    let slots = all.filter(pred);
    if count > 0 {
        let last = (count - 1) as usize;
        let fewer = Seq::new((count - 1) as nat, |i: int| i as usize);
        filtered_slots((count - 1) as nat, pred);
        assert(all.drop_last() =~= fewer);
        let before = fewer.filter(pred);
        assert forall|i: int| 0 <= i < before.len() implies #[trigger] before[i] < last by {
            assert(before.contains(before[i]));
        }
        assert forall|slot: usize| #[trigger]
            slots.contains(slot) <==> slot < count && pred(slot) by {
            if pred(last) {
                assert(slots == before.push(last));
                assert(slots[before.len() as int] == last);
                if before.contains(slot) {
                    let i = choose|i: int| 0 <= i < before.len() && before[i] == slot;
                    assert(slots[i] == slot);
                }
                if slots.contains(slot) {
                    let i = choose|i: int| 0 <= i < slots.len() && slots[i] == slot;
                    if i < before.len() {
                        assert(before[i] == slot);
                        assert(before.contains(slot));
                    }
                }
            }
            assert(before.contains(slot) <==> slot < count - 1 && pred(slot));
        }
    }
}

/// An element of an ascending sequence is at least as large as its position.
proof fn ascending_positions(slots: Seq<usize>, i: int)
    requires
        is_ascending(slots),
        0 <= i < slots.len(),
    ensures
        i <= slots[i],
    decreases i,
{
    if i > 0 {
        ascending_positions(slots, i - 1);
        assert(slots[i - 1] < slots[i]);
    }
}

/// Two ascending sequences of the same elements are equal.
proof fn ascending_is_unique(one: Seq<usize>, other: Seq<usize>)
    requires
        is_ascending(one),
        is_ascending(other),
        forall|slot: usize| one.contains(slot) <==> other.contains(slot),
    ensures
        one == other,
    decreases one.len(),
{
    if one.len() == 0 {
        if other.len() > 0 {
            assert(other.contains(other[0]));
        }
        assert(one =~= other);
    } else {
        assert(one.contains(one.last()));
        assert(other.len() > 0);
        assert(other.contains(other.last()));
        let i = choose|i: int| 0 <= i < other.len() && other[i] == one.last();
        let j = choose|j: int| 0 <= j < one.len() && one[j] == other.last();
        assert(one.last() == other.last()) by {
            assert(i < other.len() - 1 ==> other[i] < other[other.len() - 1]);
            assert(j < one.len() - 1 ==> one[j] < one[one.len() - 1]);
        }
        let shorter = one.drop_last();
        let other_shorter = other.drop_last();
        assert forall|slot: usize| shorter.contains(slot) <==> other_shorter.contains(slot) by {
            if shorter.contains(slot) {
                let k = choose|k: int| 0 <= k < shorter.len() && shorter[k] == slot;
                assert(one[k] == slot && one[k] < one[one.len() - 1]);
                assert(one.contains(slot));
                let k = choose|k: int| 0 <= k < other.len() && other[k] == slot;
                assert(other_shorter[k] == slot);
            }
            if other_shorter.contains(slot) {
                let k = choose|k: int| 0 <= k < other_shorter.len() && other_shorter[k] == slot;
                assert(other[k] == slot && other[k] < other[other.len() - 1]);
                assert(other.contains(slot));
                let k = choose|k: int| 0 <= k < one.len() && one[k] == slot;
                assert(shorter[k] == slot);
            }
        }
        ascending_is_unique(shorter, other_shorter);
        assert(one =~= shorter.push(one.last()));
        assert(other =~= other_shorter.push(other.last()));
    }
}

/// Identifier for a source in the [`OptimisticHeadersSync`](crate::OptimisticHeadersSync).
#[derive(Debug, Copy, Clone, Ord, PartialOrd, Eq, PartialEq, Hash, Structural)]
pub struct SourceId(usize);

impl SourceId {
    /// The slot that the source occupies.
    pub closed spec fn slot(self) -> usize {
        self.0
    }

    pub(crate) fn new(slot: usize) -> (id: SourceId)
        ensures
            id.slot() == slot,
    {
        SourceId(slot)
    }

    pub(crate) fn get(self) -> (slot: usize)
        ensures
            slot == self.slot(),
    {
        self.0
    }

    /// Two identifiers are the same one where they stand for the same slot.
    pub proof fn slot_identifies(self, other: SourceId)
        ensures
            self.slot() == other.slot() <==> self == other,
    {
    }
}

/// What is known of a source.
pub struct Source<TSrc> {
    /// Data that the user has chosen for the source.
    pub user_data: TSrc,
    /// Whether requests are no longer to be addressed to the source.
    pub banned: bool,
}

/// List of sources of blocks.
///
/// A slot of the slab holds whether its source is banned. The user data of that source stands at
/// the same position in `user_data`.
pub struct Sources<TSrc> {
    banned: Slab<bool>,
    user_data: Vec<Option<TSrc>>,
}

/// The sources by slot, and the slots that sources have occupied before.
#[verifier::ext_equal]
pub struct SourcesView<TSrc> {
    pub entries: Map<usize, Source<TSrc>>,
    pub vacant: Seq<usize>,
}

impl<TSrc> SourcesView<TSrc> {
    /// Number of slots, in use or not.
    pub open spec fn slots(self) -> nat {
        self.entries.len() + self.vacant.len()
    }

    /// The slots are numbered from zero, and each one is either in use or vacant.
    pub open spec fn valid(self) -> bool {
        &&& self.entries.dom().finite()
        &&& self.slots() <= usize::MAX
        &&& self.vacant.no_duplicates()
        &&& forall|slot: usize| #[trigger]
            self.vacant.contains(slot) ==> !self.entries.contains_key(slot) && slot < self.slots()
        &&& forall|slot: usize| #[trigger] self.entries.contains_key(slot) ==> slot < self.slots()
    }

    /// The slot that the next source will occupy.
    pub open spec fn next_slot(self) -> int {
        next_slot(self.entries.len(), self.vacant)
    }

    /// Storage for one more source can be had.
    pub open spec fn has_room(self) -> bool {
        32 * self.slots() <= isize::MAX
    }

    /// One more source.
    pub open spec fn added(self, user_data: TSrc) -> Self {
        SourcesView {
            entries: self.entries.insert(
                self.next_slot() as usize,
                Source { user_data, banned: false },
            ),
            vacant: vacant_after_insert(self.vacant),
        }
    }

    /// The source in `slot` is gone.
    pub open spec fn removed(self, slot: usize) -> Self {
        SourcesView { entries: self.entries.remove(slot), vacant: self.vacant.push(slot) }
    }

    /// The source in `slot` has other user data.
    pub open spec fn with_user_data(self, slot: usize, user_data: TSrc) -> Self {
        SourcesView {
            entries: self.entries.insert(
                slot,
                Source { user_data, banned: self.entries[slot].banned },
            ),
            vacant: self.vacant,
        }
    }

    /// No more requests are addressed to the source in `slot`.
    pub open spec fn with_ban(self, slot: usize) -> Self {
        SourcesView {
            entries: self.entries.insert(
                slot,
                Source { user_data: self.entries[slot].user_data, banned: true },
            ),
            vacant: self.vacant,
        }
    }

    /// A request may be addressed to the source in `slot`.
    pub open spec fn is_available(self, slot: usize) -> bool {
        self.entries.contains_key(slot) && !self.entries[slot].banned
    }

    /// The slots of the sources that a request may be addressed to, in ascending order.
    pub open spec fn available(self) -> Seq<usize> {
        Seq::new(self.slots(), |i: int| i as usize).filter(|slot: usize| self.is_available(slot))
    }

    /// The source that the number `pick` stands for, among those that a request may be addressed
    /// to.
    pub open spec fn picked(self, pick: usize) -> usize {
        self.available()[pick as int % self.available().len() as int]
    }

    /// The list of the available slots holds each of them, nothing else, and nothing twice.
    pub proof fn available_slots_are_listed(self)
        requires
            self.valid(),
        ensures
            is_ascending(self.available()),
            forall|slot: usize| #[trigger]
                self.available().contains(slot) <==> self.is_available(slot),
    {
        let pred = |slot: usize| self.is_available(slot);
        filtered_slots(self.slots(), pred);
        assert forall|slot: usize| #[trigger]
            self.available().contains(slot) <==> self.is_available(slot) by {
            assert(pred(slot) == self.is_available(slot));
        }
    }

    /// The slot of an available source is at least as large as its position among them.
    pub proof fn slots_are_at_least_positions(self, i: int)
        requires
            self.valid(),
            0 <= i < self.available().len(),
        ensures
            i <= self.available()[i],
    {
        self.available_slots_are_listed();
        ascending_positions(self.available(), i);
    }

    /// Any available source can be picked, and nothing but an available source is.
    pub proof fn any_available_source_can_be_picked(self, slot: usize)
        requires
            self.valid(),
            self.is_available(slot),
        ensures
            exists|pick: usize| self.picked(pick) == slot,
            forall|pick: usize| self.is_available(#[trigger] self.picked(pick)),
    {
        self.available_slots_are_listed();
        assert(self.available().contains(slot));
        let i = choose|i: int| 0 <= i < self.available().len() && self.available()[i] == slot;
        ascending_positions(self.available(), i);
        vstd::arithmetic::div_mod::lemma_small_mod(i as nat, self.available().len());
        assert(self.picked(i as usize) == slot);
        assert forall|pick: usize| self.is_available(#[trigger] self.picked(pick)) by {
            let j = pick as int % self.available().len() as int;
            assert(0 <= j < self.available().len()) by {
                vstd::arithmetic::div_mod::lemma_mod_bound(
                    pick as int,
                    self.available().len() as int,
                );
            }
            assert(self.available().contains(self.available()[j]));
        }
    }

    /// The slot of a new source is not in use, and the slots stay well numbered.
    pub proof fn added_is_fresh(self, user_data: TSrc)
        requires
            self.valid(),
            self.slots() < usize::MAX,
        ensures
            0 <= self.next_slot() <= self.slots(),
            self.next_slot() == self.slots() <==> self.vacant.len() == 0,
            !self.entries.contains_key(self.next_slot() as usize),
            self.added(user_data).valid(),
            self.added(user_data).slots() == if self.vacant.len() > 0 {
                self.slots()
            } else {
                self.slots() + 1
            },
    {
        let slot = self.next_slot() as usize;
        let after = self.added(user_data);
        if self.vacant.len() > 0 {
            assert(self.vacant.contains(slot)) by {
                assert(self.vacant[self.vacant.len() - 1] == slot);
            }
            assert forall|other: usize| #[trigger] after.vacant.contains(other) implies {
                &&& !after.entries.contains_key(other)
                &&& other < after.slots()
            } by {
                let i = choose|i: int| 0 <= i < after.vacant.len() && after.vacant[i] == other;
                assert(self.vacant[i] == other);
                assert(self.vacant.contains(other));
            }
        }
    }

    /// Removing a source keeps the number of slots and their numbering.
    pub proof fn removed_stays_valid(self, slot: usize)
        requires
            self.valid(),
            self.entries.contains_key(slot),
        ensures
            self.removed(slot).valid(),
            self.removed(slot).slots() == self.slots(),
    {
        let after = self.removed(slot);
        assert(!self.vacant.contains(slot));
        assert forall|other: usize| #[trigger] after.vacant.contains(other) implies {
            &&& !after.entries.contains_key(other)
            &&& other < after.slots()
        } by {
            let i = choose|i: int| 0 <= i < after.vacant.len() && after.vacant[i] == other;
            if i < self.vacant.len() {
                assert(self.vacant[i] == other);
                assert(self.vacant.contains(other));
            }
        }
        assert forall|i: int, j: int|
            0 <= i < after.vacant.len() && 0 <= j < after.vacant.len() && i
                != j implies after.vacant[i] != after.vacant[j] by {
            if i < self.vacant.len() {
                assert(self.vacant.contains(self.vacant[i]));
            }
            if j < self.vacant.len() {
                assert(self.vacant.contains(self.vacant[j]));
            }
        }
    }
}

impl<TSrc> View for Sources<TSrc> {
    type V = SourcesView<TSrc>;

    closed spec fn view(&self) -> SourcesView<TSrc> {
        SourcesView {
            entries: Map::new(
                |slot: usize| slab_contents(self.banned).contains_key(slot),
                |slot: usize|
                    Source {
                        user_data: self.user_data@[slot as int]->0,
                        banned: slab_contents(self.banned)[slot],
                    },
            ),
            vacant: slab_vacant(self.banned),
        }
    }
}

impl<TSrc> Sources<TSrc> {
    /// The slab and the user data agree on the slots in use.
    pub closed spec fn consistent(&self) -> bool {
        &&& self.user_data@.len() == self@.slots()
        &&& forall|slot: usize|
            #![trigger slab_contents(self.banned).contains_key(slot)]
            #![trigger self.user_data@[slot as int]]
            slab_contents(self.banned).contains_key(slot) <==> slot < self.user_data@.len()
                && self.user_data@[slot as int] is Some
    }

    /// The representation is consistent and the slots are well numbered.
    pub open spec fn wf(&self) -> bool {
        self.consistent() && self@.valid()
    }

    proof fn view_domain(&self)
        ensures
            self@.entries.dom() == slab_contents(self.banned).dom(),
            self@.entries.len() == slab_contents(self.banned).len(),
    {
        assert(self@.entries.dom() =~= slab_contents(self.banned).dom());
    }

    pub(crate) fn with_capacity(capacity: usize) -> (sources: Self)
        requires
            16 * capacity <= isize::MAX,
        ensures
            sources.wf(),
            sources@.entries == Map::<usize, Source<TSrc>>::empty(),
            sources@.vacant == Seq::<usize>::empty(),
    {
        let sources = Sources {
            banned: slab_with_capacity(capacity),
            user_data: Vec::with_capacity(capacity),
        };
        assert(sources@.entries =~= Map::<usize, Source<TSrc>>::empty());
        sources
    }

    pub(crate) fn insert(&mut self, user_data: TSrc) -> (slot: usize)
        requires
            old(self).wf(),
            old(self)@.has_room(),
        ensures
            final(self).wf(),
            slot == old(self)@.next_slot(),
            final(self)@ == old(self)@.added(user_data),
    {
        proof {
            self.view_domain();
            self@.added_is_fresh(user_data);
        }
        let slot: usize = slab_insert(&mut self.banned, false);
        if slot < self.user_data.len() {
            self.user_data[slot] = Some(user_data);
        } else {
            self.user_data.push(Some(user_data));
        }
        proof {
            assert(self@.entries =~= old(self)@.added(user_data).entries);
            assert(self.user_data@.len() == self@.slots());
        }
        slot
    }

    pub(crate) fn remove(&mut self, slot: usize) -> (user_data: TSrc)
        requires
            old(self).wf(),
            old(self)@.entries.contains_key(slot),
        ensures
            final(self).wf(),
            user_data == old(self)@.entries[slot].user_data,
            final(self)@ == old(self)@.removed(slot),
    {
        proof {
            self@.removed_stays_valid(slot);
        }
        slab_remove(&mut self.banned, slot);
        let user_data = self.user_data[slot].take().unwrap();
        proof {
            assert(self@.entries =~= old(self)@.removed(slot).entries);
        }
        user_data
    }

    /// Whether a source occupies the slot.
    pub(crate) fn contains(&self, slot: usize) -> (r: bool)
        requires
            self.wf(),
        ensures
            r == self@.entries.contains_key(slot),
    {
        slot < self.user_data.len() && self.user_data[slot].is_some()
    }

    /// Whether storage for one more source can be had.
    pub(crate) fn has_room(&self) -> (r: bool)
        requires
            self.wf(),
        ensures
            r == self@.has_room(),
    {
        self.user_data.len() <= isize::MAX as usize / 32
    }

    /// The slots of the sources that a request may be addressed to.
    pub(crate) fn available(&self) -> (slots: Vec<usize>)
        requires
            self.wf(),
        ensures
            slots@ == self@.available(),
    {
        let entries = slab_iter(&self.banned);
        let mut slots: Vec<usize> = Vec::new();
        let mut i: usize = 0;
        while i < entries.len()
            invariant
                i <= entries@.len(),
                is_ascending(slots@),
                forall|j: int| 0 <= j < slots@.len() ==> self@.is_available(#[trigger] slots@[j]),
                forall|j: int, k: int|
                    0 <= j < slots@.len() && i <= k < entries@.len() ==> #[trigger] slots@[j] < (
                    #[trigger] entries@[k]).0,
                forall|j: int|
                    0 <= j < i && !(#[trigger] entries@[j]).1 ==> slots@.contains(entries@[j].0),
                forall|j: int, k: int|
                    0 <= j < k < entries@.len() ==> (#[trigger] entries@[j]).0 < (
                    #[trigger] entries@[k]).0,
                forall|j: int|
                    0 <= j < entries@.len() ==> {
                        &&& slab_contents(self.banned).contains_key((#[trigger] entries@[j]).0)
                        &&& slab_contents(self.banned)[entries@[j].0] == entries@[j].1
                    },
            decreases entries@.len() - i,
        {
            let (slot, banned) = entries[i];
            let ghost before = slots@;
            if !banned {
                slots.push(slot);
                assert(slots@[before.len() as int] == slot);
            }
            assert forall|j: int|
                0 <= j <= i && !(#[trigger] entries@[j]).1 implies slots@.contains(
                entries@[j].0,
            ) by {
                if j < i {
                    let k = choose|k: int| 0 <= k < before.len() && before[k] == entries@[j].0;
                    assert(slots@[k] == entries@[j].0);
                }
            }
            i += 1;
        }
        proof {
            self@.available_slots_are_listed();
            assert forall|slot: usize|
                slots@.contains(slot) <==> self@.available().contains(slot) by {
                if self@.is_available(slot) {
                    assert(slab_contents(self.banned).contains_key(slot));
                    let j = choose|j: int|
                        0 <= j < entries@.len() && (#[trigger] entries@[j]).0 == slot;
                    assert(!entries@[j].1);
                }
            }
            ascending_is_unique(slots@, self@.available());
        }
        slots
    }

    /// The user data of a source, to be read or changed.
    pub(crate) fn user_data_mut(&mut self, slot: usize) -> (user_data: &mut TSrc)
        requires
            old(self).wf(),
            old(self)@.entries.contains_key(slot),
        ensures
            final(self).wf(),
            *user_data == old(self)@.entries[slot].user_data,
            final(self)@ == old(self)@.with_user_data(slot, *final(user_data)),
    {
        self.user_data[slot].as_mut().unwrap()
    }

    /// Addresses no more requests to a source.
    pub(crate) fn ban(&mut self, slot: usize)
        requires
            old(self).wf(),
            old(self)@.entries.contains_key(slot),
        ensures
            final(self).wf(),
            final(self)@ == old(self)@.with_ban(slot),
    {
        match slab_get_mut(&mut self.banned, slot) {
            Some(banned) => {
                *banned = true;
            },
            None => {},
        }
        assert(self@.entries =~= old(self)@.with_ban(slot).entries);
    }
}

} // verus!
