//! The reassembly map: for each transfer under way, the frames that have
//! come so far.
//!
//! The map is bounded. It holds at most `max_transfers` transfers; when a
//! frame of a further transfer comes, the transfer that was started first
//! is evicted to make room. A transfer holds at most `max_frames` frames; a
//! frame beyond that is dropped. In strict mode a frame is also dropped
//! when it is not the one that its transfer expects next, so that a buffer
//! never holds a gap or a reordering.

use crate::buffer::{complete, consecutive, follows, TransferBuffer};
use crate::frame::CanFrame;
use crate::identifier::FullTransferID;
use vstd::prelude::*;

verus! {

/// What the map holds for one transfer: its key and its frames, oldest
/// first.
pub struct Transfer {
    pub key: FullTransferID,
    pub frames: Seq<CanFrame>,
}

/// The bounds of a reassembly map.
#[derive(Clone, Copy, Debug, PartialEq, Eq, Structural)]
pub struct Limits {
    /// The most transfers that the map holds at a time.
    pub max_transfers: usize,
    /// The most frames that the map holds for one transfer.
    pub max_frames: usize,
    /// Whether frames that come out of order are dropped.
    pub strict: bool,
}

/// What became of an inserted frame.
#[derive(Clone, Copy, Debug, PartialEq, Eq, Structural)]
pub enum InsertOutcome {
    /// The frame joined the frames of its transfer.
    Appended,
    /// The frame is the first of a transfer that the map did not hold.
    Started,
    /// As `Started`, and the oldest transfer, whose key is given, was
    /// evicted to make room.
    Evicted(FullTransferID),
    /// The frame was dropped: the limits leave no room for it.
    Full,
    /// The frame was dropped: strict mode, and it is not the frame that its
    /// transfer expects next.
    OutOfOrder,
}

/// Whether the map holds a transfer under `key`.
pub open spec fn holds(entries: Seq<Transfer>, key: FullTransferID) -> bool {
    exists|i: int| 0 <= i < entries.len() && (#[trigger] entries[i]).key == key
}

/// The position of the transfer with `key`, where the map holds one.
pub open spec fn slot(entries: Seq<Transfer>, key: FullTransferID) -> int {
    choose|i: int| 0 <= i < entries.len() && (#[trigger] entries[i]).key == key
}

/// The frames held under `key`, oldest first; none where the map holds no
/// such transfer.
pub open spec fn frames_of(entries: Seq<Transfer>, key: FullTransferID) -> Seq<CanFrame> {
    if holds(entries, key) {
        entries[slot(entries, key)].frames
    } else {
        Seq::<CanFrame>::empty()
    }
}

/// No key occurs twice.
pub open spec fn distinct_keys(entries: Seq<Transfer>) -> bool {
    forall|i: int, j: int|
        0 <= i < j < entries.len() ==> (#[trigger] entries[i]).key != (#[trigger] entries[j]).key
}

/// A transfer as the map may hold it: at least one frame and no more than
/// the limit, each frame belonging to the key, and without gaps in strict
/// mode.
pub open spec fn valid_transfer(transfer: Transfer, limits: Limits) -> bool {
    &&& 0 < transfer.frames.len() <= limits.max_frames
    &&& forall|j: int|
        0 <= j < transfer.frames.len() ==> (#[trigger] transfer.frames[j]).full_id()
            == transfer.key
    &&& limits.strict ==> consecutive(transfer.frames)
}

/// The invariant of the map's contents: within the limits, at most one
/// transfer per key, and every transfer valid. In particular no transfer
/// without frames is kept.
pub open spec fn well_formed(entries: Seq<Transfer>, limits: Limits) -> bool {
    &&& entries.len() <= limits.max_transfers
    &&& distinct_keys(entries)
    &&& forall|i: int| 0 <= i < entries.len() ==> valid_transfer(#[trigger] entries[i], limits)
}

/// What becomes of `frame` when it is inserted.
pub open spec fn outcome_of(
    entries: Seq<Transfer>,
    frame: CanFrame,
    limits: Limits,
) -> InsertOutcome {
    let key = frame.full_id();
    if holds(entries, key) {
        let frames = frames_of(entries, key);
        if frames.len() >= limits.max_frames {
            InsertOutcome::Full
        } else if limits.strict && !follows(frames, frame) {
            InsertOutcome::OutOfOrder
        } else {
            InsertOutcome::Appended
        }
    } else if limits.max_frames == 0 || limits.max_transfers == 0 {
        InsertOutcome::Full
    } else if limits.strict && !follows(Seq::<CanFrame>::empty(), frame) {
        InsertOutcome::OutOfOrder
    } else if entries.len() < limits.max_transfers {
        InsertOutcome::Started
    } else {
        InsertOutcome::Evicted(entries[0].key)
    }
}

/// The contents after `frame` was inserted into `entries`.
pub open spec fn inserted(
    entries: Seq<Transfer>,
    frame: CanFrame,
    limits: Limits,
) -> Seq<Transfer> {
    let key = frame.full_id();
    let fresh = Transfer { key, frames: seq![frame] };
    match outcome_of(entries, frame, limits) {
        InsertOutcome::Appended => entries.update(
            slot(entries, key),
            Transfer { key, frames: frames_of(entries, key).push(frame) },
        ),
        InsertOutcome::Started => entries.push(fresh),
        InsertOutcome::Evicted(_) => entries.drop_first().push(fresh),
        InsertOutcome::Full => entries,
        InsertOutcome::OutOfOrder => entries,
    }
}

/// The frame that `remove` takes out for `key`: the oldest of the transfer,
/// where the map holds it.
pub open spec fn oldest(entries: Seq<Transfer>, key: FullTransferID) -> Option<CanFrame> {
    if holds(entries, key) && frames_of(entries, key).len() > 0 {
        Some(frames_of(entries, key)[0])
    } else {
        None
    }
}

/// The contents without the transfer under `key`.
pub open spec fn without(entries: Seq<Transfer>, key: FullTransferID) -> Seq<Transfer> {
    if holds(entries, key) {
        entries.remove(slot(entries, key))
    } else {
        entries
    }
}

/// The contents after the oldest frame under `key` was taken out. A
/// transfer that has no frame left goes with it.
pub open spec fn removed(entries: Seq<Transfer>, key: FullTransferID) -> Seq<Transfer> {
    if holds(entries, key) && frames_of(entries, key).len() > 1 {
        entries.update(
            slot(entries, key),
            Transfer { key, frames: frames_of(entries, key).drop_first() },
        )
    } else {
        without(entries, key)
    }
}

/// The keys of the complete transfers that `identity` selects under `mask`,
/// in the order in which the transfers were started.
pub open spec fn completed(
    entries: Seq<Transfer>,
    identity: FullTransferID,
    mask: FullTransferID,
) -> Seq<FullTransferID>
    decreases entries.len(),
{
    if entries.len() == 0 {
        Seq::<FullTransferID>::empty()
    } else {
        let before = completed(entries.drop_last(), identity, mask);
        let last = entries.last();
        if last.key.matches(identity, mask) && complete(last.frames) {
            before.push(last.key)
        } else {
            before
        }
    }
}

/// In well-formed contents a key stands at one position only.
pub proof fn lemma_slot(entries: Seq<Transfer>, i: int)
    requires
        distinct_keys(entries),
        0 <= i < entries.len(),
    ensures
        holds(entries, entries[i].key),
        slot(entries, entries[i].key) == i,
        frames_of(entries, entries[i].key) == entries[i].frames,
{
    let key = entries[i].key;
    let s = slot(entries, key);
    assert(entries[s].key == key);
    if s < i {
        assert(entries[s].key != entries[i].key);
    } else if i < s {
        assert(entries[i].key != entries[s].key);
    }
}

#[derive(Debug)]
struct Entry {
    key: FullTransferID,
    buffer: TransferBuffer,
}

/// What a run of entries holds.
spec fn contents(entries: Seq<Entry>) -> Seq<Transfer> {
    Seq::new(entries.len(), |i: int| Transfer { key: entries[i].key, frames: entries[i].buffer@ })
}

/// The reassembly map.
#[derive(Debug)]
pub struct ReassemblyMap {
    entries: Vec<Entry>,
    limits: Limits,
}

impl View for ReassemblyMap {
    type V = Seq<Transfer>;

    /// The transfers in the order in which they were started, oldest first.
    closed spec fn view(&self) -> Seq<Transfer> {
        contents(self.entries@)
    }
}

impl ReassemblyMap {
    /// The limits that the map was made with.
    pub closed spec fn spec_limits(&self) -> Limits {
        self.limits
    }

    /// Validity: the contents are well-formed for the limits.
    #[verifier::type_invariant]
    pub closed spec fn inv(&self) -> bool {
        well_formed(self@, self.limits)
    }

    /// An empty map with the given limits.
    pub fn new(limits: Limits) -> (map: ReassemblyMap)
        ensures
            map@ == Seq::<Transfer>::empty(),
            map.limits() == limits,
            map.inv(),
    {
        let map = ReassemblyMap { entries: Vec::new(), limits };
        assert(map@ =~= Seq::<Transfer>::empty());
        map
    }

    /// The limits that the map was made with.
    #[verifier::when_used_as_spec(spec_limits)]
    pub fn limits(&self) -> (limits: Limits)
        ensures
            limits == self.spec_limits(),
    {
        self.limits
    }

    /// The number of transfers under way.
    pub fn len(&self) -> (n: usize)
        ensures
            n == self@.len(),
            n <= self.limits().max_transfers,
    {
        proof {
            use_type_invariant(self);
        }
        self.entries.len()
    }

    /// Moves the entries out, leaving the map empty until they are put back.
    fn take_entries(&mut self) -> (entries: Vec<Entry>)
        ensures
            entries == old(self).entries,
            final(self).entries@.len() == 0,
            final(self).limits == old(self).limits,
    {
        let mut entries: Vec<Entry> = Vec::new();
        assert(well_formed(Seq::<Transfer>::empty(), self.limits));
        core::mem::swap(&mut self.entries, &mut entries);
        assert(self@ =~= Seq::<Transfer>::empty());
        entries
    }

    fn position(&self, key: FullTransferID) -> (found: Option<usize>)
        ensures
            well_formed(self@, self.limits()),
            found is Some == holds(self@, key),
            found matches Some(i) ==> i < self.entries@.len() && i == slot(self@, key)
                && self.entries@[i as int].key == key && self.entries@[i as int].buffer@
                == frames_of(self@, key),
    {
        proof {
            use_type_invariant(self);
        }
        let mut i: usize = 0;
        while i < self.entries.len()
            invariant
                i <= self.entries@.len(),
                self@.len() == self.entries@.len(),
                well_formed(self@, self.limits()),
                forall|j: int| 0 <= j < i ==> (#[trigger] self@[j]).key != key,
            decreases self.entries@.len() - i,
        {
            if self.entries[i].key == key {
                proof {
                    assert(self@[i as int].key == key);
                    lemma_slot(self@, i as int);
                }
                return Some(i);
            }
            i += 1;
        }
        None
    }

    /// Whether the map holds a transfer under `key`.
    pub fn contains(&self, key: FullTransferID) -> (held: bool)
        ensures
            held == holds(self@, key),
    {
        self.position(key).is_some()
    }

    /// Whether the transfer under `key` is complete: the map holds it and
    /// one of its frames carries the end-of-transfer flag.
    pub fn is_complete(&self, key: FullTransferID) -> (done: bool)
        ensures
            done == (holds(self@, key) && complete(frames_of(self@, key))),
    {
        match self.position(key) {
            Some(i) => self.entries[i].buffer.is_complete(),
            None => false,
        }
    }

    /// Whether the transfer under `key` is complete and shows no sign of
    /// loss or reordering.
    pub fn is_intact(&self, key: FullTransferID) -> (whole: bool)
        ensures
            whole == (holds(self@, key) && crate::buffer::intact(frames_of(self@, key))),
    {
        match self.position(key) {
            Some(i) => self.entries[i].buffer.is_intact(),
            None => false,
        }
    }

    /// Takes a frame in. It joins the frames of its transfer, or starts a
    /// transfer, for which the oldest transfer makes room where the map is
    /// full; or it is dropped, as `outcome_of` says.
    pub fn insert(&mut self, frame: CanFrame) -> (outcome: InsertOutcome)
        ensures
            outcome == outcome_of(old(self)@, frame, old(self).limits()),
            final(self)@ == inserted(old(self)@, frame, old(self).limits()),
            final(self).limits() == old(self).limits(),
            final(self).inv(),
    {
        let key = frame.full_id();
        let limits = self.limits;
        let found = self.position(key);
        match found {
            Some(i) => {
                if self.entries[i].buffer.len() >= limits.max_frames {
                    InsertOutcome::Full
                } else if limits.strict && !self.entries[i].buffer.accepts(&frame) {
                    InsertOutcome::OutOfOrder
                } else {
                    let ghost before = self@;
                    let ghost grown = Transfer { key, frames: frames_of(before, key).push(frame) };
                    proof {
                        lemma_update_well_formed(before, i as int, grown, limits);
                    }
                    let mut entries = self.take_entries();
                    entries[i].buffer.push(frame);
                    assert(contents(entries@) =~= before.update(i as int, grown));
                    self.entries = entries;
                    InsertOutcome::Appended
                }
            },
            None => {
                if limits.max_frames == 0 || limits.max_transfers == 0 {
                    InsertOutcome::Full
                } else if limits.strict && frame.id().frame_index() != 0 {
                    InsertOutcome::OutOfOrder
                } else {
                    let ghost before = self@;
                    let ghost fresh = Transfer { key, frames: seq![frame] };
                    let mut buffer = TransferBuffer::new();
                    buffer.push(frame);
                    assert(buffer@ =~= seq![frame]);
                    if self.entries.len() < limits.max_transfers {
                        proof {
                            lemma_push_well_formed(before, fresh, limits);
                        }
                        let mut entries = self.take_entries();
                        entries.push(Entry { key, buffer });
                        assert(contents(entries@) =~= before.push(fresh));
                        self.entries = entries;
                        InsertOutcome::Started
                    } else {
                        proof {
                            lemma_drop_first_well_formed(before, limits);
                            assert(!holds(before.drop_first(), key)) by {
                                if holds(before.drop_first(), key) {
                                    let j = slot(before.drop_first(), key);
                                    assert(before[j + 1].key == key);
                                }
                            }
                            lemma_push_well_formed(before.drop_first(), fresh, limits);
                        }
                        let mut entries = self.take_entries();
                        let evicted = entries.remove(0);
                        entries.push(Entry { key, buffer });
                        assert(contents(entries@) =~= before.drop_first().push(fresh));
                        self.entries = entries;
                        InsertOutcome::Evicted(evicted.key)
                    }
                }
            },
        }
    }

    /// Takes out the oldest frame of the transfer under `key`. When that
    /// was its last frame, the transfer leaves the map. Where the map holds
    /// no such transfer, nothing is found and nothing changes.
    pub fn remove(&mut self, key: FullTransferID) -> (frame: Option<CanFrame>)
        ensures
            frame == oldest(old(self)@, key),
            frame.is_some() == holds(old(self)@, key),
            final(self)@ == removed(old(self)@, key),
            holds(final(self)@, key) == (frames_of(old(self)@, key).len() > 1),
            final(self).limits() == old(self).limits(),
            final(self).inv(),
    {
        let limits = self.limits;
        let found = self.position(key);
        proof {
            lemma_removed(self@, key, limits);
        }
        match found {
            None => None,
            Some(i) => {
                let ghost before = self@;
                let ghost frames = frames_of(before, key);
                assert(valid_transfer(before[i as int], limits));
                let mut entries = self.take_entries();
                if entries[i].buffer.len() <= 1 {
                    let mut entry = entries.remove(i);
                    proof {
                        lemma_remove_well_formed(before, i as int, limits);
                        assert(contents(entries@) =~= before.remove(i as int));
                    }
                    self.entries = entries;
                    entry.buffer.pop()
                } else {
                    let frame = entries[i].buffer.pop();
                    proof {
                        let rest = Transfer { key, frames: frames.drop_first() };
                        assert forall|j: int| 0 <= j < rest.frames.len() implies (
                        #[trigger] rest.frames[j]).full_id() == key by {
                            assert(rest.frames[j] == frames[j + 1]);
                        }
                        if limits.strict {
                            lemma_consecutive_drop_first(frames);
                        }
                        lemma_update_well_formed(before, i as int, rest, limits);
                        assert(contents(entries@) =~= before.update(i as int, rest));
                    }
                    self.entries = entries;
                    frame
                }
            },
        }
    }

    /// Takes out all frames of the transfer under `key`, oldest first, by
    /// removing one after the other until none is found.
    pub fn drain(&mut self, key: FullTransferID) -> (drained: TransferBuffer)
        ensures
            drained@ == frames_of(old(self)@, key),
            final(self)@ == without(old(self)@, key),
            final(self).limits() == old(self).limits(),
            final(self).inv(),
    {
        let mut drained = TransferBuffer::new();
        let ghost start = self@;
        let ghost limits = self.limits;
        proof {
            use_type_invariant(&*self);
            assert(drained@ + frames_of(start, key) =~= frames_of(start, key));
            if holds(start, key) {
                let at = slot(start, key);
                assert(start.update(at, Transfer { key, frames: frames_of(start, key) }) =~= start);
            }
        }
        loop
            invariant
                well_formed(start, limits),
                well_formed(self@, limits),
                self.limits() == limits,
                drained@ + frames_of(self@, key) == frames_of(start, key),
                holds(self@, key) ==> holds(start, key) && self@ == start.update(
                    slot(start, key),
                    Transfer { key, frames: frames_of(self@, key) },
                ),
                !holds(self@, key) ==> self@ == without(start, key),
            ensures
                drained@ == frames_of(start, key),
                self@ == without(start, key),
                self.limits() == limits,
            decreases frames_of(self@, key).len(),
        {
            let ghost before = self@;
            let ghost taken = drained@;
            let ghost left = frames_of(before, key);
            let next = self.remove(key);
            proof {
                use_type_invariant(&*self);
            }
            match next {
                None => {
                    assert(taken + left =~= taken);
                    break ;
                },
                Some(frame) => {
                    drained.push(frame);
                    proof {
                        let at = slot(start, key);
                        lemma_slot(start, at);
                        assert(before[at].key == key);
                        lemma_slot(before, at);
                        assert(valid_transfer(before[at], limits));
                        assert(taken.push(frame) + left.drop_first() =~= taken + left);
                        if left.len() > 1 {
                            let rest = Transfer { key, frames: left.drop_first() };
                            assert(self@ == before.update(at, rest));
                            assert(self@[at].key == key);
                            lemma_slot(self@, at);
                            assert(before.update(at, rest) =~= start.update(at, rest));
                        } else {
                            lemma_remove_well_formed(before, at, limits);
                            assert(before.remove(at) =~= start.remove(at));
                            assert(taken.push(frame) + Seq::<CanFrame>::empty() =~= taken.push(
                                frame,
                            ));
                        }
                    }
                },
            }
        }
        drained
    }

    /// The keys of the complete transfers that `identity` selects under
    /// `mask`: every key `k` that the map holds with
    /// `k.mask(mask) == identity.mask(mask)` and a complete transfer, and no
    /// other; each once, in the order in which the transfers were started.
    pub fn completed_transfers(&self, identity: FullTransferID, mask: FullTransferID) -> (keys: Vec<
        FullTransferID,
    >)
        ensures
            keys@ == completed(self@, identity, mask),
            keys@.no_duplicates(),
            forall|key: FullTransferID|
                keys@.contains(key) <==> holds(self@, key) && key.mask(mask) == identity.mask(mask)
                    && complete(frames_of(self@, key)),
    {
        proof {
            use_type_invariant(self);
        }
        let mut keys: Vec<FullTransferID> = Vec::new();
        let n = self.entries.len();
        let mut i: usize = 0;
        assert(self@.take(0) =~= Seq::<Transfer>::empty());
        while i < n
            invariant
                n == self.entries@.len(),
                n == self@.len(),
                i <= n,
                keys@ == completed(self@.take(i as int), identity, mask),
            decreases n - i,
        {
            let entry = &self.entries[i];
            proof {
                let upto = self@.take(i as int + 1);
                assert(upto.drop_last() =~= self@.take(i as int));
                assert(upto.last() == self@[i as int]);
            }
            if entry.key.matches(identity, mask) && entry.buffer.is_complete() {
                keys.push(entry.key);
            }
            i += 1;
        }
        proof {
            assert(self@.take(n as int) =~= self@);
            lemma_completed(self@, self.limits, identity, mask);
        }
        keys
    }
}

/// Frames without gaps stay so when the oldest is taken away.
pub proof fn lemma_consecutive_drop_first(frames: Seq<CanFrame>)
    requires
        consecutive(frames),
        frames.len() > 0,
    ensures
        consecutive(frames.drop_first()),
{
    let rest = frames.drop_first();
    assert forall|i: int| 0 < i < rest.len() implies {
        &&& !(#[trigger] rest[i - 1]).is_end_frame()
        &&& rest[i].id().frame_index() == (rest[i - 1].id().frame_index() + 1) % 32
    } by {
        assert(rest[i - 1] == frames[i]);
        assert(rest[i] == frames[i + 1]);
        let _ = frames[(i + 1) - 1];
    }
}

/// The selection of complete transfers holds each key once, and holds
/// exactly the keys of the complete transfers that the pattern selects.
pub proof fn lemma_completed(
    entries: Seq<Transfer>,
    limits: Limits,
    identity: FullTransferID,
    mask: FullTransferID,
)
    requires
        well_formed(entries, limits),
    ensures
        completed(entries, identity, mask).no_duplicates(),
        forall|key: FullTransferID|
            completed(entries, identity, mask).contains(key) <==> holds(entries, key) && key.mask(
                mask,
            ) == identity.mask(mask) && complete(frames_of(entries, key)),
    decreases entries.len(),
{
    let all = completed(entries, identity, mask);
    if entries.len() == 0 {
        assert forall|key: FullTransferID| !holds(entries, key) by {}
    } else {
        let n = entries.len() - 1;
        let shorter = entries.drop_last();
        let last = entries.last();
        let before = completed(shorter, identity, mask);
        lemma_remove_well_formed(entries, n, limits);
        assert(shorter =~= entries.remove(n));
        lemma_completed(shorter, limits, identity, mask);
        lemma_slot(entries, n);
        let chosen = last.key.matches(identity, mask) && complete(last.frames);
        assert(!before.contains(last.key));
        if chosen {
            assert forall|a: int, b: int| 0 <= a < all.len() && 0 <= b < all.len() && a
                != b implies all[a] != all[b] by {
                if a < n && b < n {
                } else if a == before.len() {
                    assert(before.contains(all[b]));
                } else {
                    assert(before.contains(all[a]));
                }
            }
        }
        assert forall|key: FullTransferID| all.contains(key) <==> holds(entries, key) && key.mask(
            mask,
        ) == identity.mask(mask) && complete(frames_of(entries, key)) by {
            if key == last.key {
                if chosen {
                    assert(all[before.len() as int] == key);
                }
            } else {
                if before.contains(key) {
                    let a = before.index_of(key);
                    assert(all[a] == key);
                }
                if all.contains(key) {
                    let a = all.index_of(key);
                    assert(a < before.len());
                    assert(before[a] == key);
                }
            }
        }
    }
}

/// Replacing a transfer by a valid one under the same key keeps the
/// contents well-formed.
pub proof fn lemma_update_well_formed(
    entries: Seq<Transfer>,
    i: int,
    transfer: Transfer,
    limits: Limits,
)
    requires
        well_formed(entries, limits),
        0 <= i < entries.len(),
        transfer.key == entries[i].key,
        transfer.frames.len() <= limits.max_frames,
        transfer.frames.len() > 0,
        forall|j: int|
            0 <= j < transfer.frames.len() ==> (#[trigger] transfer.frames[j]).full_id()
                == transfer.key,
        limits.strict ==> consecutive(transfer.frames),
    ensures
        well_formed(entries.update(i, transfer), limits),
{
    let after = entries.update(i, transfer);
    assert forall|a: int, b: int| 0 <= a < b < after.len() implies (#[trigger] after[a]).key != (
    #[trigger] after[b]).key by {
        assert(entries[a].key != entries[b].key);
    }
    assert forall|a: int| 0 <= a < after.len() implies valid_transfer(
        #[trigger] after[a],
        limits,
    ) by {
        if a != i {
            assert(valid_transfer(entries[a], limits));
        }
    }
}

/// Adding a valid transfer under a key that the contents do not hold keeps
/// them well-formed, where the limit on transfers leaves room.
pub proof fn lemma_push_well_formed(entries: Seq<Transfer>, transfer: Transfer, limits: Limits)
    requires
        well_formed(entries, limits),
        entries.len() < limits.max_transfers,
        !holds(entries, transfer.key),
        valid_transfer(transfer, limits),
    ensures
        well_formed(entries.push(transfer), limits),
{
    let after = entries.push(transfer);
    assert forall|a: int, b: int| 0 <= a < b < after.len() implies (#[trigger] after[a]).key != (
    #[trigger] after[b]).key by {
        if b < entries.len() {
            assert(entries[a].key != entries[b].key);
        } else {
            assert(entries[a].key != transfer.key);
        }
    }
    assert forall|a: int| 0 <= a < after.len() implies valid_transfer(
        #[trigger] after[a],
        limits,
    ) by {
        if a < entries.len() {
            assert(valid_transfer(entries[a], limits));
        }
    }
}

/// Without their oldest transfer, well-formed contents stay well-formed.
pub proof fn lemma_drop_first_well_formed(entries: Seq<Transfer>, limits: Limits)
    requires
        well_formed(entries, limits),
        entries.len() > 0,
    ensures
        well_formed(entries.drop_first(), limits),
{
    lemma_remove_well_formed(entries, 0, limits);
    assert(entries.drop_first() =~= entries.remove(0));
}

/// Without one of their transfers, well-formed contents stay well-formed.
pub proof fn lemma_remove_well_formed(entries: Seq<Transfer>, i: int, limits: Limits)
    requires
        well_formed(entries, limits),
        0 <= i < entries.len(),
    ensures
        well_formed(entries.remove(i), limits),
        !holds(entries.remove(i), entries[i].key),
        forall|key: FullTransferID|
            key != entries[i].key ==> holds(entries.remove(i), key) == holds(entries, key)
                && frames_of(entries.remove(i), key) == frames_of(entries, key),
{
    let after = entries.remove(i);
    assert forall|a: int| 0 <= a < after.len() implies (#[trigger] after[a]) == entries[if a < i {
        a
    } else {
        a + 1
    }] by {}
    assert forall|a: int, b: int| 0 <= a < b < after.len() implies (#[trigger] after[a]).key != (
    #[trigger] after[b]).key by {
        let x = if a < i { a } else { a + 1 };
        let y = if b < i { b } else { b + 1 };
        assert(entries[x].key != entries[y].key);
    }
    assert forall|a: int| 0 <= a < after.len() implies valid_transfer(
        #[trigger] after[a],
        limits,
    ) by {
        let x = if a < i { a } else { a + 1 };
        assert(valid_transfer(entries[x], limits));
    }
    if holds(after, entries[i].key) {
        let a = slot(after, entries[i].key);
        let x = if a < i { a } else { a + 1 };
        assert(after[a] == entries[x]);
        if x < i {
            assert(entries[x].key != entries[i].key);
        } else {
            assert(entries[i].key != entries[x].key);
        }
    }
    assert forall|key: FullTransferID| key != entries[i].key implies holds(after, key) == holds(
        entries,
        key,
    ) && frames_of(after, key) == frames_of(entries, key) by {
        if holds(entries, key) {
            let x = slot(entries, key);
            let a = if x < i { x } else { x - 1 };
            assert(after[a] == entries[x]);
            lemma_slot(after, a);
            lemma_slot(entries, x);
        }
        if holds(after, key) {
            let a = slot(after, key);
            let x = if a < i { a } else { a + 1 };
            assert(after[a] == entries[x]);
            assert(entries[x].key == key);
        }
    }
}

/// What one insertion does to the contents, transfer by transfer: the
/// contents stay well-formed; a frame that is not dropped becomes the
/// youngest frame of its transfer; an evicted transfer is gone; every other
/// transfer stays as it was.
pub proof fn lemma_inserted(entries: Seq<Transfer>, frame: CanFrame, limits: Limits)
    requires
        well_formed(entries, limits),
    ensures
        well_formed(inserted(entries, frame, limits), limits),
        ({
            let key = frame.full_id();
            let outcome = outcome_of(entries, frame, limits);
            let after = inserted(entries, frame, limits);
            &&& if outcome is Full || outcome is OutOfOrder {
                after == entries
            } else {
                holds(after, key) && frames_of(after, key) == frames_of(entries, key).push(frame)
            }
            &&& outcome matches InsertOutcome::Evicted(gone) ==> gone != key && holds(
                entries,
                gone,
            ) && !holds(after, gone)
            &&& forall|other: FullTransferID|
                other != key && outcome != InsertOutcome::Evicted(other) ==> holds(after, other)
                    == holds(entries, other) && frames_of(after, other) == frames_of(
                    entries,
                    other,
                )
        }),
{
    let key = frame.full_id();
    let after = inserted(entries, frame, limits);
    let fresh = Transfer { key, frames: seq![frame] };
    match outcome_of(entries, frame, limits) {
        InsertOutcome::Appended => {
            let at = slot(entries, key);
            lemma_slot(entries, at);
            let frames = frames_of(entries, key);
            let grown = Transfer { key, frames: frames.push(frame) };
            assert(valid_transfer(entries[at], limits));
            lemma_update_well_formed(entries, at, grown, limits);
            assert(after[at].key == key);
            lemma_slot(after, at);
            lemma_update_keeps_others(entries, at, grown, limits);
        },
        InsertOutcome::Started => {
            lemma_push_well_formed(entries, fresh, limits);
            lemma_push_keeps_others(entries, fresh, limits);
        },
        InsertOutcome::Evicted(gone) => {
            let rest = entries.drop_first();
            lemma_slot(entries, 0);
            lemma_remove_well_formed(entries, 0, limits);
            assert(rest =~= entries.remove(0));
            lemma_push_well_formed(rest, fresh, limits);
            lemma_push_keeps_others(rest, fresh, limits);
            assert(frames_of(entries, key) =~= Seq::<CanFrame>::empty());
        },
        InsertOutcome::Full => {},
        InsertOutcome::OutOfOrder => {},
    }
}

/// Replacing the transfer at one position leaves the transfers under all
/// other keys as they were.
pub proof fn lemma_update_keeps_others(
    entries: Seq<Transfer>,
    i: int,
    transfer: Transfer,
    limits: Limits,
)
    requires
        well_formed(entries, limits),
        0 <= i < entries.len(),
        transfer.key == entries[i].key,
    ensures
        forall|other: FullTransferID|
            other != transfer.key ==> holds(entries.update(i, transfer), other) == holds(
                entries,
                other,
            ) && frames_of(entries.update(i, transfer), other) == frames_of(entries, other),
{
    let after = entries.update(i, transfer);
    assert forall|a: int, b: int| 0 <= a < b < after.len() implies (#[trigger] after[a]).key != (
    #[trigger] after[b]).key by {
        assert(entries[a].key != entries[b].key);
    }
    assert forall|other: FullTransferID| other != transfer.key implies holds(after, other)
        == holds(entries, other) && frames_of(after, other) == frames_of(entries, other) by {
        if holds(entries, other) {
            let x = slot(entries, other);
            assert(after[x] == entries[x]);
            lemma_slot(after, x);
        }
        if holds(after, other) {
            let x = slot(after, other);
            assert(after[x] == entries[x]);
            lemma_slot(entries, x);
        }
    }
}

/// A transfer added under a new key is held with its frames, and the
/// transfers under all other keys stay as they were.
pub proof fn lemma_push_keeps_others(entries: Seq<Transfer>, transfer: Transfer, limits: Limits)
    requires
        well_formed(entries, limits),
        !holds(entries, transfer.key),
    ensures
        holds(entries.push(transfer), transfer.key),
        frames_of(entries.push(transfer), transfer.key) == transfer.frames,
        forall|other: FullTransferID|
            other != transfer.key ==> holds(entries.push(transfer), other) == holds(entries, other)
                && frames_of(entries.push(transfer), other) == frames_of(entries, other),
{
    let after = entries.push(transfer);
    let n = entries.len() as int;
    assert forall|a: int, b: int| 0 <= a < b < after.len() implies (#[trigger] after[a]).key != (
    #[trigger] after[b]).key by {
        if b < n {
            assert(entries[a].key != entries[b].key);
        } else {
            assert(entries[a].key != transfer.key);
        }
    }
    assert(after[n] == transfer);
    lemma_slot(after, n);
    assert forall|other: FullTransferID| other != transfer.key implies holds(after, other)
        == holds(entries, other) && frames_of(after, other) == frames_of(entries, other) by {
        if holds(entries, other) {
            let x = slot(entries, other);
            assert(after[x] == entries[x]);
            lemma_slot(after, x);
        }
        if holds(after, other) {
            let x = slot(after, other);
            assert(after[x] == entries[x]);
            lemma_slot(entries, x);
        }
    }
}

/// What one removal does to the contents: they stay well-formed; the
/// transfer under the key loses its oldest frame, and leaves the map when
/// that was its last; every other transfer stays as it was. Once the key is
/// gone, removing again finds nothing and changes nothing.
pub proof fn lemma_removed(entries: Seq<Transfer>, key: FullTransferID, limits: Limits)
    requires
        well_formed(entries, limits),
    ensures
        well_formed(removed(entries, key), limits),
        oldest(entries, key).is_some() == holds(entries, key),
        ({
            let after = removed(entries, key);
            &&& holds(after, key) == (frames_of(entries, key).len() > 1)
            &&& holds(entries, key) ==> frames_of(after, key) == frames_of(
                entries,
                key,
            ).drop_first()
            &&& !holds(entries, key) ==> after == entries
            &&& !holds(after, key) ==> oldest(after, key).is_none() && removed(after, key)
                == after
            &&& forall|other: FullTransferID|
                other != key ==> holds(after, other) == holds(entries, other) && frames_of(
                    after,
                    other,
                ) == frames_of(entries, other)
        }),
{
    if holds(entries, key) {
        let at = slot(entries, key);
        lemma_slot(entries, at);
        let frames = frames_of(entries, key);
        assert(valid_transfer(entries[at], limits));
        if frames.len() > 1 {
            let rest = Transfer { key, frames: frames.drop_first() };
            assert forall|j: int| 0 <= j < rest.frames.len() implies (
            #[trigger] rest.frames[j]).full_id() == key by {
                assert(rest.frames[j] == frames[j + 1]);
            }
            if limits.strict {
                lemma_consecutive_drop_first(frames);
            }
            lemma_update_well_formed(entries, at, rest, limits);
            lemma_update_keeps_others(entries, at, rest, limits);
            let after = entries.update(at, rest);
            assert(after[at].key == key);
            lemma_slot(after, at);
        } else {
            lemma_remove_well_formed(entries, at, limits);
            assert(frames.drop_first() =~= Seq::<CanFrame>::empty());
        }
    }
}

/// The contents after the frames were inserted one after the other.
pub open spec fn inserted_all(
    entries: Seq<Transfer>,
    frames: Seq<CanFrame>,
    limits: Limits,
) -> Seq<Transfer>
    decreases frames.len(),
{
    if frames.len() == 0 {
        entries
    } else {
        inserted(inserted_all(entries, frames.drop_last(), limits), frames.last(), limits)
    }
}

/// Whether the map drops none of `frames` when they come, in this order,
/// for the transfer under `key`: its buffer has room for all of them, a
/// transfer can be held at all, and in strict mode the frames continue the
/// buffer without a gap.
pub open spec fn admits(
    entries: Seq<Transfer>,
    key: FullTransferID,
    frames: Seq<CanFrame>,
    limits: Limits,
) -> bool {
    &&& limits.max_transfers > 0
    &&& frames_of(entries, key).len() + frames.len() <= limits.max_frames
    &&& limits.strict ==> consecutive(frames_of(entries, key) + frames) && (frames_of(
        entries,
        key,
    ).len() == 0 && frames.len() > 0 ==> frames[0].id().frame_index() == 0)
}

/// Frames of one transfer that the map admits are gathered in the order in
/// which they come, behind those that the map held already. So the transfer
/// is complete afterwards exactly if it was complete before or one of the
/// inserted frames carries the end-of-transfer flag, in whatever order the
/// frames came.
pub proof fn lemma_insert_one_transfer(
    entries: Seq<Transfer>,
    key: FullTransferID,
    frames: Seq<CanFrame>,
    limits: Limits,
)
    requires
        well_formed(entries, limits),
        forall|i: int| 0 <= i < frames.len() ==> (#[trigger] frames[i]).full_id() == key,
        admits(entries, key, frames, limits),
    ensures
        well_formed(inserted_all(entries, frames, limits), limits),
        ({
            let after = inserted_all(entries, frames, limits);
            &&& frames_of(after, key) == frames_of(entries, key) + frames
            &&& holds(after, key) == (holds(entries, key) || frames.len() > 0)
            &&& complete(frames_of(after, key)) <==> complete(frames_of(entries, key))
                || complete(frames)
        }),
    decreases frames.len(),
{
    let held = frames_of(entries, key);
    let after = inserted_all(entries, frames, limits);
    if holds(entries, key) {
        let at = slot(entries, key);
        assert(valid_transfer(entries[at], limits));
    }
    if frames.len() == 0 {
        assert(held + frames =~= held);
    } else {
        let earlier = frames.drop_last();
        let frame = frames.last();
        let before = inserted_all(entries, earlier, limits);
        assert(held + earlier =~= (held + frames).drop_last());
        if limits.strict {
            assert forall|i: int| 0 < i < (held + earlier).len() implies {
                &&& !(#[trigger] (held + earlier)[i - 1]).is_end_frame()
                &&& (held + earlier)[i].id().frame_index() == ((held + earlier)[i
                    - 1].id().frame_index() + 1) % 32
            } by {
                assert((held + earlier)[i - 1] == (held + frames)[i - 1]);
                assert((held + earlier)[i] == (held + frames)[i]);
            }
            if held.len() == 0 && earlier.len() > 0 {
                assert(earlier[0] == frames[0]);
            }
        }
        assert forall|i: int| 0 <= i < earlier.len() implies (#[trigger] earlier[i]).full_id()
            == key by {
            assert(earlier[i] == frames[i]);
        }
        lemma_insert_one_transfer(entries, key, earlier, limits);
        let gathered = frames_of(before, key);
        assert(gathered == held + earlier);
        if limits.strict {
            let all = held + frames;
            let n = all.len() as int - 1;
            assert(all[n] == frame);
            if gathered.len() > 0 {
                assert(gathered.last() == all[n - 1]);
                let _ = all[n - 1];
                assert(follows(gathered, frame));
            } else {
                assert(frames[0] == frame);
                assert(follows(gathered, frame));
            }
        }
        lemma_inserted(before, frame, limits);
        assert((held + earlier).push(frame) =~= held + frames);
    }
    let total = held + frames;
    if complete(total) {
        let i = choose|i: int| 0 <= i < total.len() && (#[trigger] total[i]).is_end_frame();
        if i < held.len() {
            assert(held[i] == total[i]);
        } else {
            assert(frames[i - held.len()] == total[i]);
        }
    }
    if complete(held) {
        let i = choose|i: int| 0 <= i < held.len() && (#[trigger] held[i]).is_end_frame();
        assert(total[i] == held[i]);
    }
    if complete(frames) {
        let i = choose|i: int| 0 <= i < frames.len() && (#[trigger] frames[i]).is_end_frame();
        assert(total[i + held.len()] == frames[i]);
    }
}

} // verus!
