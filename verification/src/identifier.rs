//! The identifier model: the bit layout of a frame identifier, the compound
//! identity of a transfer, and mask/value filters over identifiers.

use vstd::prelude::*;

verus! {

/// All bits that a frame identifier may use (29 of them).
pub const ID_MASK: u32 = 0x1FFF_FFFF;

/// The identifier bits that every frame of one transfer shares: all of them
/// but the frame index and the end-of-transfer flag.
pub const TRANSFER_MASK: u32 = 0x1FFF_FFC0;

/// Largest priority value (5 bits).
pub const MAX_PRIORITY: u8 = 31;

/// Largest transfer type discriminant (11 bits).
pub const MAX_TRANSFER_TYPE: u16 = 2047;

/// Largest source node address (7 bits).
pub const MAX_SOURCE: u8 = 127;

/// Largest frame index (5 bits); frames of longer transfers count modulo 32.
pub const MAX_FRAME_INDEX: u8 = 31;

/// Largest transfer sequence number (5 bits); the counter wraps to 0 after it.
pub const MAX_SEQUENCE: u8 = 31;

/// The raw identifier that carries the given fields.
///
/// From the most significant bit down: priority (bits 28..24), transfer type
/// (bits 23..13), source node (bits 12..6), frame index (bits 5..1),
/// end-of-transfer flag (bit 0).
pub open spec fn encoding(
    priority: u8,
    transfer_type: u16,
    source: u8,
    index: u8,
    end: bool,
) -> u32 {
    (priority as u32) << 24 | (transfer_type as u32) << 13 | (source as u32) << 6 | (index as u32)
        << 1 | (if end { 1u32 } else { 0u32 })
}

/// Identifier of one frame on the bus. Lower raw values win arbitration, so
/// ordering and equality are those of the raw value.
#[derive(Clone, Copy, Debug, PartialEq, Eq, Structural, PartialOrd, Ord, Hash)]
pub struct FrameID {
    raw: u32,
}

impl View for FrameID {
    type V = u32;

    closed spec fn view(&self) -> u32 {
        self.raw
    }
}

impl FrameID {
    /// Validity: the raw value uses the 29 identifier bits only.
    #[verifier::type_invariant]
    pub closed spec fn inv(self) -> bool {
        self.raw <= ID_MASK
    }

    /// The priority field.
    pub open spec fn spec_priority(self) -> u8 {
        ((self@ >> 24) & 0x1f) as u8
    }

    /// The transfer type field.
    pub open spec fn spec_transfer_type(self) -> u16 {
        ((self@ >> 13) & 0x7ff) as u16
    }

    /// The source node field.
    pub open spec fn spec_source(self) -> u8 {
        ((self@ >> 6) & 0x7f) as u8
    }

    /// The frame index field.
    pub open spec fn spec_frame_index(self) -> u8 {
        ((self@ >> 1) & 0x1f) as u8
    }

    /// The end-of-transfer flag.
    pub open spec fn spec_is_end(self) -> bool {
        self@ & 1 == 1
    }

    /// The identifier with the given raw value.
    pub closed spec fn spec_new(raw: u32) -> FrameID {
        FrameID { raw }
    }

    /// Wraps a raw identifier, which must fit the 29 identifier bits.
    #[verifier::when_used_as_spec(spec_new)]
    pub fn new(raw: u32) -> (id: FrameID)
        requires
            raw <= ID_MASK,
        ensures
            id == Self::spec_new(raw),
            id@ == raw,
            id.inv(),
    {
        FrameID { raw }
    }

    /// The raw identifier.
    pub fn value(self) -> (raw: u32)
        ensures
            raw == self@,
            raw <= ID_MASK,
    {
        proof {
            use_type_invariant(&self);
        }
        self.raw
    }

    /// Packs the five fields into an identifier.
    pub fn encode(priority: u8, transfer_type: u16, source: u8, index: u8, end: bool) -> (id:
        FrameID)
        requires
            priority <= MAX_PRIORITY,
            transfer_type <= MAX_TRANSFER_TYPE,
            source <= MAX_SOURCE,
            index <= MAX_FRAME_INDEX,
        ensures
            id.inv(),
            id@ == encoding(priority, transfer_type, source, index, end),
            id.priority() == priority,
            id.transfer_type() == transfer_type,
            id.source() == source,
            id.frame_index() == index,
            id.is_end() == end,
    {
        let flag: u32 = if end { 1 } else { 0 };
        let raw: u32 = (priority as u32) << 24 | (transfer_type as u32) << 13 | (source as u32)
            << 6 | (index as u32) << 1 | flag;
        proof {
            lemma_fields_of_encoding(priority, transfer_type, source, index, end);
        }
        FrameID { raw }
    }

    /// Priority field.
    #[verifier::when_used_as_spec(spec_priority)]
    pub fn priority(self) -> (p: u8)
        ensures
            p == self.spec_priority(),
            p <= MAX_PRIORITY,
    {
        let raw = self.raw;
        assert(((raw >> 24) & 0x1f) <= 31) by (bit_vector);
        ((raw >> 24) & 0x1f) as u8
    }

    /// Transfer type discriminant.
    #[verifier::when_used_as_spec(spec_transfer_type)]
    pub fn transfer_type(self) -> (t: u16)
        ensures
            t == self.spec_transfer_type(),
            t <= MAX_TRANSFER_TYPE,
    {
        let raw = self.raw;
        assert(((raw >> 13) & 0x7ff) <= 2047) by (bit_vector);
        ((raw >> 13) & 0x7ff) as u16
    }

    /// Address of the node that sent the frame.
    #[verifier::when_used_as_spec(spec_source)]
    pub fn source(self) -> (s: u8)
        ensures
            s == self.spec_source(),
            s <= MAX_SOURCE,
    {
        let raw = self.raw;
        assert(((raw >> 6) & 0x7f) <= 127) by (bit_vector);
        ((raw >> 6) & 0x7f) as u8
    }

    /// Index of the frame within its transfer, modulo 32.
    #[verifier::when_used_as_spec(spec_frame_index)]
    pub fn frame_index(self) -> (i: u8)
        ensures
            i == self.spec_frame_index(),
            i <= MAX_FRAME_INDEX,
    {
        let raw = self.raw;
        assert(((raw >> 1) & 0x1f) <= 31) by (bit_vector);
        ((raw >> 1) & 0x1f) as u8
    }

    /// Whether the frame is the last one of its transfer.
    #[verifier::when_used_as_spec(spec_is_end)]
    pub fn is_end(self) -> (e: bool)
        ensures
            e == self.spec_is_end(),
    {
        self.raw & 1 == 1
    }

    /// The identifier with the frame index and the end-of-transfer flag
    /// cleared: what all frames of one transfer have in common.
    pub closed spec fn spec_mask(self) -> FrameID {
        FrameID { raw: self.raw & TRANSFER_MASK }
    }

    /// The transfer-identity view of the identifier: priority, transfer type
    /// and source stay, frame index and end-of-transfer flag are cleared.
    #[verifier::when_used_as_spec(spec_mask)]
    pub fn mask(self) -> (m: FrameID)
        ensures
            m == self.spec_mask(),
            m.inv(),
            m@ == self@ & TRANSFER_MASK,
            m.priority() == self.priority(),
            m.transfer_type() == self.transfer_type(),
            m.source() == self.source(),
            m.frame_index() == 0,
            !m.is_end(),
    {
        let raw = self.raw;
        let m = raw & TRANSFER_MASK;
        assert(m <= 0x1FFF_FFFF && ((m >> 24) & 0x1f) == ((raw >> 24) & 0x1f) && ((m >> 13)
            & 0x7ff) == ((raw >> 13) & 0x7ff) && ((m >> 6) & 0x7f) == ((raw >> 6) & 0x7f) && ((m
            >> 1) & 0x1f) == 0 && (m & 1) == 0) by (bit_vector)
            requires
                m == raw & 0x1FFF_FFC0,
        ;
        FrameID { raw: m }
    }

    /// The identifier of the frame that stands at `index` in the transfer
    /// `self` belongs to, with the end-of-transfer flag as given.
    pub closed spec fn spec_at(self, index: u8, end: bool) -> FrameID {
        FrameID {
            raw: (self.raw & TRANSFER_MASK) | (index as u32) << 1 | (if end {
                1u32
            } else {
                0u32
            }),
        }
    }

    /// Replaces frame index and end-of-transfer flag, keeping the transfer
    /// identity.
    #[verifier::when_used_as_spec(spec_at)]
    pub fn at(self, index: u8, end: bool) -> (id: FrameID)
        requires
            index <= MAX_FRAME_INDEX,
        ensures
            id == self.spec_at(index, end),
            id.inv(),
            id.mask() == self.mask(),
            id.frame_index() == index,
            id.is_end() == end,
    {
        let raw = self.raw;
        let i = index as u32;
        let e: u32 = if end { 1 } else { 0 };
        let r = (raw & TRANSFER_MASK) | i << 1 | e;
        assert(r <= 0x1FFF_FFFF && r & 0x1FFF_FFC0 == raw & 0x1FFF_FFC0 && ((r >> 1) & 0x1f) == i
            && (r & 1) == e) by (bit_vector)
            requires
                i <= 31,
                e <= 1,
                r == (raw & 0x1FFF_FFC0) | i << 1 | e,
        ;
        FrameID { raw: r }
    }
}

/// Each field of an encoded identifier reads back as it was written, and the
/// encoding stays within the identifier bits.
pub proof fn lemma_fields_of_encoding(
    priority: u8,
    transfer_type: u16,
    source: u8,
    index: u8,
    end: bool,
)
    requires
        priority <= MAX_PRIORITY,
        transfer_type <= MAX_TRANSFER_TYPE,
        source <= MAX_SOURCE,
        index <= MAX_FRAME_INDEX,
    ensures
        encoding(priority, transfer_type, source, index, end) <= ID_MASK,
        ((encoding(priority, transfer_type, source, index, end) >> 24) & 0x1f) == priority,
        ((encoding(priority, transfer_type, source, index, end) >> 13) & 0x7ff) == transfer_type,
        ((encoding(priority, transfer_type, source, index, end) >> 6) & 0x7f) == source,
        ((encoding(priority, transfer_type, source, index, end) >> 1) & 0x1f) == index,
        (encoding(priority, transfer_type, source, index, end) & 1 == 1) == end,
{
    let p = priority as u32;
    let t = transfer_type as u32;
    let s = source as u32;
    let i = index as u32;
    let e = if end { 1u32 } else { 0u32 };
    let raw = p << 24 | t << 13 | s << 6 | i << 1 | e;
    assert(raw <= 0x1FFF_FFFF && ((raw >> 24) & 0x1f) == p && ((raw >> 13) & 0x7ff) == t && ((raw
        >> 6) & 0x7f) == s && ((raw >> 1) & 0x1f) == i && (raw & 1) == e) by (bit_vector)
        requires
            p <= 31,
            t <= 2047,
            s <= 127,
            i <= 31,
            e <= 1,
            raw == p << 24 | t << 13 | s << 6 | i << 1 | e,
    ;
}

/// What `mask` and `at` give, for identifiers that occur in specifications
/// only.
pub proof fn lemma_mask_and_at(id: FrameID, index: u8, end: bool)
    requires
        id.inv(),
        index <= MAX_FRAME_INDEX,
    ensures
        id.mask().inv(),
        id.mask()@ == id@ & TRANSFER_MASK,
        id.mask().mask() == id.mask(),
        id.mask().frame_index() == 0,
        !id.mask().is_end(),
        id.at(index, end).inv(),
        id.at(index, end).mask() == id.mask(),
        id.at(index, end).frame_index() == index,
        id.at(index, end).is_end() == end,
        id.at(id.frame_index(), id.is_end()) == id,
{
    let raw = id@;
    let m = raw & TRANSFER_MASK;
    let i = index as u32;
    let e = if end { 1u32 } else { 0u32 };
    let r = m | i << 1 | e;
    assert(m <= 0x1FFF_FFFF && m & 0x1FFF_FFC0 == m && ((m >> 1) & 0x1f) == 0 && (m & 1) == 0)
        by (bit_vector)
        requires
            m == raw & 0x1FFF_FFC0,
    ;
    assert(r <= 0x1FFF_FFFF && r & 0x1FFF_FFC0 == m && ((r >> 1) & 0x1f) == i && (r & 1) == e)
        by (bit_vector)
        requires
            m == raw & 0x1FFF_FFC0,
            i <= 31,
            e <= 1,
            r == m | i << 1 | e,
    ;
    let j = (raw >> 1) & 0x1f;
    let f = if raw & 1 == 1 { 1u32 } else { 0u32 };
    assert(j <= 31 && (m | j << 1 | f) == raw) by (bit_vector)
        requires
            raw <= 0x1FFF_FFFF,
            m == raw & 0x1FFF_FFC0,
            j == (raw >> 1) & 0x1f,
            f == (if raw & 1 == 1 { 1u32 } else { 0u32 }),
    ;
    assert(j as u8 as u32 == j);
}

/// `new` makes the identifier with the given raw value.
pub proof fn lemma_frame_id_new(raw: u32)
    ensures
        FrameID::new(raw)@ == raw,
{
}

/// Two identifiers are the same value when their raw values agree, and
/// `new` makes the identifier with the raw value that it was given.
pub proof fn lemma_frame_id_by_value(a: FrameID, b: FrameID)
    ensures
        a@ == b@ ==> a == b,
        FrameID::new(a@) == a,
        a.inv() <==> a@ <= ID_MASK,
{
}

/// Packing the fields read from a valid identifier gives the identifier back.
pub proof fn lemma_encoding_of_fields(id: FrameID)
    requires
        id.inv(),
    ensures
        encoding(id.priority(), id.transfer_type(), id.source(), id.frame_index(), id.is_end())
            == id@,
{
    let raw = id@;
    let p = (raw >> 24) & 0x1f;
    let t = (raw >> 13) & 0x7ff;
    let s = (raw >> 6) & 0x7f;
    let i = (raw >> 1) & 0x1f;
    let e = if raw & 1 == 1 { 1u32 } else { 0u32 };
    assert(p <= 31 && t <= 2047 && s <= 127 && i <= 31 && (p << 24 | t << 13 | s << 6 | i << 1 | e)
        == raw) by (bit_vector)
        requires
            raw <= 0x1FFF_FFFF,
            p == (raw >> 24) & 0x1f,
            t == (raw >> 13) & 0x7ff,
            s == (raw >> 6) & 0x7f,
            i == (raw >> 1) & 0x1f,
            e == (if raw & 1 == 1 { 1u32 } else { 0u32 }),
    ;
    assert(p as u8 as u32 == p);
    assert(t as u16 as u32 == t);
    assert(s as u8 as u32 == s);
    assert(i as u8 as u32 == i);
}

/// Two valid identifiers belong to the same transfer identity exactly when
/// they agree on priority, transfer type and source.
pub proof fn lemma_same_transfer(a: FrameID, b: FrameID)
    requires
        a.inv(),
        b.inv(),
    ensures
        a.mask() == b.mask() <==> a.priority() == b.priority() && a.transfer_type()
            == b.transfer_type() && a.source() == b.source(),
{
    let x = a@;
    let y = b@;
    assert((x & 0x1FFF_FFC0 == y & 0x1FFF_FFC0) <==> (((x >> 24) & 0x1f) == ((y >> 24) & 0x1f)
        && ((x >> 13) & 0x7ff) == ((y >> 13) & 0x7ff) && ((x >> 6) & 0x7f) == ((y >> 6)
        & 0x7f)))
        by (bit_vector)
        requires
            x <= 0x1FFF_FFFF,
            y <= 0x1FFF_FFFF,
    ;
    assert(((x >> 24) & 0x1f) <= 31 && ((x >> 13) & 0x7ff) <= 2047 && ((x >> 6) & 0x7f) <= 127)
        by (bit_vector);
    assert(((y >> 24) & 0x1f) <= 31 && ((y >> 13) & 0x7ff) <= 2047 && ((y >> 6) & 0x7f) <= 127)
        by (bit_vector);
}

/// The compound identity of a transfer, the key under which its frames are
/// gathered: the transfer-identity bits of the frame identifier together
/// with the transfer sequence number, a counter modulo 32.
#[derive(Clone, Copy, Debug, PartialEq, Eq, Structural, Hash)]
pub struct FullTransferID {
    frame_id: FrameID,
    transfer_sequence: u8,
}

impl FullTransferID {
    /// Validity: the frame identifier is valid and holds no frame index and
    /// no end-of-transfer flag, and the sequence number is below 32.
    #[verifier::type_invariant]
    pub closed spec fn inv(self) -> bool {
        &&& self.frame_id.raw <= ID_MASK
        &&& self.frame_id.raw & TRANSFER_MASK == self.frame_id.raw
        &&& self.transfer_sequence <= MAX_SEQUENCE
    }

    /// The key for a frame identifier and a sequence number: the identifier
    /// without frame index and end-of-transfer flag, the number modulo 32.
    pub closed spec fn spec_new(frame_id: FrameID, transfer_sequence: u8) -> FullTransferID {
        FullTransferID {
            frame_id: frame_id.spec_mask(),
            transfer_sequence: transfer_sequence % 32,
        }
    }

    /// The transfer-identity bits of the frame identifier.
    pub closed spec fn spec_frame_id(self) -> FrameID {
        self.frame_id
    }

    /// The transfer sequence number.
    pub closed spec fn spec_transfer_sequence(self) -> u8 {
        self.transfer_sequence
    }

    /// The key of the next transfer of the same identity.
    pub closed spec fn spec_next(self) -> FullTransferID {
        FullTransferID {
            frame_id: self.frame_id,
            transfer_sequence: ((self.transfer_sequence + 1) % 32) as u8,
        }
    }

    /// The key with, of both fields, the bits that `mask` holds.
    pub closed spec fn spec_mask(self, mask: FullTransferID) -> FullTransferID {
        FullTransferID {
            frame_id: FrameID { raw: self.frame_id.raw & mask.frame_id.raw },
            transfer_sequence: self.transfer_sequence & mask.transfer_sequence,
        }
    }

    /// Whether `self` is selected by the pattern `identity` under `mask`:
    /// the two agree on every bit that the mask holds.
    pub open spec fn spec_matches(self, identity: FullTransferID, mask: FullTransferID) -> bool {
        self.mask(mask) == identity.mask(mask)
    }

    /// The key of the transfer that a frame with identifier `frame_id` and
    /// sequence number `transfer_sequence` belongs to. Frame index and
    /// end-of-transfer flag are dropped, the sequence number is taken
    /// modulo 32.
    #[verifier::when_used_as_spec(spec_new)]
    pub fn new(frame_id: FrameID, transfer_sequence: u8) -> (key: FullTransferID)
        ensures
            key == Self::spec_new(frame_id, transfer_sequence),
            key.inv(),
            key.frame_id() == frame_id.mask(),
            key.transfer_sequence() == transfer_sequence % 32,
    {
        let masked = frame_id.mask();
        proof {
            use_type_invariant(&masked);
            let raw = frame_id.raw;
            let m = masked.raw;
            assert(m & 0x1FFF_FFC0 == m) by (bit_vector)
                requires
                    m == raw & 0x1FFF_FFC0,
            ;
        }
        FullTransferID { frame_id: masked, transfer_sequence: transfer_sequence % 32 }
    }

    /// The transfer-identity bits of the frame identifier.
    #[verifier::when_used_as_spec(spec_frame_id)]
    pub fn frame_id(self) -> (id: FrameID)
        ensures
            id == self.spec_frame_id(),
            id.inv(),
            id.mask() == id,
    {
        proof {
            use_type_invariant(&self);
        }
        self.frame_id
    }

    /// The transfer sequence number.
    #[verifier::when_used_as_spec(spec_transfer_sequence)]
    pub fn transfer_sequence(self) -> (sequence: u8)
        ensures
            sequence == self.spec_transfer_sequence(),
            sequence <= MAX_SEQUENCE,
    {
        proof {
            use_type_invariant(&self);
        }
        self.transfer_sequence
    }

    /// The key of the next transfer of the same identity: the sequence
    /// number goes up by one and wraps from 31 to 0.
    #[verifier::when_used_as_spec(spec_next)]
    pub fn next(self) -> (key: FullTransferID)
        ensures
            key == self.spec_next(),
            key.inv(),
            key.frame_id() == self.frame_id(),
            key.transfer_sequence() == (self.transfer_sequence() + 1) % 32,
    {
        proof {
            use_type_invariant(&self);
        }
        let sequence: u8 = if self.transfer_sequence >= MAX_SEQUENCE {
            0
        } else {
            self.transfer_sequence + 1
        };
        FullTransferID { frame_id: self.frame_id, transfer_sequence: sequence }
    }

    /// Keeps of both fields the bits that `mask` holds.
    #[verifier::when_used_as_spec(spec_mask)]
    pub fn mask(self, mask: FullTransferID) -> (masked: FullTransferID)
        ensures
            masked == self.spec_mask(mask),
            masked.inv(),
            masked.frame_id()@ == self.frame_id()@ & mask.frame_id()@,
            masked.transfer_sequence() == self.transfer_sequence() & mask.transfer_sequence(),
    {
        proof {
            use_type_invariant(&self);
            use_type_invariant(&mask);
        }
        let a = self.frame_id.raw;
        let b = mask.frame_id.raw;
        let s = self.transfer_sequence;
        let t = mask.transfer_sequence;
        assert((a & b) <= 0x1FFF_FFFF && (a & b) & 0x1FFF_FFC0 == (a & b)) by (bit_vector)
            requires
                a <= 0x1FFF_FFFF,
                a & 0x1FFF_FFC0 == a,
        ;
        assert(s & t <= 31) by (bit_vector)
            requires
                s <= 31,
        ;
        FullTransferID { frame_id: FrameID { raw: a & b }, transfer_sequence: s & t }
    }

    /// Whether `self` is selected by the pattern `identity` under `mask`.
    #[verifier::when_used_as_spec(spec_matches)]
    pub fn matches(self, identity: FullTransferID, mask: FullTransferID) -> (selected: bool)
        ensures
            selected == self.spec_matches(identity, mask),
    {
        self.mask(mask) == identity.mask(mask)
    }
}

/// A key is determined by its two fields, and a key made by `new` has the
/// fields that `new` was given, reduced to what a key holds.
pub proof fn lemma_full_transfer_id(a: FullTransferID, b: FullTransferID)
    ensures
        a.frame_id() == b.frame_id() && a.transfer_sequence() == b.transfer_sequence() ==> a == b,
        a.mask(b).frame_id()@ == a.frame_id()@ & b.frame_id()@,
        a.mask(b).transfer_sequence() == a.transfer_sequence() & b.transfer_sequence(),
        a.next().frame_id() == a.frame_id(),
        a.next().transfer_sequence() == (a.transfer_sequence() + 1) % 32,
{
}

/// What validity says of the fields of a key.
pub proof fn lemma_key_fields(key: FullTransferID)
    requires
        key.inv(),
    ensures
        key.frame_id().inv(),
        key.frame_id().mask() == key.frame_id(),
        key.transfer_sequence() <= MAX_SEQUENCE,
        FullTransferID::new(key.frame_id(), key.transfer_sequence()) == key,
{
}

/// What `new` makes of an identifier and a sequence number, for keys that
/// occur in specifications only.
pub proof fn lemma_full_transfer_id_new(frame_id: FrameID, transfer_sequence: u8)
    requires
        frame_id.inv(),
    ensures
        FullTransferID::new(frame_id, transfer_sequence).inv(),
        FullTransferID::new(frame_id, transfer_sequence).frame_id() == frame_id.mask(),
        FullTransferID::new(frame_id, transfer_sequence).transfer_sequence() == transfer_sequence
            % 32,
{
    let raw = frame_id@;
    let m = raw & TRANSFER_MASK;
    assert(m <= 0x1FFF_FFFF && m & 0x1FFF_FFC0 == m) by (bit_vector)
        requires
            m == raw & 0x1FFF_FFC0,
    ;
}

/// A mask/value pair that selects a subset of the identifier space: it
/// matches every identifier that agrees with `value` on the bits of `mask`.
#[derive(Clone, Copy, Debug, PartialEq, Eq, Structural, Hash)]
pub struct Filter {
    pub mask: FrameID,
    pub value: FrameID,
}

impl Filter {
    /// The match predicate.
    pub open spec fn spec_is_match(&self, candidate: FrameID) -> bool {
        candidate@ & self.mask@ == self.value@ & self.mask@
    }

    /// A filter for the identifiers that agree with `value` on the bits of
    /// `mask`.
    pub fn new(value: FrameID, mask: FrameID) -> (filter: Filter)
        ensures
            filter.value == value,
            filter.mask == mask,
    {
        Filter { mask, value }
    }

    /// Whether the filter selects `candidate`.
    #[verifier::when_used_as_spec(spec_is_match)]
    pub fn is_match(&self, candidate: FrameID) -> (matched: bool)
        ensures
            matched == self.spec_is_match(candidate),
    {
        (candidate.value() & self.mask.value()) == (self.value.value() & self.mask.value())
    }
}

} // verus!
