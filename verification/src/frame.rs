//! The internal frame type: an identifier and up to eight payload bytes.

use crate::identifier::{FrameID, FullTransferID};
use vstd::prelude::*;

verus! {

/// The most payload bytes that one frame carries.
pub const MAX_DATA_LENGTH: usize = 8;

/// Whether `buffer` holds `bytes` at its start and zeros behind them.
spec fn is_padding(buffer: [u8; 8], bytes: Seq<u8>) -> bool {
    forall|i: int|
        0 <= i < 8 ==> #[trigger] buffer@[i] == if i < bytes.len() {
            bytes[i]
        } else {
            0u8
        }
}

/// The buffer that holds `bytes` at its start and zeros behind them.
spec fn padded(bytes: Seq<u8>) -> [u8; 8] {
    choose|buffer: [u8; 8]| is_padding(buffer, bytes)
}

/// One frame of the bus: an identifier, a data length and a payload buffer
/// of which the first `length` bytes are meaningful.
///
/// The last payload byte is the tail byte; its low five bits hold the
/// transfer sequence number. The bytes before it are the frame's share of
/// the transfer's byte stream.
#[derive(Clone, Copy, Debug, PartialEq)]
pub struct CanFrame {
    id: FrameID,
    dlc: usize,
    data: [u8; 8],
}

impl CanFrame {
    /// The most payload bytes that one frame carries.
    pub const MAX_DATA_LENGTH: usize = 8;

    /// Validity: the identifier is valid and the data length is at most 8.
    #[verifier::type_invariant]
    pub closed spec fn inv(self) -> bool {
        &&& self.id.inv()
        &&& self.dlc <= 8
    }

    /// The identifier of the frame.
    pub closed spec fn spec_id(&self) -> FrameID {
        self.id
    }

    /// The payload buffer, all eight bytes of it.
    pub closed spec fn buffer(self) -> Seq<u8> {
        self.data@
    }

    /// The data length: how many bytes of the buffer are payload.
    pub closed spec fn length(self) -> nat {
        self.dlc as nat
    }

    /// The payload: the meaningful bytes of the buffer.
    pub open spec fn payload(self) -> Seq<u8> {
        self.buffer().subrange(0, self.length() as int)
    }

    /// Two frames say the same when identifier and payload agree; bytes of
    /// the buffer behind the data length do not count.
    pub open spec fn same_content(self, other: CanFrame) -> bool {
        self.id()@ == other.id()@ && self.payload() == other.payload()
    }

    /// The frame's share of the transfer's byte stream: the payload without
    /// the tail byte.
    pub open spec fn chunk(self) -> Seq<u8> {
        if self.payload().len() == 0 {
            Seq::<u8>::empty()
        } else {
            self.payload().drop_last()
        }
    }

    /// The transfer sequence number: the low five bits of the tail byte, 0
    /// for a frame without payload.
    pub open spec fn spec_transfer_sequence(&self) -> u8 {
        if self.payload().len() == 0 {
            0
        } else {
            self.payload().last() % 32
        }
    }

    /// The key of the transfer that the frame belongs to.
    pub open spec fn spec_full_id(&self) -> FullTransferID {
        FullTransferID::new(self.id(), self.transfer_sequence())
    }

    /// Whether the frame carries the end-of-transfer flag.
    pub open spec fn spec_is_end_frame(&self) -> bool {
        self.id().is_end()
    }

    /// The frame that `with_data` makes: the payload at the start of a
    /// buffer of zeros.
    pub closed spec fn spec_with_data(id: FrameID, bytes: Seq<u8>) -> CanFrame {
        CanFrame { id, dlc: bytes.len() as usize, data: padded(bytes) }
    }

    /// Whether the buffer holds zeros behind the payload, as in every frame
    /// that `with_data` makes.
    pub open spec fn zero_padded(self) -> bool {
        self == Self::spec_with_data(self.id(), self.payload())
    }

    /// A frame with the given identifier, no payload, and a buffer of
    /// zeros.
    pub fn new(id: FrameID) -> (frame: CanFrame)
        ensures
            frame.inv(),
            frame.id() == id,
            frame.length() == 0,
            frame.buffer() == Seq::new(8, |i: int| 0u8),
            frame.payload() == Seq::<u8>::empty(),
    {
        proof {
            use_type_invariant(&id);
        }
        let frame = CanFrame { id, dlc: 0, data: [0;8] };
        assert(frame.buffer() =~= Seq::new(8, |i: int| 0u8));
        frame
    }

    /// A frame with the given identifier and payload, in a buffer that
    /// holds zeros behind the payload.
    pub fn with_data(id: FrameID, bytes: &[u8]) -> (frame: CanFrame)
        requires
            bytes@.len() <= MAX_DATA_LENGTH,
        ensures
            frame == Self::spec_with_data(id, bytes@),
            frame.inv(),
            frame.id() == id,
            frame.length() == bytes@.len(),
            frame.buffer() == bytes@ + Seq::new((8 - bytes@.len()) as nat, |i: int| 0u8),
            frame.payload() == bytes@,
            frame.zero_padded(),
    {
        proof {
            use_type_invariant(&id);
            lemma_with_data(id, bytes@);
        }
        let n = bytes.len();
        let mut data = [0u8;8];
        let mut i: usize = 0;
        while i < n
            invariant
                n == bytes@.len(),
                n <= 8,
                i <= n,
                forall|j: int| 0 <= j < i ==> data@[j] == bytes@[j],
                forall|j: int| i <= j < 8 ==> data@[j] == 0,
            decreases n - i,
        {
            data[i] = bytes[i];
            i += 1;
        }
        proof {
            assert(is_padding(data, bytes@));
            assert(data =~= padded(bytes@));
            assert(data@.subrange(0, n as int) =~= bytes@);
        }
        CanFrame { id, dlc: n, data }
    }

    /// Sets how many bytes of the buffer are payload. The bytes themselves
    /// stay as they are.
    pub fn set_data_length(&mut self, length: usize)
        requires
            length <= MAX_DATA_LENGTH,
        ensures
            final(self).inv(),
            final(self).id() == old(self).id(),
            final(self).buffer() == old(self).buffer(),
            final(self).length() == length,
    {
        proof {
            use_type_invariant(&*self);
        }
        self.dlc = length;
    }

    /// Replaces the payload by `bytes`. The bytes of the buffer behind them
    /// stay as they are.
    pub fn set_data(&mut self, bytes: &[u8])
        requires
            bytes@.len() <= MAX_DATA_LENGTH,
        ensures
            final(self).inv(),
            final(self).id() == old(self).id(),
            final(self).length() == bytes@.len(),
            final(self).buffer() == bytes@ + old(self).buffer().skip(bytes@.len() as int),
            final(self).payload() == bytes@,
    {
        proof {
            use_type_invariant(&*self);
        }
        let n = bytes.len();
        let mut i: usize = 0;
        while i < n
            invariant
                n == bytes@.len(),
                n <= 8,
                i <= n,
                self.id == old(self).id,
                self.dlc == old(self).dlc,
                self.dlc <= 8,
                self.id.inv(),
                self.data@.len() == 8,
                forall|j: int| 0 <= j < i ==> self.data@[j] == bytes@[j],
                forall|j: int| i <= j < 8 ==> self.data@[j] == old(self).data@[j],
            decreases n - i,
        {
            self.data[i] = bytes[i];
            i += 1;
        }
        self.dlc = n;
        assert(self.data@.subrange(0, n as int) =~= bytes@);
        assert(self.data@ =~= bytes@ + old(self).data@.skip(n as int));
    }

    /// The payload.
    pub fn data(&self) -> (bytes: &[u8])
        ensures
            bytes@ == self.payload(),
            bytes@.len() <= MAX_DATA_LENGTH,
    {
        proof {
            use_type_invariant(self);
        }
        &self.data[0..self.dlc]
    }

    /// The payload, for writing. The data length stays as it is, and so
    /// do the bytes of the buffer behind the payload. What is written into
    /// the slice is the payload afterwards; the slice keeps its length, as
    /// every slice does.
    pub fn data_as_mut(&mut self) -> (bytes: &mut [u8])
        ensures
            bytes@ == old(self).payload(),
            final(self).id() == old(self).id(),
            final(self).length() == old(self).length(),
            final(self).buffer() == final(bytes)@ + old(self).buffer().skip(
                old(self).length() as int,
            ),
            final(bytes)@.len() == bytes@.len() ==> final(self).payload() == final(bytes)@,
    {
        proof {
            use_type_invariant(&*self);
        }
        let whole: &mut [u8] = &mut self.data;
        let (head, tail) = whole.split_at_mut(self.dlc);
        assert(final(head)@.len() == head@.len() ==> (final(head)@ + final(tail)@).subrange(
            0,
            head@.len() as int,
        ) =~= final(head)@);
        head
    }

    /// The identifier.
    #[verifier::when_used_as_spec(spec_id)]
    pub fn id(&self) -> (id: FrameID)
        ensures
            id == self.spec_id(),
            id.inv(),
    {
        proof {
            use_type_invariant(self);
        }
        self.id
    }

    /// The transfer sequence number that the tail byte holds; 0 for a frame
    /// without payload.
    #[verifier::when_used_as_spec(spec_transfer_sequence)]
    pub fn transfer_sequence(&self) -> (sequence: u8)
        ensures
            sequence == self.spec_transfer_sequence(),
            sequence < 32,
    {
        proof {
            use_type_invariant(self);
        }
        if self.dlc == 0 {
            0
        } else {
            self.data[self.dlc - 1] % 32
        }
    }

    /// The key of the transfer that the frame belongs to.
    #[verifier::when_used_as_spec(spec_full_id)]
    pub fn full_id(&self) -> (key: FullTransferID)
        ensures
            key == self.spec_full_id(),
            key.inv(),
    {
        FullTransferID::new(self.id(), self.transfer_sequence())
    }

    /// Whether the frame carries the end-of-transfer flag.
    #[verifier::when_used_as_spec(spec_is_end_frame)]
    pub fn is_end_frame(&self) -> (end: bool)
        ensures
            end == self.spec_is_end_frame(),
    {
        self.id().is_end()
    }
}

/// What `with_data` makes of an identifier and up to eight bytes: the
/// payload stands at the start of a buffer of zeros.
pub proof fn lemma_with_data(id: FrameID, bytes: Seq<u8>)
    requires
        bytes.len() <= MAX_DATA_LENGTH,
    ensures
        CanFrame::spec_with_data(id, bytes).id() == id,
        CanFrame::spec_with_data(id, bytes).length() == bytes.len(),
        CanFrame::spec_with_data(id, bytes).buffer() == bytes + Seq::new(
            (8 - bytes.len()) as nat,
            |i: int| 0u8,
        ),
        CanFrame::spec_with_data(id, bytes).payload() == bytes,
        id.inv() ==> CanFrame::spec_with_data(id, bytes).inv(),
{
    let filled = Seq::new(8, |i: int| if i < bytes.len() { bytes[i] } else { 0u8 });
    lemma_array_of(filled);
    let buffer = choose|buffer: [u8; 8]| buffer@ == filled;
    assert(is_padding(buffer, bytes));
    vstd::array::array_len_matches_n(&padded(bytes));
    assert(padded(bytes)@.subrange(0, bytes.len() as int) =~= bytes);
    assert(padded(bytes)@ =~= bytes + Seq::new((8 - bytes.len()) as nat, |i: int| 0u8));
}

/// The buffer of a frame has eight bytes. A valid frame has a valid
/// identifier and a data length of at most eight, which is then the length
/// of its payload.
pub proof fn lemma_frame_bounds(frame: CanFrame)
    ensures
        frame.buffer().len() == 8,
        frame.inv() ==> frame.id().inv() && frame.length() <= MAX_DATA_LENGTH
            && frame.payload().len() == frame.length(),
{
    vstd::array::array_len_matches_n(&frame.data);
}

/// There is a buffer for every eight bytes.
proof fn lemma_array_of(bytes: Seq<u8>)
    requires
        bytes.len() == 8,
    ensures
        exists|buffer: [u8; 8]| buffer@ == bytes,
{
    let buffer: [u8; 8] = arbitrary();
    vstd::array::array_len_matches_n(&buffer);
    let b0 = vstd::array::spec_array_update(buffer, 0, bytes[0]);
    let b1 = vstd::array::spec_array_update(b0, 1, bytes[1]);
    let b2 = vstd::array::spec_array_update(b1, 2, bytes[2]);
    let b3 = vstd::array::spec_array_update(b2, 3, bytes[3]);
    let b4 = vstd::array::spec_array_update(b3, 4, bytes[4]);
    let b5 = vstd::array::spec_array_update(b4, 5, bytes[5]);
    let b6 = vstd::array::spec_array_update(b5, 6, bytes[6]);
    let b7 = vstd::array::spec_array_update(b6, 7, bytes[7]);
    assert(b7@ =~= bytes);
}

} // verus!
