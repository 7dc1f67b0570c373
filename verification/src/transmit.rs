//! The transmit path: slicing the byte stream of an outgoing transfer into
//! frames.
//!
//! Each frame carries up to seven bytes of the stream and, behind them, the
//! tail byte with the transfer sequence number. A transfer without bytes
//! is one frame that holds the tail byte only.

use crate::buffer::{complete, consecutive, intact, stream};
use crate::codec::{
    decoded, lemma_decoded, native_data, native_id, native_is_error, native_is_extended,
    native_is_rtr,
};
use crate::frame::CanFrame;
use crate::identifier::{
    lemma_frame_id_by_value, lemma_full_transfer_id, lemma_full_transfer_id_new, lemma_key_fields,
    lemma_mask_and_at, FullTransferID,
};
use crate::reassembly::{
    admits, frames_of, holds, inserted_all, lemma_insert_one_transfer, well_formed, Limits,
    Transfer,
};
use vstd::prelude::*;

verus! {

/// The most bytes of the stream that one frame carries.
pub const CHUNK_LENGTH: usize = 7;

/// The number of frames that a stream of `length` bytes takes.
pub open spec fn frame_count(length: nat) -> nat {
    if length == 0 {
        1
    } else {
        ((length + 6) / 7) as nat
    }
}

/// The bytes of the stream that the frame at position `index` carries.
pub open spec fn chunk_of(bytes: Seq<u8>, index: int) -> Seq<u8> {
    bytes.subrange(
        7 * index,
        if 7 * index + 7 <= bytes.len() {
            7 * index + 7
        } else {
            bytes.len() as int
        },
    )
}

/// Whether `frame` is the slice at position `index` of the transfer `key`
/// with the stream `bytes`: it has the transfer's identity, the index
/// modulo 32, the end-of-transfer flag exactly if it is the last slice, and
/// as payload its chunk and the tail byte.
pub open spec fn slice_at(
    frame: CanFrame,
    index: int,
    key: FullTransferID,
    bytes: Seq<u8>,
) -> bool {
    &&& frame.id() == key.frame_id().at((index % 32) as u8, index + 1 == frame_count(bytes.len()))
    &&& frame.payload() == chunk_of(bytes, index).push(key.transfer_sequence())
}

/// Whether `frames` are the slices of the transfer `key` with the stream
/// `bytes`, in order.
pub open spec fn slices(frames: Seq<CanFrame>, key: FullTransferID, bytes: Seq<u8>) -> bool {
    &&& frames.len() == frame_count(bytes.len())
    &&& forall|i: int| 0 <= i < frames.len() ==> slice_at(#[trigger] frames[i], i, key, bytes)
}

/// Slices the byte stream of the transfer `key` into frames.
pub fn slice_transfer(key: FullTransferID, bytes: &[u8]) -> (frames: Vec<CanFrame>)
    ensures
        slices(frames@, key, bytes@),
        forall|i: int| 0 <= i < frames@.len() ==> (#[trigger] frames@[i]).zero_padded(),
{
    let n = bytes.len();
    let count: usize = if n == 0 {
        1
    } else {
        (n - 1) / 7 + 1
    };
    let sequence = key.transfer_sequence();
    let identity = key.frame_id();
    let mut frames: Vec<CanFrame> = Vec::new();
    let mut i: usize = 0;
    while i < count
        invariant
            n == bytes@.len(),
            count == frame_count(n as nat),
            n > 0 ==> count == (n - 1) / 7 + 1,
            i <= count,
            frames@.len() == i,
            sequence == key.transfer_sequence(),
            identity == key.frame_id(),
            forall|j: int| 0 <= j < i ==> slice_at(#[trigger] frames@[j], j, key, bytes@),
            forall|j: int| 0 <= j < i ==> (#[trigger] frames@[j]).zero_padded(),
        decreases count - i,
    {
        let start: usize = i * 7;
        let end: usize = if n - start > 7 {
            start + 7
        } else {
            n
        };
        let mut payload: Vec<u8> = Vec::new();
        let mut k: usize = start;
        while k < end
            invariant
                n == bytes@.len(),
                start <= k <= end <= n,
                end - start <= 7,
                payload@ == bytes@.subrange(start as int, k as int),
            decreases end - k,
        {
            payload.push(bytes[k]);
            assert(bytes@.subrange(start as int, k as int).push(bytes@[k as int])
                =~= bytes@.subrange(start as int, k as int + 1));
            k += 1;
        }
        payload.push(sequence);
        let index: u8 = (i % 32) as u8;
        let id = identity.at(index, i + 1 == count);
        let frame = CanFrame::with_data(id, payload.as_slice());
        frames.push(frame);
        i += 1;
    }
    frames
}

/// Whether `bus_frame` carries the slice at position `index` of the
/// transfer `key` with the stream `bytes`, as a data frame.
pub open spec fn wire_slice_at(
    bus_frame: socketcan::CANFrame,
    index: int,
    key: FullTransferID,
    bytes: Seq<u8>,
) -> bool {
    &&& native_id(bus_frame) == key.frame_id().at(
        (index % 32) as u8,
        index + 1 == frame_count(bytes.len()),
    )@
    &&& native_data(bus_frame) == chunk_of(bytes, index).push(key.transfer_sequence())
    &&& !native_is_rtr(bus_frame)
    &&& !native_is_error(bus_frame)
    &&& native_is_extended(bus_frame) == (native_id(bus_frame) > 0x7FF)
}

/// Whether `bus_frames` carry the slices of the transfer `key` with the
/// stream `bytes`, in order.
pub open spec fn wire_slices(
    bus_frames: Seq<socketcan::CANFrame>,
    key: FullTransferID,
    bytes: Seq<u8>,
) -> bool {
    &&& bus_frames.len() == frame_count(bytes.len())
    &&& forall|i: int|
        0 <= i < bus_frames.len() ==> wire_slice_at(#[trigger] bus_frames[i], i, key, bytes)
}

/// Slices the byte stream of the transfer `key` into frames and encodes
/// them for the bus.
pub fn encode_transfer(key: FullTransferID, bytes: &[u8]) -> (bus_frames: Vec<socketcan::CANFrame>)
    ensures
        wire_slices(bus_frames@, key, bytes@),
{
    let frames = slice_transfer(key, bytes);
    let n = frames.len();
    let mut bus_frames: Vec<socketcan::CANFrame> = Vec::new();
    let mut i: usize = 0;
    while i < n
        invariant
            n == frames@.len(),
            slices(frames@, key, bytes@),
            i <= n,
            bus_frames@.len() == i,
            forall|j: int| 0 <= j < i ==> wire_slice_at(#[trigger] bus_frames@[j], j, key, bytes@),
        decreases n - i,
    {
        let frame = frames[i];
        assert(slice_at(frames@[i as int], i as int, key, bytes@));
        bus_frames.push(socketcan::CANFrame::from(frame));
        i += 1;
    }
    bus_frames
}

/// Bus frames that carry the slices of a transfer decode to slices of it.
pub proof fn lemma_decoded_slices(
    bus_frames: Seq<socketcan::CANFrame>,
    frames: Seq<CanFrame>,
    key: FullTransferID,
    bytes: Seq<u8>,
)
    requires
        key.inv(),
        wire_slices(bus_frames, key, bytes),
        frames.len() == bus_frames.len(),
        forall|i: int| 0 <= i < frames.len() ==> #[trigger] frames[i] == decoded(bus_frames[i]),
    ensures
        slices(frames, key, bytes),
{
    lemma_key_fields(key);
    assert forall|i: int| 0 <= i < frames.len() implies slice_at(
        #[trigger] frames[i],
        i,
        key,
        bytes,
    ) by {
        let bus_frame = bus_frames[i];
        assert(wire_slice_at(bus_frame, i, key, bytes));
        let id = key.frame_id().at((i % 32) as u8, i + 1 == frame_count(bytes.len()));
        lemma_mask_and_at(key.frame_id(), (i % 32) as u8, i + 1 == frame_count(bytes.len()));
        lemma_frame_id_by_value(id, id);
        lemma_decoded(bus_frame);
        lemma_frame_id_by_value(frames[i].id(), id);
    }
}

/// The slices of a transfer all belong to its key, come without a gap from
/// index 0 on, carry the end-of-transfer flag on the last frame and nowhere
/// else, and carry the stream: their chunks, one after the other, are the
/// bytes that were sliced.
pub proof fn lemma_slices(frames: Seq<CanFrame>, key: FullTransferID, bytes: Seq<u8>)
    requires
        key.inv(),
        slices(frames, key, bytes),
    ensures
        forall|i: int| 0 <= i < frames.len() ==> (#[trigger] frames[i]).full_id() == key,
        forall|i: int|
            0 <= i < frames.len() ==> (#[trigger] frames[i]).is_end_frame() == (i + 1
                == frames.len()),
        intact(frames),
        complete(frames),
        stream(frames) == bytes,
{
    lemma_key_fields(key);
    let identity = key.frame_id();
    let sequence = key.transfer_sequence();
    assert forall|i: int| 0 <= i < frames.len() implies (#[trigger] frames[i]).full_id() == key
        && frames[i].is_end_frame() == (i + 1 == frames.len()) && frames[i].id().frame_index() == i
        % 32 by {
        let frame = frames[i];
        assert(slice_at(frame, i, key, bytes));
        let last = i + 1 == frame_count(bytes.len());
        lemma_mask_and_at(identity, (i % 32) as u8, last);
        assert(frame.payload().last() == sequence);
        assert(frame.transfer_sequence() == sequence);
        lemma_full_transfer_id_new(frame.id(), sequence);
        lemma_full_transfer_id(frame.full_id(), key);
    }
    assert(consecutive(frames)) by {
        assert forall|i: int| 0 < i < frames.len() implies {
            &&& !(#[trigger] frames[i - 1]).is_end_frame()
            &&& frames[i].id().frame_index() == (frames[i - 1].id().frame_index() + 1) % 32
        } by {
            let _ = frames[i];
        }
    }
    let n = frames.len() as int;
    assert(frames[n - 1].is_end_frame());
    lemma_stream_of_slices(frames, key, bytes, n);
    assert(frames.take(n) =~= frames);
    assert(7 * n >= bytes.len());
    assert(bytes.subrange(0, bytes.len() as int) =~= bytes);
}

/// The first `count` slices carry the first `7 * count` bytes of the
/// stream, or all of it where it is shorter.
proof fn lemma_stream_of_slices(
    frames: Seq<CanFrame>,
    key: FullTransferID,
    bytes: Seq<u8>,
    count: int,
)
    requires
        slices(frames, key, bytes),
        0 <= count <= frames.len(),
    ensures
        stream(frames.take(count)) == bytes.subrange(
            0,
            if 7 * count <= bytes.len() {
                7 * count
            } else {
                bytes.len() as int
            },
        ),
    decreases count,
{
    let upto = frames.take(count);
    if count == 0 {
        assert(stream(upto) =~= bytes.subrange(0, 0));
    } else {
        lemma_stream_of_slices(frames, key, bytes, count - 1);
        assert(upto.drop_last() =~= frames.take(count - 1));
        let frame = frames[count - 1];
        assert(upto.last() == frame);
        assert(slice_at(frame, count - 1, key, bytes));
        let chunk = chunk_of(bytes, count - 1);
        assert(frame.payload().drop_last() =~= chunk);
        assert(frame.chunk() == chunk);
        let done = 7 * (count - 1);
        assert(done <= bytes.len());
        let end = if 7 * count <= bytes.len() {
            7 * count
        } else {
            bytes.len() as int
        };
        assert(bytes.subrange(0, done) + chunk =~= bytes.subrange(0, end));
    }
}

/// Round trip: when the slices of a transfer come in their order to a map
/// that does not hold the transfer and has room for it, the map holds
/// exactly these frames under the transfer's key, the transfer is complete,
/// and the frames carry the bytes that were sliced.
pub proof fn lemma_round_trip(
    entries: Seq<Transfer>,
    limits: Limits,
    key: FullTransferID,
    bytes: Seq<u8>,
    frames: Seq<CanFrame>,
)
    requires
        well_formed(entries, limits),
        key.inv(),
        slices(frames, key, bytes),
        !holds(entries, key),
        frames.len() <= limits.max_frames,
        limits.max_transfers > 0,
    ensures
        well_formed(inserted_all(entries, frames, limits), limits),
        holds(inserted_all(entries, frames, limits), key),
        frames_of(inserted_all(entries, frames, limits), key) == frames,
        complete(frames_of(inserted_all(entries, frames, limits), key)),
        stream(frames_of(inserted_all(entries, frames, limits), key)) == bytes,
{
    lemma_slices(frames, key, bytes);
    assert(frames_of(entries, key) + frames =~= frames);
    assert(admits(entries, key, frames, limits));
    lemma_insert_one_transfer(entries, key, frames, limits);
}

/// Round trip over the bus: when the bus frames of an encoded transfer
/// are decoded and come in their order to a map that does not hold the
/// transfer and has room for it, the map gathers a complete transfer under
/// its key whose frames carry the bytes that were encoded.
pub proof fn lemma_round_trip_over_bus(
    entries: Seq<Transfer>,
    limits: Limits,
    key: FullTransferID,
    bytes: Seq<u8>,
    bus_frames: Seq<socketcan::CANFrame>,
)
    requires
        well_formed(entries, limits),
        key.inv(),
        wire_slices(bus_frames, key, bytes),
        !holds(entries, key),
        bus_frames.len() <= limits.max_frames,
        limits.max_transfers > 0,
    ensures
        ({
            let frames = bus_frames.map_values(|bus_frame: socketcan::CANFrame| decoded(bus_frame));
            let after = inserted_all(entries, frames, limits);
            &&& well_formed(after, limits)
            &&& holds(after, key)
            &&& frames_of(after, key) == frames
            &&& complete(frames_of(after, key))
            &&& stream(frames_of(after, key)) == bytes
        }),
{
    let frames = bus_frames.map_values(|bus_frame: socketcan::CANFrame| decoded(bus_frame));
    lemma_decoded_slices(bus_frames, frames, key, bytes);
    lemma_round_trip(entries, limits, key, bytes, frames);
}

} // verus!
