//! The frame codec: conversion between the bus's own frame representation
//! and the internal frame type.

use crate::frame::{lemma_frame_bounds, lemma_with_data, CanFrame, MAX_DATA_LENGTH};
use crate::identifier::{lemma_frame_id_by_value, lemma_frame_id_new, FrameID, ID_MASK};
use vstd::prelude::*;

verus! {

/// `socketcan::CANFrame`, the frame as the bus socket reads and writes it.
/// Its contents are known through `native_id` and `native_data` only.
#[verifier::external_type_specification]
#[verifier::external_body]
pub struct ExCANFrame(socketcan::CANFrame);

/// `socketcan::ConstructionError`, the reason why `socketcan::CANFrame::new`
/// refused its arguments.
#[verifier::external_type_specification]
#[verifier::external_body]
pub struct ExConstructionError(socketcan::ConstructionError);

/// The identifier that a bus frame carries, without its flag bits: what
/// `socketcan::CANFrame::id` returns.
pub uninterp spec fn native_id(bus_frame: socketcan::CANFrame) -> u32;

/// The payload that a bus frame carries: what `socketcan::CANFrame::data`
/// returns.
pub uninterp spec fn native_data(bus_frame: socketcan::CANFrame) -> Seq<u8>;

/// Whether a bus frame is a remote transmission request: what
/// `socketcan::CANFrame::is_rtr` returns.
pub uninterp spec fn native_is_rtr(bus_frame: socketcan::CANFrame) -> bool;

/// Whether a bus frame is an error frame: what
/// `socketcan::CANFrame::is_error` returns.
pub uninterp spec fn native_is_error(bus_frame: socketcan::CANFrame) -> bool;

/// Whether a bus frame has the extended format with 29 identifier bits:
/// what `socketcan::CANFrame::is_extended` returns.
pub uninterp spec fn native_is_extended(bus_frame: socketcan::CANFrame) -> bool;

/// `socketcan::CANFrame::id` masks the stored identifier with the extended
/// or the standard identifier mask, so the result fits in 29 bits.
pub assume_specification[ socketcan::CANFrame::id ](bus_frame: &socketcan::CANFrame) -> (id: u32)
    ensures
        id == native_id(*bus_frame),
        id <= 0x1FFF_FFFF,
;

/// `socketcan::CANFrame::data` returns the first bytes of the frame's
/// buffer of eight, as many as the frame's data length says. Its
/// documentation promises a slice of at most eight bytes: `new` makes no
/// frame with a greater data length, and the kernel hands none to a socket
/// of this kind.
pub assume_specification<'a>[ socketcan::CANFrame::data ](
    bus_frame: &'a socketcan::CANFrame,
) -> (data: &'a [u8])
    ensures
        data@ == native_data(*bus_frame),
        data@.len() <= 8,
;

/// `socketcan::CANFrame::new` refuses more than eight bytes of data and an
/// identifier above 29 bits, and nothing else. The frame it makes gives the
/// identifier and the data back, whatever the two flags are. It is a
/// remote transmission request or an error frame exactly as the two flags
/// say, and it has the extended format exactly if the identifier does not
/// fit in 11 bits.
pub assume_specification[ socketcan::CANFrame::new ](
    id: u32,
    data: &[u8],
    rtr: bool,
    err: bool,
) -> (made: Result<socketcan::CANFrame, socketcan::ConstructionError>)
    ensures
        made.is_ok() == (data@.len() <= 8 && id <= 0x1FFF_FFFF),
        made matches Ok(bus_frame) ==> native_id(bus_frame) == id && native_data(bus_frame)
            == data@,
        made matches Ok(bus_frame) ==> native_is_rtr(bus_frame) == rtr && native_is_error(
            bus_frame,
        ) == err && native_is_extended(bus_frame) == (id > 0x7FF),
;

/// Whether `bus_frame` is the encoding of `frame`: a data frame with the
/// identifier and the payload of `frame`, in the standard format where the
/// identifier fits in 11 bits and in the extended format where it does not.
pub open spec fn encodes(bus_frame: socketcan::CANFrame, frame: CanFrame) -> bool {
    &&& native_id(bus_frame) == frame.id()@
    &&& native_data(bus_frame) == frame.payload()
    &&& !native_is_rtr(bus_frame)
    &&& !native_is_error(bus_frame)
    &&& native_is_extended(bus_frame) == (frame.id()@ > 0x7FF)
}

/// The frame that a bus frame decodes to: same identifier, same payload,
/// zeros in the buffer behind the payload. The flags of the bus frame are
/// dropped.
pub open spec fn decoded(bus_frame: socketcan::CANFrame) -> CanFrame {
    CanFrame::spec_with_data(FrameID::new(native_id(bus_frame)), native_data(bus_frame))
}

impl From<socketcan::CANFrame> for CanFrame {
    /// Decodes a bus frame.
    fn from(bus_frame: socketcan::CANFrame) -> (frame: CanFrame)
        ensures
            frame == decoded(bus_frame),
            frame.inv(),
            frame.id()@ == native_id(bus_frame),
            frame.payload() == native_data(bus_frame),
    {
        let id = FrameID::new(bus_frame.id());
        CanFrame::with_data(id, bus_frame.data())
    }
}

impl vstd::std_specs::convert::FromSpecImpl<socketcan::CANFrame> for CanFrame {
    open spec fn obeys_from_spec() -> bool {
        true
    }

    open spec fn from_spec(bus_frame: socketcan::CANFrame) -> CanFrame {
        decoded(bus_frame)
    }
}

impl From<CanFrame> for socketcan::CANFrame {
    /// Encodes a frame for the bus: same identifier, same payload, neither
    /// a remote request nor an error frame.
    fn from(frame: CanFrame) -> (bus_frame: socketcan::CANFrame)
        ensures
            encodes(bus_frame, frame),
    {
        let id = frame.id().value();
        match socketcan::CANFrame::new(id, frame.data(), false, false) {
            Ok(bus_frame) => bus_frame,
            Err(_) => unreached(),
        }
    }
}

/// A bus frame is known by its identifier and its payload only, so no
/// closed form says which frame the encoding gives: `from` states what the
/// frame carries.
impl vstd::std_specs::convert::FromSpecImpl<CanFrame> for socketcan::CANFrame {
    open spec fn obeys_from_spec() -> bool {
        false
    }

    open spec fn from_spec(frame: CanFrame) -> socketcan::CANFrame {
        arbitrary()
    }
}

/// A bus frame with an identifier of up to 29 bits and up to eight bytes of
/// payload decodes to a valid frame with that identifier and that payload.
pub proof fn lemma_decoded(bus_frame: socketcan::CANFrame)
    requires
        native_id(bus_frame) <= ID_MASK,
        native_data(bus_frame).len() <= MAX_DATA_LENGTH,
    ensures
        decoded(bus_frame).inv(),
        decoded(bus_frame).id()@ == native_id(bus_frame),
        decoded(bus_frame).payload() == native_data(bus_frame),
{
    let id = FrameID::new(native_id(bus_frame));
    lemma_frame_id_new(native_id(bus_frame));
    lemma_frame_id_by_value(id, id);
    lemma_with_data(id, native_data(bus_frame));
}

/// Decoding what was encoded gives a frame of the same content: a bus frame
/// that carries the identifier and the payload of a valid frame decodes to
/// them.
pub proof fn lemma_codec_round_trip(frame: CanFrame, bus_frame: socketcan::CANFrame)
    requires
        frame.inv(),
        encodes(bus_frame, frame),
    ensures
        decoded(bus_frame).same_content(frame),
{
    lemma_frame_bounds(frame);
    lemma_frame_id_by_value(frame.id(), frame.id());
    lemma_decoded(bus_frame);
}

} // verus!
