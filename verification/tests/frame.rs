use uavcan_socketcan::frame::{CanFrame, MAX_DATA_LENGTH};
use uavcan_socketcan::identifier::{FrameID, FullTransferID};

#[test]
fn new_frame_has_no_payload() {
    let id = FrameID::encode(0, 341, 32, 0, true);
    let frame = CanFrame::new(id);
    assert_eq!(frame.id(), id);
    assert_eq!(frame.data(), &[] as &[u8]);
    assert_eq!(frame.data().len(), 0);
}

#[test]
fn max_data_length_is_eight() {
    assert_eq!(MAX_DATA_LENGTH, 8);
    assert_eq!(CanFrame::MAX_DATA_LENGTH, 8);
}

#[test]
fn with_data_holds_the_bytes() {
    let id = FrameID::new(0x123);
    let frame = CanFrame::with_data(id, &[1, 2, 3, 4]);
    assert_eq!(frame.id(), id);
    assert_eq!(frame.data(), &[1, 2, 3, 4]);
    let full = CanFrame::with_data(id, &[9, 8, 7, 6, 5, 4, 3, 2]);
    assert_eq!(full.data(), &[9, 8, 7, 6, 5, 4, 3, 2]);
    let empty = CanFrame::with_data(id, &[]);
    assert_eq!(empty.data().len(), 0);
    assert_eq!(empty, CanFrame::new(id));
}

#[test]
fn set_data_length_shows_the_buffer() {
    let mut frame = CanFrame::new(FrameID::new(1));
    frame.set_data_length(3);
    assert_eq!(frame.data(), &[0, 0, 0]);
    frame.set_data_length(8);
    assert_eq!(frame.data(), &[0; 8]);
    frame.set_data_length(0);
    assert_eq!(frame.data().len(), 0);
}

#[test]
fn set_data_length_keeps_the_bytes() {
    let mut frame = CanFrame::with_data(FrameID::new(1), &[1, 2, 3, 4]);
    frame.set_data_length(2);
    assert_eq!(frame.data(), &[1, 2]);
    frame.set_data_length(4);
    assert_eq!(frame.data(), &[1, 2, 3, 4]);
    assert_eq!(frame.id(), FrameID::new(1));
}

#[test]
fn data_as_mut_writes_the_payload() {
    let mut frame = CanFrame::new(FrameID::new(1));
    frame.set_data_length(4);
    frame.data_as_mut().copy_from_slice(&[1, 2, 3, 4]);
    assert_eq!(frame.data(), &[1, 2, 3, 4]);
    assert_eq!(frame.data_as_mut().len(), 4);
    frame.data_as_mut()[2] = 30;
    assert_eq!(frame.data(), &[1, 2, 30, 4]);
    assert_eq!(frame, CanFrame::with_data(FrameID::new(1), &[1, 2, 30, 4]));
}

#[test]
fn set_data_replaces_the_payload() {
    let mut frame = CanFrame::with_data(FrameID::new(1), &[1, 2, 3, 4, 5, 6]);
    frame.set_data(&[7, 8]);
    assert_eq!(frame.data(), &[7, 8]);
    frame.set_data(&[]);
    assert_eq!(frame.data().len(), 0);
    frame.set_data(&[1, 2, 3, 4, 5, 6, 7, 8]);
    assert_eq!(frame.data(), &[1, 2, 3, 4, 5, 6, 7, 8]);
}

#[test]
fn transfer_sequence_is_in_the_tail_byte() {
    let id = FrameID::new(1);
    assert_eq!(CanFrame::with_data(id, &[1, 2, 3, 4]).transfer_sequence(), 4);
    assert_eq!(CanFrame::with_data(id, &[31]).transfer_sequence(), 31);
    assert_eq!(CanFrame::with_data(id, &[9, 32]).transfer_sequence(), 0);
    assert_eq!(CanFrame::with_data(id, &[9, 0xE5]).transfer_sequence(), 5);
    assert_eq!(CanFrame::new(id).transfer_sequence(), 0);
}

#[test]
fn full_id_joins_identity_and_sequence() {
    let id = FrameID::encode(0, 341, 32, 3, true);
    let frame = CanFrame::with_data(id, &[1, 2, 3, 4]);
    let key = frame.full_id();
    assert_eq!(key, FullTransferID::new(id, 4));
    assert_eq!(key.frame_id(), id.mask());
    assert_eq!(key.transfer_sequence(), 4);
    let sibling = CanFrame::with_data(FrameID::encode(0, 341, 32, 4, false), &[7, 7, 4]);
    assert_eq!(sibling.full_id(), key);
    let later = CanFrame::with_data(id, &[1, 2, 3, 5]);
    assert_ne!(later.full_id(), key);
}

#[test]
fn end_flag_is_read_from_the_identifier() {
    assert!(CanFrame::new(FrameID::encode(0, 341, 32, 0, true)).is_end_frame());
    assert!(!CanFrame::new(FrameID::encode(0, 341, 32, 0, false)).is_end_frame());
}

#[test]
fn frames_are_copied_by_value() {
    let frame = CanFrame::with_data(FrameID::new(5), &[1, 2, 3]);
    let mut copy = frame;
    copy.set_data(&[9]);
    assert_eq!(frame.data(), &[1, 2, 3]);
    assert_eq!(copy.data(), &[9]);
    assert_ne!(frame, copy);
}
