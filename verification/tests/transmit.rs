use uavcan_socketcan::frame::CanFrame;
use uavcan_socketcan::identifier::{FrameID, FullTransferID};
use uavcan_socketcan::reassembly::{InsertOutcome, Limits, ReassemblyMap};
use uavcan_socketcan::transmit::{encode_transfer, slice_transfer, CHUNK_LENGTH};

fn key(sequence: u8) -> FullTransferID {
    FullTransferID::new(FrameID::encode(4, 341, 32, 0, false), sequence)
}

#[test]
fn chunk_length_leaves_room_for_the_tail_byte() {
    assert_eq!(CHUNK_LENGTH, 7);
    assert_eq!(CHUNK_LENGTH + 1, CanFrame::MAX_DATA_LENGTH);
}

#[test]
fn empty_transfer_is_one_frame_with_the_tail_byte() {
    let frames = slice_transfer(key(5), &[]);
    assert_eq!(frames, vec![CanFrame::with_data(FrameID::encode(4, 341, 32, 0, true), &[5])]);
}

#[test]
fn short_transfer_is_one_frame() {
    let frames = slice_transfer(key(5), &[1, 2, 3]);
    assert_eq!(
        frames,
        vec![CanFrame::with_data(FrameID::encode(4, 341, 32, 0, true), &[1, 2, 3, 5])]
    );
    let frames = slice_transfer(key(31), &[1, 2, 3, 4, 5, 6, 7]);
    assert_eq!(
        frames,
        vec![CanFrame::with_data(
            FrameID::encode(4, 341, 32, 0, true),
            &[1, 2, 3, 4, 5, 6, 7, 31]
        )]
    );
}

#[test]
fn long_transfer_is_sliced_in_sevens() {
    let bytes: Vec<u8> = (1..=16).collect();
    let frames = slice_transfer(key(9), &bytes);
    assert_eq!(
        frames,
        vec![
            CanFrame::with_data(FrameID::encode(4, 341, 32, 0, false), &[1, 2, 3, 4, 5, 6, 7, 9]),
            CanFrame::with_data(
                FrameID::encode(4, 341, 32, 1, false),
                &[8, 9, 10, 11, 12, 13, 14, 9]
            ),
            CanFrame::with_data(FrameID::encode(4, 341, 32, 2, true), &[15, 16, 9]),
        ]
    );
    let frames = slice_transfer(key(9), &bytes[..14]);
    assert_eq!(frames.len(), 2);
    assert!(frames[1].is_end_frame());
    assert_eq!(frames[1].data(), &[8, 9, 10, 11, 12, 13, 14, 9]);
    assert_eq!(slice_transfer(key(9), &bytes[..8]).len(), 2);
    assert_eq!(slice_transfer(key(9), &bytes[..15]).len(), 3);
}

#[test]
fn slices_belong_to_the_transfer() {
    let bytes: Vec<u8> = (0..100).collect();
    let frames = slice_transfer(key(17), &bytes);
    assert_eq!(frames.len(), 15);
    for (i, frame) in frames.iter().enumerate() {
        assert_eq!(frame.full_id(), key(17));
        assert_eq!(frame.id().frame_index() as usize, i);
        assert_eq!(frame.is_end_frame(), i == 14);
        assert_eq!(frame.transfer_sequence(), 17);
    }
}

#[test]
fn frame_index_wraps_in_long_transfers() {
    let bytes: Vec<u8> = (0..250).collect();
    let frames = slice_transfer(key(1), &bytes);
    assert_eq!(frames.len(), 36);
    assert_eq!(frames[31].id().frame_index(), 31);
    assert_eq!(frames[32].id().frame_index(), 0);
    assert_eq!(frames[35].id().frame_index(), 3);
    assert!(frames[35].is_end_frame());
    assert!(!frames[32].is_end_frame());
}

#[test]
fn encoded_transfer_carries_the_slices() {
    let bytes: Vec<u8> = (1..=16).collect();
    let frames = slice_transfer(key(9), &bytes);
    let bus_frames = encode_transfer(key(9), &bytes);
    assert_eq!(bus_frames.len(), frames.len());
    for (bus_frame, frame) in bus_frames.iter().zip(frames.iter()) {
        assert_eq!(bus_frame.id(), frame.id().value());
        assert_eq!(bus_frame.data(), frame.data());
        assert_eq!(CanFrame::from(*bus_frame), *frame);
    }
    assert_eq!(bus_frames[2].id(), FrameID::encode(4, 341, 32, 2, true).value());
    assert_eq!(bus_frames[2].data(), &[15, 16, 9]);
}

#[test]
fn sliced_transfer_reassembles_to_its_bytes() {
    for length in [0usize, 1, 6, 7, 8, 13, 14, 15, 49, 100, 250, 700] {
        let bytes: Vec<u8> = (0..length).map(|i| (i * 7 + 3) as u8).collect();
        for strict in [false, true] {
            let mut map = ReassemblyMap::new(Limits { max_transfers: 2, max_frames: 128, strict });
            let bus_frames = encode_transfer(key(21), &bytes);
            for (i, bus_frame) in bus_frames.iter().enumerate() {
                assert!(!map.is_complete(key(21)));
                let outcome = map.insert(CanFrame::from(*bus_frame));
                assert_eq!(
                    outcome,
                    if i == 0 { InsertOutcome::Started } else { InsertOutcome::Appended }
                );
            }
            assert!(map.is_complete(key(21)));
            assert!(map.is_intact(key(21)));
            let buffer = map.drain(key(21));
            assert_eq!(buffer.len(), bus_frames.len());
            assert_eq!(buffer.to_bytes(), bytes);
            assert_eq!(map.len(), 0);
        }
    }
}

#[test]
fn interleaved_transfers_reassemble_apart() {
    let first: Vec<u8> = (0..20).collect();
    let second: Vec<u8> = (100..130).collect();
    let a = slice_transfer(key(1), &first);
    let b = slice_transfer(key(2), &second);
    let mut map = ReassemblyMap::new(Limits { max_transfers: 4, max_frames: 16, strict: true });
    for i in 0..b.len() {
        if i < a.len() {
            map.insert(a[i]);
        }
        map.insert(b[i]);
    }
    assert!(map.is_complete(key(1)));
    assert!(map.is_complete(key(2)));
    assert_eq!(map.drain(key(2)).to_bytes(), second);
    assert_eq!(map.drain(key(1)).to_bytes(), first);
}
