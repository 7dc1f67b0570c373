use uavcan_socketcan::identifier::{
    Filter, FrameID, FullTransferID, ID_MASK, MAX_FRAME_INDEX, MAX_PRIORITY, MAX_SEQUENCE,
    MAX_SOURCE, MAX_TRANSFER_TYPE, TRANSFER_MASK,
};

#[test]
fn encode_places_each_field() {
    let id = FrameID::encode(0, 341, 32, 0, true);
    assert_eq!(id.value(), 0x002A_A801);
    assert_eq!(id.value(), (341 << 13) | (32 << 6) | 1);
    assert_eq!(FrameID::encode(1, 0, 0, 0, false).value(), 1 << 24);
    assert_eq!(FrameID::encode(0, 1, 0, 0, false).value(), 1 << 13);
    assert_eq!(FrameID::encode(0, 0, 1, 0, false).value(), 1 << 6);
    assert_eq!(FrameID::encode(0, 0, 0, 1, false).value(), 1 << 1);
    assert_eq!(FrameID::encode(0, 0, 0, 0, true).value(), 1);
    assert_eq!(FrameID::encode(0, 0, 0, 0, false).value(), 0);
}

#[test]
fn encode_of_largest_fields_fills_the_identifier() {
    let id = FrameID::encode(
        MAX_PRIORITY,
        MAX_TRANSFER_TYPE,
        MAX_SOURCE,
        MAX_FRAME_INDEX,
        true,
    );
    assert_eq!(id.value(), ID_MASK);
    assert_eq!(id.value(), 0x1FFF_FFFF);
}

#[test]
fn fields_read_back_as_written() {
    let id = FrameID::encode(17, 1234, 99, 21, false);
    assert_eq!(id.priority(), 17);
    assert_eq!(id.transfer_type(), 1234);
    assert_eq!(id.source(), 99);
    assert_eq!(id.frame_index(), 21);
    assert!(!id.is_end());
    let id = FrameID::encode(0, 341, 32, 0, true);
    assert_eq!(id.priority(), 0);
    assert_eq!(id.transfer_type(), 341);
    assert_eq!(id.source(), 32);
    assert_eq!(id.frame_index(), 0);
    assert!(id.is_end());
}

#[test]
fn encode_of_decoded_fields_gives_the_identifier_back() {
    for raw in [0u32, 1, 0x2A_A801, 0x1234_5678 & ID_MASK, 0x0FED_CBA9, ID_MASK] {
        let id = FrameID::new(raw);
        let again = FrameID::encode(
            id.priority(),
            id.transfer_type(),
            id.source(),
            id.frame_index(),
            id.is_end(),
        );
        assert_eq!(again, id);
        assert_eq!(again.value(), raw);
    }
}

#[test]
fn mask_strips_index_and_end_flag() {
    let id = FrameID::encode(3, 341, 32, 9, true);
    let masked = id.mask();
    assert_eq!(masked.value(), id.value() & TRANSFER_MASK);
    assert_eq!(masked.value(), (3 << 24) | (341 << 13) | (32 << 6));
    assert_eq!(masked.priority(), 3);
    assert_eq!(masked.transfer_type(), 341);
    assert_eq!(masked.source(), 32);
    assert_eq!(masked.frame_index(), 0);
    assert!(!masked.is_end());
    assert_eq!(masked.mask(), masked);
}

#[test]
fn frames_of_one_transfer_share_the_mask() {
    let first = FrameID::encode(3, 341, 32, 0, false);
    let last = FrameID::encode(3, 341, 32, 5, true);
    let other_source = FrameID::encode(3, 341, 33, 0, false);
    let other_type = FrameID::encode(3, 342, 32, 0, false);
    let other_priority = FrameID::encode(4, 341, 32, 0, false);
    assert_eq!(first.mask(), last.mask());
    assert_ne!(first.mask(), other_source.mask());
    assert_ne!(first.mask(), other_type.mask());
    assert_ne!(first.mask(), other_priority.mask());
}

#[test]
fn at_replaces_index_and_end_flag() {
    let id = FrameID::encode(3, 341, 32, 9, true);
    let moved = id.at(4, false);
    assert_eq!(moved, FrameID::encode(3, 341, 32, 4, false));
    assert_eq!(moved.mask(), id.mask());
    assert_eq!(id.at(id.frame_index(), id.is_end()), id);
}

#[test]
fn identifiers_order_by_raw_value() {
    let urgent = FrameID::encode(0, 341, 32, 0, false);
    let relaxed = FrameID::encode(1, 0, 0, 0, false);
    assert!(urgent < relaxed);
    assert!(FrameID::new(5) < FrameID::new(6));
    assert_eq!(FrameID::new(5), FrameID::new(5));
}

#[test]
fn key_drops_index_and_end_flag() {
    let first = FrameID::encode(3, 341, 32, 0, false);
    let last = FrameID::encode(3, 341, 32, 5, true);
    let key = FullTransferID::new(first, 7);
    assert_eq!(key, FullTransferID::new(last, 7));
    assert_eq!(key.frame_id(), first.mask());
    assert_eq!(key.transfer_sequence(), 7);
    assert_ne!(key, FullTransferID::new(first, 8));
}

#[test]
fn key_takes_the_sequence_modulo_32() {
    let id = FrameID::encode(3, 341, 32, 0, false);
    assert_eq!(FullTransferID::new(id, 32).transfer_sequence(), 0);
    assert_eq!(FullTransferID::new(id, 33).transfer_sequence(), 1);
    assert_eq!(FullTransferID::new(id, 255).transfer_sequence(), 31);
    assert_eq!(FullTransferID::new(id, 31).transfer_sequence(), MAX_SEQUENCE);
    assert_eq!(FullTransferID::new(id, 32 + 5), FullTransferID::new(id, 5));
}

#[test]
fn sequence_wraps_from_31_to_0() {
    let id = FrameID::encode(3, 341, 32, 0, false);
    let mut key = FullTransferID::new(id, 30);
    key = key.next();
    assert_eq!(key.transfer_sequence(), 31);
    key = key.next();
    assert_eq!(key.transfer_sequence(), 0);
    assert_eq!(key.frame_id(), id.mask());
    key = key.next();
    assert_eq!(key.transfer_sequence(), 1);
    let mut round = FullTransferID::new(id, 12);
    for _ in 0..32 {
        round = round.next();
    }
    assert_eq!(round, FullTransferID::new(id, 12));
}

#[test]
fn key_mask_keeps_the_bits_of_the_mask() {
    let key = FullTransferID::new(FrameID::encode(3, 341, 32, 0, false), 0b10110);
    let mask = FullTransferID::new(FrameID::encode(0, MAX_TRANSFER_TYPE, 0, 0, false), 0b00111);
    let masked = key.mask(mask);
    assert_eq!(masked.frame_id().value(), 341 << 13);
    assert_eq!(masked.transfer_sequence(), 0b00110);
}

#[test]
fn key_matches_under_wildcards() {
    let any_source_any_sequence =
        FullTransferID::new(FrameID::encode(MAX_PRIORITY, MAX_TRANSFER_TYPE, 0, 0, false), 0);
    let pattern = FullTransferID::new(FrameID::encode(3, 341, 0, 0, false), 0);
    let from_32 = FullTransferID::new(FrameID::encode(3, 341, 32, 0, false), 4);
    let from_99 = FullTransferID::new(FrameID::encode(3, 341, 99, 7, true), 30);
    let other_type = FullTransferID::new(FrameID::encode(3, 342, 32, 0, false), 4);
    assert!(from_32.matches(pattern, any_source_any_sequence));
    assert!(from_99.matches(pattern, any_source_any_sequence));
    assert!(!other_type.matches(pattern, any_source_any_sequence));
    let everything = FullTransferID::new(FrameID::new(ID_MASK), MAX_SEQUENCE);
    assert!(from_32.matches(from_32, everything));
    assert!(!from_32.matches(from_99, everything));
    let nothing = FullTransferID::new(FrameID::new(0), 0);
    assert!(from_32.matches(other_type, nothing));
}

#[test]
fn filter_matches_on_masked_bits() {
    let filter = Filter::new(FrameID::new(0b1010_0000), FrameID::new(0b1111_0000));
    assert!(filter.is_match(FrameID::new(0b1010_0000)));
    assert!(filter.is_match(FrameID::new(0b1010_1111)));
    assert!(!filter.is_match(FrameID::new(0b1011_0000)));
    assert!(!filter.is_match(FrameID::new(0b0010_0000)));
    assert_eq!(filter.mask, FrameID::new(0b1111_0000));
    assert_eq!(filter.value, FrameID::new(0b1010_0000));
}

#[test]
fn filter_ignores_value_bits_outside_the_mask() {
    let filter = Filter::new(FrameID::new(0b1010_0101), FrameID::new(0b1111_0000));
    assert!(filter.is_match(FrameID::new(0b1010_0000)));
    assert!(filter.is_match(FrameID::new(0b1010_1010)));
    assert!(!filter.is_match(FrameID::new(0b0101_0101)));
}

#[test]
fn filter_with_empty_mask_matches_everything() {
    let filter = Filter::new(FrameID::new(0x123), FrameID::new(0));
    assert!(filter.is_match(FrameID::new(0)));
    assert!(filter.is_match(FrameID::new(ID_MASK)));
}

#[test]
fn filter_with_full_mask_matches_one_identifier() {
    let id = FrameID::encode(0, 341, 32, 0, true);
    let filter = Filter::new(id, FrameID::new(ID_MASK));
    assert!(filter.is_match(id));
    assert!(!filter.is_match(FrameID::new(id.value() ^ 1)));
    assert!(!filter.is_match(FrameID::new(id.value() ^ (1 << 28))));
}
