use uavcan_socketcan::frame::CanFrame;
use uavcan_socketcan::identifier::{Filter, FrameID, ID_MASK};
use uavcan_socketcan::registry::Registry;
use uavcan_socketcan::subscriber::SubscriberHandle;

fn exactly(id: FrameID) -> Filter {
    Filter::new(id, FrameID::new(ID_MASK))
}

fn frame(raw: u32, byte: u8) -> CanFrame {
    CanFrame::with_data(FrameID::new(raw), &[byte])
}

#[test]
fn frame_reaches_the_matching_subscriber_only() {
    let id_a = FrameID::encode(0, 341, 32, 0, true);
    let id_b = FrameID::encode(0, 341, 33, 0, true);
    let mut registry = Registry::new(16, 8);
    let a = registry.subscribe(exactly(id_a)).unwrap();
    let b = registry.subscribe(exactly(id_b)).unwrap();
    let sent = CanFrame::with_data(id_a, &[1, 2, 3, 4]);
    assert_eq!(registry.dispatch(sent), 1);
    assert_eq!(registry.pending(&a), 1);
    assert_eq!(registry.pending(&b), 0);
    assert_eq!(registry.receive(&b, id_a), None);
    assert_eq!(registry.receive(&a, id_a), Some(sent));
    assert_eq!(registry.pending(&a), 0);
}

#[test]
fn new_registry_has_no_subscribers() {
    let mut registry = Registry::new(16, 8);
    assert_eq!(registry.len(), 0);
    assert_eq!(registry.queue_limit(), 16);
    assert_eq!(registry.max_subscribers(), 8);
    assert_eq!(registry.dispatch(frame(1, 1)), 0);
}

#[test]
fn tickets_are_numbered_from_zero() {
    let mut registry = Registry::new(16, 8);
    let filter = exactly(FrameID::new(1));
    let a = registry.subscribe(filter).unwrap();
    let b = registry.subscribe(filter).unwrap();
    assert_eq!(a.ticket(), 0);
    assert_eq!(b.ticket(), 1);
    assert!(registry.unsubscribe(a));
    let c = registry.subscribe(filter).unwrap();
    assert_eq!(c.ticket(), 2);
    assert_eq!(registry.len(), 2);
}

#[test]
fn subscribe_fails_when_the_registry_is_full() {
    let mut registry = Registry::new(16, 2);
    let filter = exactly(FrameID::new(1));
    let a = registry.subscribe(filter).unwrap();
    let _b = registry.subscribe(filter).unwrap();
    assert_eq!(registry.subscribe(filter), Err(()));
    assert_eq!(registry.len(), 2);
    assert!(registry.unsubscribe(a));
    assert!(registry.subscribe(filter).is_ok());
    assert_eq!(registry.subscribe(filter), Err(()));
    let mut none = Registry::new(16, 0);
    assert_eq!(none.subscribe(filter), Err(()));
}

#[test]
fn overlapping_filters_each_get_a_copy() {
    let mut registry = Registry::new(16, 8);
    let id = FrameID::encode(0, 341, 32, 0, true);
    let exact = registry.subscribe(exactly(id)).unwrap();
    let same = registry.subscribe(exactly(id)).unwrap();
    let any = registry.subscribe(Filter::new(FrameID::new(0), FrameID::new(0))).unwrap();
    let of_type = registry
        .subscribe(Filter::new(
            FrameID::encode(0, 341, 0, 0, false),
            FrameID::encode(0, 2047, 0, 0, false),
        ))
        .unwrap();
    let other = registry.subscribe(exactly(FrameID::new(7))).unwrap();
    let sent = CanFrame::with_data(id, &[9]);
    assert_eq!(registry.dispatch(sent), 4);
    assert_eq!(registry.pending(&exact), 1);
    assert_eq!(registry.pending(&same), 1);
    assert_eq!(registry.pending(&any), 1);
    assert_eq!(registry.pending(&of_type), 1);
    assert_eq!(registry.pending(&other), 0);
    assert_eq!(registry.receive(&same, id), Some(sent));
    assert_eq!(registry.pending(&exact), 1);
    assert_eq!(registry.receive(&exact, id), Some(sent));
    assert_eq!(registry.receive(&exact, id), None);
}

#[test]
fn frame_that_matches_no_filter_is_delivered_to_nobody() {
    let mut registry = Registry::new(16, 8);
    let a = registry.subscribe(exactly(FrameID::new(1))).unwrap();
    let b = registry.subscribe(exactly(FrameID::new(2))).unwrap();
    assert_eq!(registry.dispatch(frame(3, 0)), 0);
    assert_eq!(registry.pending(&a), 0);
    assert_eq!(registry.pending(&b), 0);
}

#[test]
fn receive_pops_the_oldest_frame_with_the_identifier() {
    let mut registry = Registry::new(16, 8);
    let all = registry.subscribe(Filter::new(FrameID::new(0), FrameID::new(0))).unwrap();
    registry.dispatch(frame(1, 10));
    registry.dispatch(frame(2, 20));
    registry.dispatch(frame(1, 11));
    registry.dispatch(frame(2, 21));
    assert_eq!(registry.pending(&all), 4);
    assert_eq!(registry.receive(&all, FrameID::new(2)), Some(frame(2, 20)));
    assert_eq!(registry.receive(&all, FrameID::new(3)), None);
    assert_eq!(registry.pending(&all), 3);
    assert_eq!(registry.receive(&all, FrameID::new(2)), Some(frame(2, 21)));
    assert_eq!(registry.receive(&all, FrameID::new(2)), None);
    assert_eq!(registry.receive(&all, FrameID::new(1)), Some(frame(1, 10)));
    assert_eq!(registry.receive(&all, FrameID::new(1)), Some(frame(1, 11)));
    assert_eq!(registry.receive(&all, FrameID::new(1)), None);
    assert_eq!(registry.pending(&all), 0);
}

#[test]
fn retain_discards_what_the_predicate_refuses() {
    let mut registry = Registry::new(16, 8);
    let all = registry.subscribe(Filter::new(FrameID::new(0), FrameID::new(0))).unwrap();
    let also = registry.subscribe(Filter::new(FrameID::new(0), FrameID::new(0))).unwrap();
    for i in 0..6u8 {
        registry.dispatch(frame(i as u32, i));
    }
    registry.retain(&all, |frame: &CanFrame| frame.data()[0] % 2 == 0);
    assert_eq!(registry.pending(&all), 3);
    assert_eq!(registry.pending(&also), 6);
    assert_eq!(registry.receive(&all, FrameID::new(1)), None);
    assert_eq!(registry.receive(&all, FrameID::new(0)), Some(frame(0, 0)));
    assert_eq!(registry.receive(&all, FrameID::new(4)), Some(frame(4, 4)));
    assert_eq!(registry.receive(&all, FrameID::new(2)), Some(frame(2, 2)));
    registry.retain(&also, |_: &CanFrame| false);
    assert_eq!(registry.pending(&also), 0);
}

#[test]
fn find_inspects_without_removing() {
    let mut registry = Registry::new(16, 8);
    let all = registry.subscribe(Filter::new(FrameID::new(0), FrameID::new(0))).unwrap();
    registry.dispatch(frame(1, 10));
    registry.dispatch(frame(2, 20));
    registry.dispatch(frame(3, 21));
    let found = registry.find(&all, |frame: &CanFrame| frame.data()[0] >= 20);
    assert_eq!(found, Some(frame(2, 20)));
    assert_eq!(registry.find(&all, |frame: &CanFrame| frame.data()[0] > 30), None);
    assert_eq!(registry.pending(&all), 3);
}

#[test]
fn full_queue_discards_its_oldest_frame() {
    let mut registry = Registry::new(3, 8);
    let all = registry.subscribe(Filter::new(FrameID::new(0), FrameID::new(0))).unwrap();
    for i in 0..5u8 {
        assert_eq!(registry.dispatch(frame(i as u32, i)), 1);
        assert!(registry.pending(&all) <= 3);
    }
    assert_eq!(registry.pending(&all), 3);
    assert_eq!(registry.receive(&all, FrameID::new(0)), None);
    assert_eq!(registry.receive(&all, FrameID::new(1)), None);
    assert_eq!(registry.find(&all, |_: &CanFrame| true), Some(frame(2, 2)));
    assert_eq!(registry.receive(&all, FrameID::new(4)), Some(frame(4, 4)));
}

#[test]
fn queue_without_room_takes_nothing() {
    let mut registry = Registry::new(0, 8);
    let all = registry.subscribe(Filter::new(FrameID::new(0), FrameID::new(0))).unwrap();
    assert_eq!(registry.dispatch(frame(1, 1)), 0);
    assert_eq!(registry.pending(&all), 0);
}

#[test]
fn ended_subscription_receives_nothing() {
    let mut registry = Registry::new(16, 8);
    let filter = Filter::new(FrameID::new(0), FrameID::new(0));
    let a = registry.subscribe(filter).unwrap();
    let b = registry.subscribe(filter).unwrap();
    registry.dispatch(frame(1, 1));
    assert!(registry.unsubscribe(a));
    assert_eq!(registry.len(), 1);
    assert_eq!(registry.dispatch(frame(1, 2)), 1);
    assert_eq!(registry.pending(&b), 2);
    let stale = registry.subscribe(filter).unwrap();
    assert!(registry.unsubscribe(stale));
    let fresh = registry.subscribe(filter).unwrap();
    assert_eq!(registry.pending(&fresh), 0);
}

#[test]
fn unknown_ticket_reaches_no_queue() {
    let mut first = Registry::new(16, 8);
    let mut second = Registry::new(16, 8);
    let filter = Filter::new(FrameID::new(0), FrameID::new(0));
    let _zero = second.subscribe(filter).unwrap();
    let one = second.subscribe(filter).unwrap();
    let mine = first.subscribe(filter).unwrap();
    first.dispatch(frame(1, 1));
    assert_eq!(first.pending(&one), 0);
    assert_eq!(first.receive(&one, FrameID::new(1)), None);
    assert_eq!(first.find(&one, |_: &CanFrame| true), None);
    first.retain(&one, |_: &CanFrame| false);
    assert!(!first.unsubscribe(one));
    assert_eq!(first.pending(&mine), 1);
}

#[test]
fn handle_offers_receives_retains_and_finds() {
    let id = FrameID::encode(0, 341, 32, 0, true);
    let mut handle = SubscriberHandle::new(5, exactly(id), 2);
    assert_eq!(handle.ticket(), 5);
    assert_eq!(handle.filter(), exactly(id));
    assert_eq!(handle.len(), 0);
    assert!(!handle.offer(frame(7, 0)));
    assert_eq!(handle.len(), 0);
    let first = CanFrame::with_data(id, &[1]);
    let second = CanFrame::with_data(id, &[2]);
    let third = CanFrame::with_data(id, &[3]);
    assert!(handle.offer(first));
    assert!(handle.offer(second));
    assert!(handle.offer(third));
    assert_eq!(handle.len(), 2);
    assert_eq!(handle.find(|_: &CanFrame| true), Some(second));
    assert_eq!(handle.find(|frame: &CanFrame| frame.data() == [3]), Some(third));
    handle.retain(|frame: &CanFrame| frame.data() == [3]);
    assert_eq!(handle.len(), 1);
    assert_eq!(handle.receive(FrameID::new(7)), None);
    assert_eq!(handle.receive(id), Some(third));
    assert_eq!(handle.receive(id), None);
}
