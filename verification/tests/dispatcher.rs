use std::io::{Error, ErrorKind};
use uavcan_socketcan::dispatcher::{
    read_event, write_event, write_result, Action, Consumption, Dispatcher, IOError, LinkState,
    ReadEvent, WriteEvent, ENOBUFS,
};
use uavcan_socketcan::frame::CanFrame;
use uavcan_socketcan::identifier::{Filter, FrameID, ID_MASK};
use uavcan_socketcan::reassembly::{Limits, ReassemblyMap};
use uavcan_socketcan::registry::Registry;
use uavcan_socketcan::transmit::encode_transfer;

fn dispatcher(consumption: Consumption) -> Dispatcher {
    Dispatcher::new(
        consumption,
        Registry::new(16, 8),
        ReassemblyMap::new(Limits { max_transfers: 4, max_frames: 16, strict: false }),
    )
}

fn bus_frame(id: FrameID, data: &[u8]) -> socketcan::CANFrame {
    socketcan::CANFrame::new(id.value(), data, false, false).unwrap()
}

#[test]
fn read_results_are_classified() {
    let frame = bus_frame(FrameID::new(0x123), &[1, 2]);
    match read_event(Ok(frame)) {
        ReadEvent::Frame(read) => {
            assert_eq!(read.id(), 0x123);
            assert_eq!(read.data(), &[1, 2]);
        }
        other => panic!("a frame was read, not {:?}", other),
    }
    assert!(matches!(read_event(Err(Error::from(ErrorKind::WouldBlock))), ReadEvent::NotReady));
    assert!(matches!(read_event(Err(Error::from_raw_os_error(11))), ReadEvent::NotReady));
    assert!(matches!(read_event(Err(Error::from_raw_os_error(9))), ReadEvent::Fatal));
    assert!(matches!(read_event(Err(Error::from_raw_os_error(19))), ReadEvent::Fatal));
    assert!(matches!(read_event(Err(Error::from(ErrorKind::NotFound))), ReadEvent::Fatal));
}

#[test]
fn write_results_are_classified() {
    assert_eq!(write_event(Ok(())), WriteEvent::Written);
    assert_eq!(write_event(Err(Error::from(ErrorKind::WouldBlock))), WriteEvent::WouldBlock);
    assert_eq!(write_event(Err(Error::from_raw_os_error(ENOBUFS))), WriteEvent::WouldBlock);
    assert_eq!(ENOBUFS, 105);
    assert_eq!(write_event(Err(Error::from_raw_os_error(9))), WriteEvent::Failed);
    assert_eq!(write_event(Err(Error::from(ErrorKind::BrokenPipe))), WriteEvent::Failed);
}

#[test]
fn write_outcomes_are_reported() {
    assert_eq!(write_result(WriteEvent::Written), Ok(()));
    assert_eq!(write_result(WriteEvent::WouldBlock), Err(IOError::BufferExhausted));
    assert_eq!(write_result(WriteEvent::Failed), Err(IOError::WriteFailed));
}

#[test]
fn new_dispatcher_is_running() {
    let dispatcher = dispatcher(Consumption::Both);
    assert_eq!(dispatcher.state(), LinkState::Running);
    assert_eq!(dispatcher.registry().len(), 0);
    assert_eq!(dispatcher.reassembly().len(), 0);
}

#[test]
fn frame_goes_to_subscribers_and_reassembly() {
    let id = FrameID::encode(0, 341, 32, 0, true);
    let frame = CanFrame::with_data(id, &[1, 2, 3, 4]);
    let mut both = dispatcher(Consumption::Both);
    let subscriber = both.subscribe(Filter::new(id, FrameID::new(ID_MASK))).unwrap();
    assert_eq!(both.on_read(ReadEvent::Frame(bus_frame(id, &[1, 2, 3, 4]))), Action::ReadNext);
    assert_eq!(both.registry().pending(&subscriber), 1);
    assert!(both.reassembly().is_complete(frame.full_id()));
    assert_eq!(both.receive(&subscriber, id), Ok(Some(frame)));
    assert_eq!(both.receive(&subscriber, id), Ok(None));
    assert_eq!(both.reassembly_mut().remove(frame.full_id()), Some(frame));
}

#[test]
fn frame_goes_where_the_consumption_model_says() {
    let id = FrameID::encode(0, 341, 32, 0, true);
    let frame = CanFrame::with_data(id, &[1, 2, 3, 4]);
    let mut subscribers = dispatcher(Consumption::Subscribers);
    let subscriber = subscribers.subscribe(Filter::new(id, FrameID::new(ID_MASK))).unwrap();
    subscribers.on_read(ReadEvent::Frame(bus_frame(id, &[1, 2, 3, 4])));
    assert_eq!(subscribers.registry().pending(&subscriber), 1);
    assert_eq!(subscribers.reassembly().len(), 0);
    let mut reassembly = dispatcher(Consumption::Reassembly);
    let subscriber = reassembly.subscribe(Filter::new(id, FrameID::new(ID_MASK))).unwrap();
    reassembly.take_in(frame);
    assert_eq!(reassembly.registry().pending(&subscriber), 0);
    assert!(reassembly.reassembly().contains(frame.full_id()));
}

#[test]
fn idle_bus_pauses_the_loop() {
    let mut dispatcher = dispatcher(Consumption::Both);
    assert_eq!(dispatcher.on_read(ReadEvent::NotReady), Action::Pause);
    assert_eq!(dispatcher.on_read(ReadEvent::NotReady), Action::Pause);
    assert_eq!(dispatcher.state(), LinkState::Running);
    assert_eq!(dispatcher.reassembly().len(), 0);
}

#[test]
fn fatal_error_stops_the_loop_for_good() {
    let id = FrameID::encode(0, 341, 32, 0, true);
    let mut dispatcher = dispatcher(Consumption::Both);
    let subscriber = dispatcher.subscribe(Filter::new(id, FrameID::new(ID_MASK))).unwrap();
    dispatcher.on_read(ReadEvent::Frame(bus_frame(id, &[1])));
    assert_eq!(dispatcher.on_read(ReadEvent::Fatal), Action::Stop);
    assert_eq!(dispatcher.state(), LinkState::Failed);
    assert_eq!(dispatcher.on_read(ReadEvent::NotReady), Action::Stop);
    assert_eq!(dispatcher.on_read(ReadEvent::Fatal), Action::Stop);
    assert_eq!(dispatcher.on_read(ReadEvent::Frame(bus_frame(id, &[2]))), Action::Stop);
    assert_eq!(dispatcher.state(), LinkState::Failed);
    assert_eq!(dispatcher.registry().pending(&subscriber), 1);
    assert_eq!(dispatcher.reassembly().len(), 1);
}

#[test]
fn failed_bus_refuses_transmit_and_receive() {
    let id = FrameID::encode(0, 341, 32, 0, true);
    let frame = CanFrame::with_data(id, &[1, 2, 3, 4]);
    let mut dispatcher = dispatcher(Consumption::Subscribers);
    let subscriber = dispatcher.subscribe(Filter::new(id, FrameID::new(ID_MASK))).unwrap();
    dispatcher.take_in(frame);
    let encoded = dispatcher.outgoing(frame).unwrap();
    assert_eq!(encoded.id(), id.value());
    assert_eq!(encoded.data(), &[1, 2, 3, 4]);
    dispatcher.on_read(ReadEvent::Fatal);
    assert_eq!(dispatcher.outgoing(frame).err(), Some(IOError::Closed));
    assert_eq!(dispatcher.receive(&subscriber, id), Err(IOError::Closed));
    assert_eq!(dispatcher.receive(&subscriber, id), Err(IOError::Closed));
    assert_eq!(dispatcher.registry().pending(&subscriber), 1);
}

#[test]
fn registry_is_reached_through_the_dispatcher() {
    let mut dispatcher = dispatcher(Consumption::Subscribers);
    let all = dispatcher.subscribe(Filter::new(FrameID::new(0), FrameID::new(0))).unwrap();
    dispatcher.take_in(CanFrame::with_data(FrameID::new(1), &[1]));
    dispatcher.take_in(CanFrame::with_data(FrameID::new(2), &[2]));
    dispatcher.registry_mut().retain(&all, |frame: &CanFrame| frame.id() == FrameID::new(2));
    assert_eq!(dispatcher.registry().pending(&all), 1);
    assert_eq!(
        dispatcher.registry().find(&all, |_: &CanFrame| true),
        Some(CanFrame::with_data(FrameID::new(2), &[2]))
    );
    assert!(dispatcher.registry_mut().unsubscribe(all));
    assert_eq!(dispatcher.registry().len(), 0);
}

#[test]
fn transfer_survives_the_way_over_the_bus() {
    let key = CanFrame::with_data(FrameID::encode(2, 341, 32, 0, false), &[6]).full_id();
    let bytes: Vec<u8> = (0..60).map(|i| (i * 3) as u8).collect();
    let mut receiver = dispatcher(Consumption::Reassembly);
    for bus_frame in encode_transfer(key, &bytes) {
        assert!(!receiver.reassembly().is_complete(key));
        assert_eq!(receiver.on_read(read_event(Ok(bus_frame))), Action::ReadNext);
    }
    assert!(receiver.reassembly().is_complete(key));
    assert_eq!(receiver.reassembly().completed_transfers(key, key), vec![key]);
    let mut payload = Vec::new();
    while let Some(frame) = receiver.reassembly_mut().remove(key) {
        let data = frame.data();
        payload.extend_from_slice(&data[..data.len() - 1]);
    }
    assert_eq!(payload, bytes);
    assert!(!receiver.reassembly().contains(key));
}
