//! The receive dispatcher and the entry to the transmit path, as a state
//! machine.
//!
//! The caller owns the bus socket and runs the loop: it reads, hands the
//! outcome of the read to `on_read`, and does what the returned action
//! says. The dispatcher decodes a frame that was read and passes it to the
//! subscribers, to the reassembly map, or to both. A fatal bus error puts
//! it into the failed state, which it never leaves: from then on every read
//! outcome is answered by `Stop`, and transmitting and receiving fail.

use crate::codec::{decoded, encodes};
use crate::frame::CanFrame;
use crate::identifier::{Filter, FrameID};
use crate::reassembly::{inserted, Limits, ReassemblyMap, Transfer};
use crate::registry::{dispatched, queue_of, with_queue, Registry, Subscriber};
use crate::subscriber::{first_with, Subscription};
use socketcan::ShouldRetry;
use vstd::prelude::*;

verus! {

/// Where inbound frames go.
#[derive(Clone, Copy, Debug, PartialEq, Eq, Structural)]
pub enum Consumption {
    /// To the queues of the subscribers whose filters match.
    Subscribers,
    /// To the reassembly map.
    Reassembly,
    /// To both.
    Both,
}

impl Consumption {
    /// Whether inbound frames are dispatched to the subscribers.
    pub open spec fn feeds_subscribers(self) -> bool {
        self != Consumption::Reassembly
    }

    /// Whether inbound frames are inserted into the reassembly map.
    pub open spec fn feeds_reassembly(self) -> bool {
        self != Consumption::Subscribers
    }
}

/// Whether the bus can still be used.
#[derive(Clone, Copy, Debug, PartialEq, Eq, Structural)]
pub enum LinkState {
    /// Frames are read and written.
    Running,
    /// The bus failed fatally; the interface is unusable for good.
    Failed,
}

/// The outcome of one read from the bus.
#[derive(Clone, Copy, Debug)]
pub enum ReadEvent {
    /// A frame was read.
    Frame(socketcan::CANFrame),
    /// No frame is there at the moment.
    NotReady,
    /// The bus handle is closed or invalid.
    Fatal,
}

/// What the reading loop does next.
#[derive(Clone, Copy, Debug, PartialEq, Eq, Structural)]
pub enum Action {
    /// Read again at once.
    ReadNext,
    /// Wait a moment, then read again.
    Pause,
    /// Leave the loop.
    Stop,
}

/// The outcome of one write to the bus.
#[derive(Clone, Copy, Debug, PartialEq, Eq, Structural)]
pub enum WriteEvent {
    /// The frame was written.
    Written,
    /// The outbound queue of the bus is full.
    WouldBlock,
    /// The write failed otherwise.
    Failed,
}

/// Why a frame was not transmitted or received.
#[derive(Clone, Copy, Debug, PartialEq, Eq, Structural)]
pub enum IOError {
    /// The outbound queue of the bus is full; the frame was not written.
    BufferExhausted,
    /// The write failed; the frame was not written.
    WriteFailed,
    /// The bus failed fatally before; nothing is read or written any more.
    Closed,
}

/// The state of the dispatcher.
pub struct Bus {
    /// Whether the bus can still be used.
    pub state: LinkState,
    /// Where inbound frames go.
    pub consumption: Consumption,
    /// The subscriptions, in the order in which they were made.
    pub subscriptions: Seq<Subscription>,
    /// The transfers under way, oldest first.
    pub transfers: Seq<Transfer>,
    /// The number of tickets issued to subscribers.
    pub issued: u64,
    /// The most frames that a subscriber's queue holds.
    pub queue_limit: usize,
    /// The most subscriptions at a time.
    pub max_subscribers: usize,
    /// The bounds of the reassembly map.
    pub limits: Limits,
}

/// The state after `frame` came in: it was dispatched, inserted, or both.
pub open spec fn taken_in(bus: Bus, frame: CanFrame) -> Bus {
    Bus {
        subscriptions: if bus.consumption.feeds_subscribers() {
            dispatched(bus.subscriptions, frame)
        } else {
            bus.subscriptions
        },
        transfers: if bus.consumption.feeds_reassembly() {
            inserted(bus.transfers, frame, bus.limits)
        } else {
            bus.transfers
        },
        ..bus
    }
}

/// The state after the outcome of a read.
pub open spec fn step(bus: Bus, event: ReadEvent) -> Bus {
    match bus.state {
        LinkState::Failed => bus,
        LinkState::Running => match event {
            ReadEvent::Frame(frame) => taken_in(bus, decoded(frame)),
            ReadEvent::NotReady => bus,
            ReadEvent::Fatal => Bus { state: LinkState::Failed, ..bus },
        },
    }
}

/// What the reading loop does after the outcome of a read.
pub open spec fn action_after(bus: Bus, event: ReadEvent) -> Action {
    match bus.state {
        LinkState::Failed => Action::Stop,
        LinkState::Running => match event {
            ReadEvent::Frame(_) => Action::ReadNext,
            ReadEvent::NotReady => Action::Pause,
            ReadEvent::Fatal => Action::Stop,
        },
    }
}

/// `std::io::Error`, the error of a read from or a write to the bus socket.
#[verifier::external_type_specification]
#[verifier::external_body]
pub struct ExIoError(std::io::Error);

/// Whether an error tells of a timeout rather than of a failure: what
/// `socketcan::ShouldRetry::should_retry` answers for it.
pub uninterp spec fn retry_advised(error: std::io::Error) -> bool;

/// The error number of the operating system that an error carries, if it
/// carries one: what `std::io::Error::raw_os_error` returns.
pub uninterp spec fn os_code(error: std::io::Error) -> Option<i32>;

/// `socketcan::ShouldRetry::should_retry` for `std::io::Error`, which looks
/// at the kind of the error and at its error number and at nothing else.
#[verifier::external_body]
fn should_retry(error: &std::io::Error) -> (retry: bool)
    ensures
        retry == retry_advised(*error),
{
    error.should_retry()
}

/// `std::io::Error::raw_os_error`, which returns the error number that the
/// error was made from, if it was made from one.
#[verifier::external_body]
fn raw_os_error(error: &std::io::Error) -> (code: Option<i32>)
    ensures
        code == os_code(*error),
{
    error.raw_os_error()
}

/// The error number with which Linux refuses a write because no buffer
/// space is left.
pub const ENOBUFS: i32 = 105;

/// The read event that the result of a read stands for: the frame that was
/// read; or that no frame is there, where the error tells of a timeout; or
/// a fatal error.
pub open spec fn spec_read_event(read: Result<socketcan::CANFrame, std::io::Error>) -> ReadEvent {
    match read {
        Ok(frame) => ReadEvent::Frame(frame),
        Err(error) => if retry_advised(error) {
            ReadEvent::NotReady
        } else {
            ReadEvent::Fatal
        },
    }
}

/// The write event that the result of a write stands for: written; or that
/// the outbound queue is full, where the error tells of a timeout or of
/// missing buffer space; or failed.
pub open spec fn spec_write_event(written: Result<(), std::io::Error>) -> WriteEvent {
    match written {
        Ok(_) => WriteEvent::Written,
        Err(error) => if retry_advised(error) || os_code(error) == Some(ENOBUFS) {
            WriteEvent::WouldBlock
        } else {
            WriteEvent::Failed
        },
    }
}

/// Classifies the result of a read from the bus.
pub fn read_event(read: Result<socketcan::CANFrame, std::io::Error>) -> (event: ReadEvent)
    ensures
        event == spec_read_event(read),
{
    match read {
        Ok(frame) => ReadEvent::Frame(frame),
        Err(error) => if should_retry(&error) {
            ReadEvent::NotReady
        } else {
            ReadEvent::Fatal
        },
    }
}

/// Classifies the result of a write to the bus.
pub fn write_event(written: Result<(), std::io::Error>) -> (event: WriteEvent)
    ensures
        event == spec_write_event(written),
{
    match written {
        Ok(_) => WriteEvent::Written,
        Err(error) => {
            if should_retry(&error) {
                WriteEvent::WouldBlock
            } else {
                match raw_os_error(&error) {
                    Some(code) => if code == ENOBUFS {
                        WriteEvent::WouldBlock
                    } else {
                        WriteEvent::Failed
                    },
                    None => WriteEvent::Failed,
                }
            }
        },
    }
}

/// What the caller of a transmission learns from the outcome of the write.
pub open spec fn spec_write_result(event: WriteEvent) -> Result<(), IOError> {
    match event {
        WriteEvent::Written => Ok(()),
        WriteEvent::WouldBlock => Err(IOError::BufferExhausted),
        WriteEvent::Failed => Err(IOError::WriteFailed),
    }
}

/// What the caller of a transmission learns from the outcome of the write:
/// success, or the failure by its kind. Nothing is retried.
#[verifier::when_used_as_spec(spec_write_result)]
pub fn write_result(event: WriteEvent) -> (result: Result<(), IOError>)
    ensures
        result == spec_write_result(event),
{
    match event {
        WriteEvent::Written => Ok(()),
        WriteEvent::WouldBlock => Err(IOError::BufferExhausted),
        WriteEvent::Failed => Err(IOError::WriteFailed),
    }
}

/// The dispatcher: the subscriber registry, the reassembly map, and the
/// state of the bus.
#[derive(Debug)]
pub struct Dispatcher {
    registry: Registry,
    transfers: ReassemblyMap,
    consumption: Consumption,
    state: LinkState,
}

impl View for Dispatcher {
    type V = Bus;

    closed spec fn view(&self) -> Bus {
        Bus {
            state: self.state,
            consumption: self.consumption,
            subscriptions: self.registry@,
            transfers: self.transfers@,
            issued: self.registry.issued(),
            queue_limit: self.registry.queue_limit(),
            max_subscribers: self.registry.max_subscribers(),
            limits: self.transfers.limits(),
        }
    }
}

impl Dispatcher {
    /// A running dispatcher over the given registry and reassembly map.
    pub fn new(
        consumption: Consumption,
        registry: Registry,
        transfers: ReassemblyMap,
    ) -> (dispatcher:
        Dispatcher)
        ensures
            dispatcher@ == (Bus {
                state: LinkState::Running,
                consumption,
                subscriptions: registry@,
                transfers: transfers@,
                issued: registry.issued(),
                queue_limit: registry.queue_limit(),
                max_subscribers: registry.max_subscribers(),
                limits: transfers.limits(),
            }),
    {
        Dispatcher { registry, transfers, consumption, state: LinkState::Running }
    }

    /// Whether the bus can still be used.
    pub fn state(&self) -> (state: LinkState)
        ensures
            state == self@.state,
    {
        self.state
    }

    /// The registry, for reading.
    pub fn registry(&self) -> (registry: &Registry)
        ensures
            registry@ == self@.subscriptions,
            registry.issued() == self@.issued,
            registry.queue_limit() == self@.queue_limit,
            registry.max_subscribers() == self@.max_subscribers,
    {
        &self.registry
    }

    /// The reassembly map, for reading.
    pub fn reassembly(&self) -> (map: &ReassemblyMap)
        ensures
            map@ == self@.transfers,
            map.limits() == self@.limits,
    {
        &self.transfers
    }

    /// The registry, for registering and for consuming.
    pub fn registry_mut(&mut self) -> (registry: &mut Registry)
        ensures
            registry@ == old(self)@.subscriptions,
            registry.issued() == old(self)@.issued,
            registry.queue_limit() == old(self)@.queue_limit,
            registry.max_subscribers() == old(self)@.max_subscribers,
            final(self)@ == (Bus {
                subscriptions: final(registry)@,
                issued: final(registry).issued(),
                queue_limit: final(registry).queue_limit(),
                max_subscribers: final(registry).max_subscribers(),
                ..old(self)@
            }),
    {
        &mut self.registry
    }

    /// The reassembly map, for taking transfers out.
    pub fn reassembly_mut(&mut self) -> (map: &mut ReassemblyMap)
        ensures
            map@ == old(self)@.transfers,
            map.limits() == old(self)@.limits,
            final(self)@ == (Bus {
                transfers: final(map)@,
                limits: final(map).limits(),
                ..old(self)@
            }),
    {
        &mut self.transfers
    }

    /// Takes a decoded inbound frame in: dispatches it to the subscribers,
    /// inserts it into the reassembly map, or both, as the consumption
    /// model says.
    pub fn take_in(&mut self, frame: CanFrame)
        ensures
            final(self)@ == taken_in(old(self)@, frame),
    {
        match self.consumption {
            Consumption::Subscribers => {
                self.registry.dispatch(frame);
            },
            Consumption::Reassembly => {
                self.transfers.insert(frame);
            },
            Consumption::Both => {
                self.registry.dispatch(frame);
                self.transfers.insert(frame);
            },
        }
    }

    /// Handles the outcome of one read from the bus and says what the
    /// reading loop does next.
    pub fn on_read(&mut self, event: ReadEvent) -> (action: Action)
        ensures
            final(self)@ == step(old(self)@, event),
            action == action_after(old(self)@, event),
    {
        match self.state {
            LinkState::Failed => Action::Stop,
            LinkState::Running => match event {
                ReadEvent::Frame(frame) => {
                    self.take_in(CanFrame::from(frame));
                    Action::ReadNext
                },
                ReadEvent::NotReady => Action::Pause,
                ReadEvent::Fatal => {
                    self.state = LinkState::Failed;
                    Action::Stop
                },
            },
        }
    }

    /// Encodes a frame for transmission, unless the bus has failed.
    pub fn outgoing(&self, frame: CanFrame) -> (encoded: Result<socketcan::CANFrame, IOError>)
        ensures
            match encoded {
                Ok(bus_frame) => self@.state == LinkState::Running && encodes(bus_frame, frame),
                Err(error) => self@.state == LinkState::Failed && error == IOError::Closed,
            },
    {
        match self.state {
            LinkState::Failed => Err(IOError::Closed),
            LinkState::Running => Ok(socketcan::CANFrame::from(frame)),
        }
    }

    /// Takes the oldest frame with identifier `id` out of the subscriber's
    /// queue. Absence is no error: where no such frame waits, the answer is
    /// `Ok(None)`. Once the bus has failed, the answer is an error and the
    /// queues stay as they are.
    pub fn receive(&mut self, subscriber: &Subscriber, id: FrameID) -> (frame: Result<
        Option<CanFrame>,
        IOError,
    >)
        ensures
            match old(self)@.state {
                LinkState::Failed => frame == Err::<Option<CanFrame>, IOError>(IOError::Closed)
                    && final(self)@ == old(self)@,
                LinkState::Running => match first_with(
                    queue_of(old(self)@.subscriptions, subscriber@),
                    id,
                ) {
                    Some(i) => frame == Ok::<Option<CanFrame>, IOError>(
                        Some(queue_of(old(self)@.subscriptions, subscriber@)[i]),
                    ) && final(self)@ == (Bus {
                        subscriptions: with_queue(
                            old(self)@.subscriptions,
                            subscriber@,
                            queue_of(old(self)@.subscriptions, subscriber@).remove(i),
                        ),
                        ..old(self)@
                    }),
                    None => frame == Ok::<Option<CanFrame>, IOError>(None) && final(self)@ == old(
                        self,
                    )@,
                },
            },
    {
        match self.state {
            LinkState::Failed => Err(IOError::Closed),
            LinkState::Running => Ok(self.registry.receive(subscriber, id)),
        }
    }

    /// Registers a subscriber, as `Registry::subscribe` does.
    pub fn subscribe(&mut self, filter: Filter) -> (subscriber: Result<Subscriber, ()>)
        ensures
            subscriber.is_ok() == (old(self)@.subscriptions.len() < old(self)@.max_subscribers
                && old(self)@.issued < u64::MAX),
            match subscriber {
                Ok(made) => made@ == old(self)@.issued && final(self)@ == (Bus {
                    subscriptions: old(self)@.subscriptions.push(
                        Subscription {
                            ticket: made@,
                            filter,
                            limit: old(self)@.queue_limit,
                            frames: Seq::<CanFrame>::empty(),
                        },
                    ),
                    issued: (old(self)@.issued + 1) as u64,
                    ..old(self)@
                }),
                Err(_) => final(self)@ == old(self)@,
            },
    {
        self.registry.subscribe(filter)
    }
}

} // verus!
