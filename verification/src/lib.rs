//! Transport binding between a node-bus protocol and a SocketCAN frame bus.
//!
//! The library holds what decides: the bit layout of frame identifiers, the
//! codec between bus frames and internal frames, the slicing of outgoing
//! transfers into frames, the reassembly of inbound frames into transfers,
//! the registry that dispatches inbound frames to subscribers, and the
//! state machine of the receive loop. Reading from and writing to the
//! socket, threads and locks are the caller's.

pub mod buffer;
pub mod codec;
pub mod dispatcher;
pub mod frame;
pub mod identifier;
pub mod reassembly;
pub mod registry;
pub mod subscriber;
pub mod transmit;

pub use buffer::TransferBuffer;
pub use dispatcher::{Dispatcher, IOError};
pub use frame::CanFrame;
pub use identifier::{Filter, FrameID, FullTransferID};
pub use reassembly::ReassemblyMap;
pub use registry::{Registry, Subscriber};
pub use subscriber::SubscriberHandle;
