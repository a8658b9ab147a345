//! SocketCAN for Linux.
//!
//! What a CAN application does with the kernel, apart from the system calls
//! themselves: frames and their wire format, `CAN_RAW` sockets and their options,
//! interfaces and route netlink, segmented transport (ISO-TP), fan-out of
//! received frames to many subscribers, and the rules of a server that lets
//! others use a bus.
//!
//! Nothing here opens a file or a socket, reads a clock or starts a thread. Where
//! something is to be done with the outside world, a value says what
//! ([`isotp::Action`], [`iface::LinkAction`], [`socket::Stage`]), and a method
//! takes in what came of it.
//!
//! - [`frame`]: [`Frame`], [`CanId`], encoding and decoding
//! - [`socket`]: [`CanFilter`], [`OpenOpts`], opening, sending, receiving
//! - [`iface`], [`netlink`]: [`Interface`], [`CanState`], up and down
//! - [`isotp`]: ISO 15765-2 requests
//! - [`reader`]: subscribers and their queues
//! - [`server`]: allowlist, read-only mode, parameters of the server's tools
//! - [`consts`]: raw constants of the kernel headers
//! - [`bytes`], [`text`], [`time`], [`error`]: what the others are built from
pub mod bytes;
pub mod consts;
pub mod error;
pub mod frame;
pub mod iface;
pub mod isotp;
pub mod netlink;
pub mod reader;
pub mod server;
pub mod socket;
pub mod text;
pub mod time;

pub use frame::{CanId, FdFlags, Frame, FrameError, FrameKind, MAX_DATA_LEN, MAX_FD_DATA_LEN};
pub use iface::{CanState, Interface};
pub use socket::{CanFilter, OpenOpts, Timestamping};
