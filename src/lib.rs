//! Server side of a virtual-LAN overlay: the UDP relay and registration engine.
//!
//! The library holds the decisions of the relay as verified code: the frame
//! codec, the per-token directory of devices with its address pool, the
//! reconciliation run when a table entry expires, and the routing of the
//! datagrams that an authenticated peer sends.

pub mod directory;
pub mod messages;
pub mod network;
pub mod packet;
pub mod relay;
pub mod status;
pub mod table;

pub use status::PeerDeviceStatus;
