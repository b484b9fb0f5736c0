//! Core logic of a peer-to-peer node: the per-connection session state
//! machine (handshake initiation and the read-dispatch loop), the message
//! codec and dispatcher, the supervisory status-aggregation policy, and the
//! transport configuration policy. All I/O lives outside this crate; these
//! modules decide, and the surrounding program performs.

pub mod protocol;
pub mod session;
pub mod status;
pub mod transport;
pub mod upstream;

pub use protocol::Message;
pub use protocol::NodeAddr;
