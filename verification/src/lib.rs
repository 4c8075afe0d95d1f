//! Client side of a message-oriented protocol between a client and a
//! compositor-like server: object identities and their liveness, the wire
//! codec, the queue of incoming events and their dispatch, the sending of
//! requests, the coordination of reads, and the sticky error state.

mod bytes;
pub mod object_id;
pub mod protocol;
pub mod message;
pub mod table;
pub mod wire;
pub mod state;
pub mod backend;
pub mod request;
pub mod dispatch;
pub mod transport;
pub mod laws;
