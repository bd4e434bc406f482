//! SimpleChat Protocol (SCP): a length-prefixed, versioned wire protocol for a
//! room-based chat service, with the session state machine, the server-side
//! directory of clients and rooms, and the reference client's local state.

pub mod client;
pub mod clock;
pub mod codec;
pub mod directory;
pub mod protocol;
pub mod room;
pub mod server;
pub mod strutil;
pub mod wire;
