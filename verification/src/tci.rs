//! The side of the TCI clients: text commands, stream frames, receiver state and sessions.

pub mod laws;
pub mod protocol;
pub mod server;
pub mod state;
