//! Client-side core of a browser chat application: the wire-protocol codec,
//! the presence/transcript store, presentation derivation, and the session
//! controller state machine. Transport and rendering live outside this crate.

pub mod chat;
pub mod codec;
pub mod present;
pub mod text;
pub mod wire;
