//! A frame-accurate video worker: the protocol it speaks, the sessions it
//! keeps, the frame cache it evicts from, and the rules by which it names,
//! checks and steps through frames.

pub mod text;
pub mod protocol;
pub mod frame;
pub mod cache;
pub mod server;
pub mod media;
pub mod sdk;
pub mod client;
