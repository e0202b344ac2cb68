//! Commands for a small SQL front end, their wire frames, and the parser
//! that reads a command back from the bytes of its frame.

pub mod cmd;
pub mod frame;
pub mod line;
pub mod roundtrip;
pub mod statements;
pub mod text;
