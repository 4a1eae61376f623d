//! Client-side sending logic for a streamed IMAP `APPEND`: a state machine
//! that writes the command prefix, waits for server continuations, checks and
//! forwards body chunks and finishes the literal.

pub mod fragment;
pub mod event;
pub mod append;
pub mod laws;
pub mod runs;
