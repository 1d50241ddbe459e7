//! An in-memory key-value store with time-based expiry, and the text
//! protocol that drives it: a line is parsed into a command, and a command
//! is executed against the store to produce a reply.
pub mod clock;
pub mod command;
pub mod laws;
pub mod store;
pub mod text;
