//! An IRC-like chat server's verified core: the command parser, the session
//! and channel registries with their invariant, the command processor that
//! turns one command into a new registry state plus addressed reply lines,
//! and the laws that hold of them. The network transport around this library
//! only reads lines, calls the processor, and writes the lines it is handed.
pub mod channel;
pub mod clock;
pub mod handler;
pub mod laws;
pub mod message;
pub mod parser;
pub mod proto;
pub mod render;
pub mod state;
pub mod strings;
pub mod user;

