//! A bridge between a local mail transfer agent and a remote mail endpoint.
//!
//! The crate holds the decisions of the bridge: the LMTP session machine
//! that frames a message body, the answer to a webhook request that carries
//! new routing tables, and the small rules around both. Reading sockets,
//! calling the remote endpoint and writing files is left to the caller, who
//! hands plain values in and carries the returned actions out.

pub mod args;
pub mod cmd;
pub mod config;
pub mod errors;
pub mod text;
pub mod utils;
