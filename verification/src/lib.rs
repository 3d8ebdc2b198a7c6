//! Core decision engine of a Raft consensus node.
//!
//! The engine is a deterministic, side-effect-free transition function: it
//! consumes external events (vote requests and responses, append-entries
//! requests, snapshot installation, client proposals) together with the
//! node's state, mutates that state, and emits an ordered queue of commands
//! that a surrounding runtime must execute (persist the vote, append log
//! entries, send RPCs, apply committed entries, purge the log).  The engine
//! itself never performs I/O and never blocks.

pub mod command;
pub mod config;
pub mod engine;
pub mod error;
pub mod internal_server_state;
pub mod log_id;
pub mod log_id_list;
pub mod membership;
pub mod message;
pub mod progress;
pub mod raft_state;
pub mod vote;
