//! The tagged outcomes the engine and the configuration return.

use vstd::prelude::*;
use crate::log_id::LogId;
use crate::membership::Membership;
use crate::vote::Vote;

verus! {

/// Why a vote request was not granted.
#[derive(Clone, Copy, PartialEq, Eq, Structural, Debug)]
pub enum RejectVoteRequest {
    /// The engine's own vote outranks the request.
    ByVote(Vote),
    /// The engine's log is newer than the candidate's.
    ByLastLogId(Option<LogId>),
}

/// Initializing is allowed only on a node without logs whose vote is the
/// minimal one.
#[derive(Clone, Copy, PartialEq, Eq, Structural, Debug)]
pub struct NotAllowed {
    pub last_log_id: Option<LogId>,
    pub vote: Vote,
}

/// The single initial entry must be a membership entry.
#[derive(Clone, Copy, PartialEq, Eq, Structural, Debug)]
pub struct NotAMembershipEntry {}

/// The initial membership must contain the initializing node.
#[derive(Debug, PartialEq)]
pub struct NotInMembers {
    pub node_id: u64,
    pub membership: Membership,
}

/// Why `initialize` refused.
#[derive(Debug, PartialEq)]
pub enum InitializeError {
    NotAllowed(NotAllowed),
    NotAMembershipEntry(NotAMembershipEntry),
    NotInMembers(NotInMembers),
}

/// Why a configuration was rejected.
#[derive(Debug, PartialEq)]
pub enum ConfigError {
    /// The minimum election timeout must stay below the maximum.
    ElectionTimeout { min: u64, max: u64 },
    /// The minimum election timeout must exceed the heartbeat interval.
    ElectionTimeoutLTHeartBeat { election_timeout_min: u64, heartbeat_interval: u64 },
    /// At least one entry per replication payload is needed.
    MaxPayloadIs0,
    /// A snapshot policy string does not follow `since_last:<num>`.
    InvalidSnapshotPolicy { syntax: String, invalid: String },
    /// A number, possibly with a size unit, could not be parsed.
    InvalidNumber { invalid: String, reason: String },
}

} // verus!
