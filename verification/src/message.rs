//! Log entries and the wire-level request and response structures.

use vstd::prelude::*;
use crate::log_id::{LeaderId, LogId};
use crate::membership::Membership;
use crate::vote::Vote;

verus! {

/// What a log entry carries.
#[derive(Debug, PartialEq)]
pub enum EntryPayload {
    /// An empty entry, appended by a fresh leader to commit its term.
    Blank,
    /// An application-defined entry.
    Normal,
    /// A membership change.
    Membership(Membership),
}

/// One log entry.
#[derive(Debug, PartialEq)]
pub struct Entry {
    pub log_id: LogId,
    pub payload: EntryPayload,
}

impl Entry {
    /// The membership this entry carries, if it is a membership entry.
    pub open spec fn membership_spec(self) -> Option<Membership> {
        match self.payload {
            EntryPayload::Membership(m) => Option::Some(m),
            _ => Option::None,
        }
    }

    /// A fresh entry, not yet assigned a place in the log.
    pub fn new(payload: EntryPayload) -> (r: Entry)
        ensures
            r.log_id == (LogId { leader_id: LeaderId { term: 0, node_id: 0 }, index: 0 }),
            r.payload == payload,
    {
        Entry { log_id: LogId { leader_id: LeaderId { term: 0, node_id: 0 }, index: 0 }, payload }
    }

    pub fn get_log_id(&self) -> (r: LogId)
        ensures
            r == self.log_id,
    {
        self.log_id
    }

    pub fn set_log_id(&mut self, log_id: &LogId)
        ensures
            final(self).log_id == *log_id,
            final(self).payload == old(self).payload,
    {
        self.log_id = *log_id;
    }

    pub fn get_membership(&self) -> (r: Option<&Membership>)
        ensures
            match self.payload {
                EntryPayload::Membership(m) => r matches Option::Some(x) && *x == m,
                _ => r is None,
            },
    {
        match &self.payload {
            EntryPayload::Membership(m) => Option::Some(m),
            _ => Option::None,
        }
    }
}

/// A request for a vote, sent by a candidate.
#[derive(Clone, Copy, PartialEq, Eq, Structural, Debug)]
pub struct VoteRequest {
    pub vote: Vote,
    pub last_log_id: Option<LogId>,
}

impl VoteRequest {
    pub fn new(vote: Vote, last_log_id: Option<LogId>) -> (r: VoteRequest)
        ensures
            r == (VoteRequest { vote, last_log_id }),
    {
        VoteRequest { vote, last_log_id }
    }
}

/// The answer to a vote request: the responder's vote after handling it,
/// whether it granted the request, and its last log id.
#[derive(Clone, Copy, PartialEq, Eq, Structural, Debug)]
pub struct VoteResponse {
    pub vote: Vote,
    pub vote_granted: bool,
    pub last_log_id: Option<LogId>,
}

/// The answer to an append-entries request.
#[derive(Clone, Copy, PartialEq, Eq, Structural, Debug)]
pub enum AppendEntriesResponse {
    Success,
    HigherVote(Vote),
    Conflict,
}

} // verus!
