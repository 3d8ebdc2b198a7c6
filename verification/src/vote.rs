//! The vote a node holds: term, candidate, and whether the vote is committed.

use vstd::prelude::*;
use crate::log_id::LeaderId;

verus! {

/// A node's current vote.
///
/// The vote becomes *committed* the moment its owner observes a quorum of
/// grants: that marks the transition from candidate to leader.
#[derive(Clone, Copy, PartialEq, Eq, Structural, Debug)]
pub struct Vote {
    pub term: u64,
    pub node_id: u64,
    pub committed: bool,
}

/// Total order on votes: lexicographic by (term, committed, node id),
/// with a committed vote outranking an uncommitted one at the same term.
pub open spec fn vote_le(a: Vote, b: Vote) -> bool {
    ||| a.term < b.term
    ||| (a.term == b.term && !a.committed && b.committed)
    ||| (a.term == b.term && a.committed == b.committed && a.node_id <= b.node_id)
}

pub open spec fn vote_lt(a: Vote, b: Vote) -> bool {
    vote_le(a, b) && a != b
}

impl Vote {
    pub fn new(term: u64, node_id: u64) -> (r: Vote)
        ensures
            r == (Vote { term, node_id, committed: false }),
    {
        Vote { term, node_id, committed: false }
    }

    pub fn new_committed(term: u64, node_id: u64) -> (r: Vote)
        ensures
            r == (Vote { term, node_id, committed: true }),
    {
        Vote { term, node_id, committed: true }
    }

    /// The leadership this vote stands for.
    pub fn leader_id(&self) -> (r: LeaderId)
        ensures
            r == (LeaderId { term: self.term, node_id: self.node_id }),
    {
        LeaderId { term: self.term, node_id: self.node_id }
    }

    pub fn le(&self, other: &Vote) -> (r: bool)
        ensures
            r == vote_le(*self, *other),
    {
        if self.term != other.term {
            self.term < other.term
        } else if self.committed != other.committed {
            other.committed
        } else {
            self.node_id <= other.node_id
        }
    }

    pub fn lt(&self, other: &Vote) -> (r: bool)
        ensures
            r == vote_lt(*self, *other),
    {
        self.le(other) && !other.le(self)
    }
}

impl Default for Vote {
    /// The minimal vote, held by a node that never voted.
    fn default() -> (r: Vote)
        ensures
            r == (Vote { term: 0, node_id: 0, committed: false }),
    {
        Vote { term: 0, node_id: 0, committed: false }
    }
}

} // verus!
