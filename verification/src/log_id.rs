//! Log identifiers: which leader produced a log entry, and at which index.

use vstd::prelude::*;

verus! {

/// Identifies the leadership under which a log entry was produced:
/// a term together with the id of the node that led that term.
#[derive(Clone, Copy, PartialEq, Eq, Structural, Debug)]
pub struct LeaderId {
    pub term: u64,
    pub node_id: u64,
}

/// Identifies one log entry: the leadership that produced it and its index.
#[derive(Clone, Copy, PartialEq, Eq, Structural, Debug)]
pub struct LogId {
    pub leader_id: LeaderId,
    pub index: u64,
}

/// Total order on leader ids: by term, then by node id.
///
/// Within a single cluster history two distinct leaders never share a term,
/// so on log ids that actually occur this coincides with the term order.
pub open spec fn leader_le(a: LeaderId, b: LeaderId) -> bool {
    a.term < b.term || (a.term == b.term && a.node_id <= b.node_id)
}

pub open spec fn leader_lt(a: LeaderId, b: LeaderId) -> bool {
    leader_le(a, b) && a != b
}

/// Total order on log ids: by leader id, then by index.
pub open spec fn log_id_le(a: LogId, b: LogId) -> bool {
    leader_lt(a.leader_id, b.leader_id) || (a.leader_id == b.leader_id && a.index <= b.index)
}

pub open spec fn log_id_lt(a: LogId, b: LogId) -> bool {
    log_id_le(a, b) && a != b
}

/// Order on optional log ids: `None` ranks below every log id.
pub open spec fn opt_log_id_le(a: Option<LogId>, b: Option<LogId>) -> bool {
    match (a, b) {
        (Option::None, _) => true,
        (Option::Some(_), Option::None) => false,
        (Option::Some(x), Option::Some(y)) => log_id_le(x, y),
    }
}

pub open spec fn opt_log_id_lt(a: Option<LogId>, b: Option<LogId>) -> bool {
    opt_log_id_le(a, b) && a != b
}

/// The index right after an optional log id: 0 when there is none.
pub open spec fn next_index_of(ol: Option<LogId>) -> int {
    match ol {
        Option::None => 0,
        Option::Some(l) => l.index + 1,
    }
}

/// Index of an optional log id, with `None` below every index.
pub open spec fn opt_index_le(a: Option<LogId>, b: Option<LogId>) -> bool {
    match (a, b) {
        (Option::None, _) => true,
        (Option::Some(_), Option::None) => false,
        (Option::Some(x), Option::Some(y)) => x.index <= y.index,
    }
}

impl LeaderId {
    pub fn new(term: u64, node_id: u64) -> (r: LeaderId)
        ensures
            r == (LeaderId { term, node_id }),
    {
        LeaderId { term, node_id }
    }

    pub fn le(&self, other: &LeaderId) -> (r: bool)
        ensures
            r == leader_le(*self, *other),
    {
        self.term < other.term || (self.term == other.term && self.node_id <= other.node_id)
    }
}

impl LogId {
    pub fn new(leader_id: LeaderId, index: u64) -> (r: LogId)
        ensures
            r == (LogId { leader_id, index }),
    {
        LogId { leader_id, index }
    }

    pub fn le(&self, other: &LogId) -> (r: bool)
        ensures
            r == log_id_le(*self, *other),
    {
        if self.leader_id.term != other.leader_id.term || self.leader_id.node_id
            != other.leader_id.node_id {
            self.leader_id.le(&other.leader_id)
        } else {
            self.index <= other.index
        }
    }

    pub fn lt(&self, other: &LogId) -> (r: bool)
        ensures
            r == log_id_lt(*self, *other),
    {
        self.le(other) && !(other.le(self))
    }
}

pub fn opt_le(a: &Option<LogId>, b: &Option<LogId>) -> (r: bool)
    ensures
        r == opt_log_id_le(*a, *b),
{
    match (a, b) {
        (Option::None, _) => true,
        (Option::Some(_), Option::None) => false,
        (Option::Some(x), Option::Some(y)) => x.le(y),
    }
}

pub fn opt_lt(a: &Option<LogId>, b: &Option<LogId>) -> (r: bool)
    ensures
        r == opt_log_id_lt(*a, *b),
{
    opt_le(a, b) && !opt_le(b, a)
}

/// The greater of two optional log ids.
pub open spec fn opt_max(a: Option<LogId>, b: Option<LogId>) -> Option<LogId> {
    if opt_log_id_le(a, b) {
        b
    } else {
        a
    }
}

/// The lesser of two optional log ids.
pub open spec fn opt_min(a: Option<LogId>, b: Option<LogId>) -> Option<LogId> {
    if opt_log_id_le(a, b) {
        a
    } else {
        b
    }
}

pub fn opt_max_exec(a: &Option<LogId>, b: &Option<LogId>) -> (r: Option<LogId>)
    ensures
        r == opt_max(*a, *b),
{
    if opt_le(a, b) {
        *b
    } else {
        *a
    }
}

pub fn opt_min_exec(a: &Option<LogId>, b: &Option<LogId>) -> (r: Option<LogId>)
    ensures
        r == opt_min(*a, *b),
{
    if opt_le(a, b) {
        *a
    } else {
        *b
    }
}

/// Compare optional log ids by index alone.
pub fn opt_index_le_exec(a: &Option<LogId>, b: &Option<LogId>) -> (r: bool)
    ensures
        r == opt_index_le(*a, *b),
{
    match (a, b) {
        (Option::None, _) => true,
        (Option::Some(_), Option::None) => false,
        (Option::Some(x), Option::Some(y)) => x.index <= y.index,
    }
}

/// The index right after an optional log id, as a machine integer.
pub fn next_index(ol: &Option<LogId>) -> (r: u64)
    requires
        next_index_of(*ol) <= u64::MAX,
    ensures
        r == next_index_of(*ol),
{
    match ol {
        Option::None => 0,
        Option::Some(l) => l.index + 1,
    }
}

} // verus!
