//! Whether this node is leading (candidate or leader) or following.

use vstd::prelude::*;
use crate::progress::Leader;

verus! {

/// The internal role of the node.  Candidate and leader share the
/// `Leading` state: both keep a vote tally and replication progress.
#[derive(Debug, PartialEq)]
pub enum InternalServerState {
    Leading(Leader),
    Following,
}

impl InternalServerState {
    pub open spec fn wf(self) -> bool {
        match self {
            InternalServerState::Leading(l) => l.wf(),
            InternalServerState::Following => true,
        }
    }

    pub fn is_leading(&self) -> (r: bool)
        ensures
            r == (*self is Leading),
    {
        match self {
            InternalServerState::Leading(_) => true,
            InternalServerState::Following => false,
        }
    }

    pub fn is_following(&self) -> (r: bool)
        ensures
            r == (*self is Following),
    {
        match self {
            InternalServerState::Leading(_) => false,
            InternalServerState::Following => true,
        }
    }

    /// The leading state, while the node is candidate or leader.
    pub fn leading(&self) -> (r: Option<&Leader>)
        ensures
            match *self {
                InternalServerState::Leading(l) => r matches Option::Some(x) && *x == l,
                InternalServerState::Following => r is None,
            },
    {
        match self {
            InternalServerState::Leading(l) => Option::Some(l),
            InternalServerState::Following => Option::None,
        }
    }
}

impl Default for InternalServerState {
    fn default() -> (r: InternalServerState)
        ensures
            r == InternalServerState::Following,
    {
        InternalServerState::Following
    }
}

} // verus!
