//! The state of one Raft node, validated by the contracts of the methods
//! that mutate it.

use vstd::prelude::*;
use crate::log_id::{leader_le, next_index_of, opt_log_id_le, opt_log_id_lt, opt_lt, LogId};
use crate::log_id_list::LogIdList;
use crate::membership::{EffectiveMembership, MembershipState};
use crate::message::Entry;
use crate::vote::Vote;

verus! {

/// The externally visible role of the node, derived from vote and
/// membership.
#[derive(Clone, Copy, PartialEq, Eq, Structural, Debug)]
pub enum ServerState {
    Learner,
    Follower,
    Candidate,
    Leader,
}

impl Default for ServerState {
    fn default() -> (r: ServerState)
        ensures
            r == ServerState::Learner,
    {
        ServerState::Learner
    }
}

/// What a snapshot covers: the last log id it includes, the membership at
/// that point, and an identifier chosen by the snapshot builder.
#[derive(Debug, PartialEq)]
pub struct SnapshotMeta {
    pub last_log_id: Option<LogId>,
    pub last_membership: EffectiveMembership,
    pub snapshot_id: String,
}

impl View for SnapshotMeta {
    type V = (Option<LogId>, <EffectiveMembership as View>::V, Seq<char>);

    open spec fn view(&self) -> Self::V {
        (self.last_log_id, self.last_membership@, self.snapshot_id@)
    }
}

impl Clone for SnapshotMeta {
    fn clone(&self) -> (r: Self)
        ensures
            r@ == self@,
    {
        SnapshotMeta {
            last_log_id: self.last_log_id,
            last_membership: self.last_membership.clone(),
            snapshot_id: self.snapshot_id.clone(),
        }
    }
}

/// The persistent and volatile state of one node.
#[derive(Debug, PartialEq)]
pub struct RaftState {
    /// The current vote, monotone over the node's lifetime.
    pub vote: Vote,
    /// The greatest log id known committed.
    pub committed: Option<LogId>,
    /// The index right after the last purged log id; 0 when nothing was
    /// ever purged.
    pub purged_next: u64,
    /// The compressed index of the log ids in the log.
    pub log_ids: LogIdList,
    /// The committed and the effective membership.
    pub membership_state: MembershipState,
    /// What the stored snapshot covers.
    pub snapshot_meta: SnapshotMeta,
    /// The derived role of the node.
    pub server_state: ServerState,
}

impl RaftState {
    pub open spec fn wf(self) -> bool {
        self.log_ids.wf()
    }

    pub open spec fn last_log_id_spec(self) -> Option<LogId> {
        self.log_ids.last_spec()
    }

    pub open spec fn last_purged_spec(self) -> Option<LogId> {
        if self.purged_next == 0 {
            Option::None
        } else {
            self.log_ids.first_spec()
        }
    }

    /// The standing coherence of a validated state, which every mutation
    /// preserves in a correctly driven node: the purged boundary lies at
    /// or below the committed index, the committed index within the log,
    /// the committed membership below the committed index, and an
    /// unpurged log starts at index 0.
    pub open spec fn log_coherent(self) -> bool {
        &&& next_index_of(self.last_purged_spec()) <= next_index_of(self.committed)
        &&& next_index_of(self.committed) <= next_index_of(self.last_log_id_spec())
        &&& match self.membership_state.committed.log_id {
            Option::Some(cl) => (cl.index as int) < next_index_of(self.committed),
            Option::None => true,
        }
        &&& self.purged_next == 0 && self.log_ids.key_log_ids@.len() > 0
            ==> self.log_ids.first_key_index_spec() == 0
    }

    /// A log id counts as present when its index is already committed, or
    /// when the log holds exactly this id at its index.
    pub open spec fn has_log_id_spec(self, log_id: LogId) -> bool {
        ||| (log_id.index as int) < next_index_of(self.committed)
        ||| self.log_ids.log_id_at(log_id.index as int) == Option::Some(log_id)
    }

    pub fn last_log_id(&self) -> (r: Option<LogId>)
        ensures
            r == self.last_log_id_spec(),
    {
        self.log_ids.last()
    }

    pub fn last_purged_log_id(&self) -> (r: Option<LogId>)
        ensures
            r == self.last_purged_spec(),
    {
        if self.purged_next == 0 {
            Option::None
        } else {
            self.log_ids.first()
        }
    }

    pub fn get_log_id(&self, index: u64) -> (r: Option<LogId>)
        requires
            self.wf(),
        ensures
            r == self.log_ids.log_id_at(index as int),
    {
        self.log_ids.get(index)
    }

    pub fn has_log_id(&self, log_id: &LogId) -> (r: bool)
        requires
            self.wf(),
        ensures
            r == self.has_log_id_spec(*log_id),
    {
        let committed_covers = match &self.committed {
            Option::None => false,
            Option::Some(c) => log_id.index <= c.index,
        };
        if committed_covers {
            return true;
        }
        match self.get_log_id(log_id.index) {
            Option::None => false,
            Option::Some(local) => local == *log_id,
        }
    }

    /// Advance the committed log id; it never moves backwards.  Returns
    /// the previous value when it advanced.
    pub fn update_committed(&mut self, committed: &Option<LogId>) -> (r: Option<Option<LogId>>)
        ensures
            *final(self) == (RaftState { committed: final(self).committed, ..*old(self) }),
            opt_log_id_lt(old(self).committed, *committed) ==> final(self).committed == *committed
                && r == Option::Some(old(self).committed),
            !opt_log_id_lt(old(self).committed, *committed) ==> final(self).committed == old(
                self,
            ).committed && r is None,
            opt_log_id_le(old(self).committed, final(self).committed),
    {
        if opt_lt(&self.committed, committed) {
            let prev = self.committed;
            self.committed = *committed;
            Option::Some(prev)
        } else {
            Option::None
        }
    }

    /// Append the log ids of `entries[since..]` to the log-id index.
    pub fn extend_log_ids(&mut self, entries: &Vec<Entry>, since: usize)
        requires
            old(self).wf(),
            since <= entries@.len(),
            forall|k: int|
                since <= k < entries@.len() - 1 ==> (#[trigger] entries@[k]).log_id.index + 1
                    == entries@[k + 1].log_id.index && leader_le(
                    entries@[k].log_id.leader_id,
                    entries@[k + 1].log_id.leader_id,
                ),
            since < entries@.len() ==> match old(self).last_log_id_spec() {
                Option::Some(l) => l.index < entries@[since as int].log_id.index && leader_le(
                    l.leader_id,
                    entries@[since as int].log_id.leader_id,
                ),
                Option::None => true,
            },
        ensures
            *final(self) == (RaftState { log_ids: final(self).log_ids, ..*old(self) }),
            final(self).wf(),
            forall|idx: int|
                old(self).log_ids.in_range(idx) ==> final(self).log_ids.log_id_at(idx) == old(
                    self,
                ).log_ids.log_id_at(idx),
            forall|k: int|
                since <= k < entries@.len() ==> final(self).log_ids.log_id_at(
                    (#[trigger] entries@[k]).log_id.index as int,
                ) == Option::Some(entries@[k].log_id),
            final(self).last_log_id_spec() == if since < entries@.len() {
                Option::Some(entries@.last().log_id)
            } else {
                old(self).last_log_id_spec()
            },
            final(self).log_ids.first_spec() == if old(self).log_ids.key_log_ids@.len() == 0
                && since < entries@.len() {
                Option::Some(entries@[since as int].log_id)
            } else {
                old(self).log_ids.first_spec()
            },
    {
        let n = entries.len();
        let mut i: usize = since;
        while i < n
            invariant
                *self == (RaftState { log_ids: self.log_ids, ..*old(self) }),
                self.wf(),
                n == entries@.len(),
                since <= i <= n,
                forall|k: int|
                    since <= k < entries@.len() - 1 ==> (#[trigger] entries@[k]).log_id.index + 1
                        == entries@[k + 1].log_id.index && leader_le(
                        entries@[k].log_id.leader_id,
                        entries@[k + 1].log_id.leader_id,
                    ),
                i > since ==> self.last_log_id_spec() == Option::Some(entries@[i - 1].log_id),
                i == since ==> self.log_ids == old(self).log_ids,
                since < n ==> match old(self).last_log_id_spec() {
                    Option::Some(l) => l.index < entries@[since as int].log_id.index && leader_le(
                        l.leader_id,
                        entries@[since as int].log_id.leader_id,
                    ),
                    Option::None => true,
                },
                forall|idx: int|
                    old(self).log_ids.in_range(idx) ==> self.log_ids.log_id_at(idx) == old(
                        self,
                    ).log_ids.log_id_at(idx),
                forall|k: int|
                    since <= k < i ==> self.log_ids.log_id_at(
                        (#[trigger] entries@[k]).log_id.index as int,
                    ) == Option::Some(entries@[k].log_id),
                self.log_ids.first_spec() == if old(self).log_ids.key_log_ids@.len() == 0 && i
                    > since {
                    Option::Some(entries@[since as int].log_id)
                } else {
                    old(self).log_ids.first_spec()
                },
            decreases n - i,
        {
            let ghost prev = self.log_ids;
            self.log_ids.append(entries[i].log_id);
            proof {
                assert forall|k: int|
                    since <= k < i implies self.log_ids.log_id_at(
                    (#[trigger] entries@[k]).log_id.index as int,
                ) == Option::Some(entries@[k].log_id) by {
                    assert(prev.in_range(entries@[k].log_id.index as int));
                }
            }
            i = i + 1;
        }
    }
}

} // verus!
