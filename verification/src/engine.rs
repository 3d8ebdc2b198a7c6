//! The Raft decision engine: a pure transition function from events over
//! the node's state to state changes and commands for the runtime.

use vstd::prelude::*;
use crate::command::{Command, EngineOutput, MetricsChangeFlags};
use crate::error::{InitializeError, NotAMembershipEntry, NotAllowed, NotInMembers, RejectVoteRequest};
use crate::internal_server_state::InternalServerState;
use crate::log_id::{leader_le, log_id_lt, next_index, next_index_of, opt_index_le, opt_le, opt_log_id_le, opt_log_id_lt, opt_lt, opt_max, opt_min, LeaderId, LogId};
use crate::log_id_list::LogIdList;
use crate::membership::{quorum_over, EffectiveMembership, Membership, MembershipState};
use crate::message::{AppendEntriesResponse, Entry, VoteRequest, VoteResponse};
use crate::progress::{entry_after_update, Leader, ProgressEntry};
use crate::raft_state::{RaftState, ServerState, SnapshotMeta};
use crate::vote::{vote_le, vote_lt, Vote};

verus! {

/// What the runtime is told when the server state moves from `was` to
/// `now`: entering leadership, leaving it, or nothing.
pub open spec fn server_transition_commands(was: ServerState, now: ServerState) -> Seq<Command> {
    if was != now {
        if now == ServerState::Leader {
            seq![Command::BecomeLeader]
        } else if was == ServerState::Leader {
            seq![Command::QuitLeader]
        } else {
            Seq::<Command>::empty()
        }
    } else {
        Seq::<Command>::empty()
    }
}

/// What becoming leader does, on top of `pre`: the vote is committed and
/// saved, the role change is announced, replication streams are rebuilt
/// towards every tracked member but this node, an empty entry is appended
/// under the new leadership and replicated, and — when a quorum already
/// matches it — committed at once.
pub open spec fn leader_established(pre: Engine, post: Engine) -> bool {
    let cv = Vote { committed: true, ..pre.state.vote };
    let blank = LogId {
        leader_id: LeaderId { term: pre.state.vote.term, node_id: pre.state.vote.node_id },
        index: next_index_of(pre.state.last_log_id_spec()) as u64,
    };
    &&& post.state.vote == cv
    &&& post.server_state_consistent()
    &&& post.state.last_log_id_spec() == Option::Some(blank)
    &&& exists|ts: Vec<(u64, ProgressEntry)>|
        #![trigger ts@]
        post.output.commands@ == pre.output.commands@ + seq![Command::SaveVote { vote: cv }]
            + server_transition_commands(
            pre.state.server_state,
            post.calc_server_state_spec(),
        ) + seq![Command::UpdateReplicationStreams { targets: ts }] + seq![
            Command::AppendBlankLog { log_id: blank },
        ] + (if post.state.committed != pre.state.committed {
            seq![
                Command::ReplicateCommitted { committed: post.state.committed },
                Command::LeaderCommit {
                    already_committed: pre.state.committed,
                    upto: post.state.committed->Some_0,
                },
            ]
        } else {
            Seq::<Command>::empty()
        }) + seq![Command::ReplicateEntries { upto: Option::Some(blank) }] && ts@
            == pre.internal_server_state->Leading_0.progress.entries@.filter(
            |e: (u64, ProgressEntry)| e.0 != pre.config.id,
        )
}

/// Static configuration of the engine.
#[derive(Clone, Copy, PartialEq, Eq, Structural, Debug)]
pub struct EngineConfig {
    /// The id of this node.
    pub id: u64,
    /// The number of logs already in the snapshot to keep before purging.
    pub max_in_snapshot_log_to_keep: u64,
    /// The minimal number of applied logs to purge in a batch.
    pub purge_batch_size: u64,
    /// The maximum number of entries per replication payload.
    pub max_payload_entries: u64,
}

impl Default for EngineConfig {
    fn default() -> (r: EngineConfig)
        ensures
            r == (EngineConfig {
                id: 0,
                max_in_snapshot_log_to_keep: 1000,
                purge_batch_size: 256,
                max_payload_entries: 300,
            }),
    {
        EngineConfig {
            id: 0,
            max_in_snapshot_log_to_keep: 1000,
            purge_batch_size: 256,
            max_payload_entries: 300,
        }
    }
}

/// The Raft protocol engine.
///
/// It implements the decisions of the Raft algorithm but performs none of
/// their effects itself: every effect is emitted as a [`Command`] into
/// `output`, for the runtime to execute in order.
#[derive(Debug, PartialEq)]
pub struct Engine {
    pub config: EngineConfig,
    /// The state of this node.
    pub state: RaftState,
    /// Whether the node is leading, with tally and progress, or following.
    pub internal_server_state: InternalServerState,
    /// The commands for the runtime.
    pub output: EngineOutput,
}

impl Default for Engine {
    fn default() -> (r: Engine)
        ensures
            r.config == (EngineConfig {
                id: 0,
                max_in_snapshot_log_to_keep: 1000,
                purge_batch_size: 256,
                max_payload_entries: 300,
            }),
            r.state.vote == (Vote { term: 0, node_id: 0, committed: false }),
            r.state.committed is None,
            r.state.purged_next == 0,
            r.state.log_ids.key_log_ids@ == Seq::<LogId>::empty(),
            r.state.membership_state.committed.log_id is None,
            r.state.membership_state.committed.membership.configs@ == Seq::<Vec<u64>>::empty(),
            r.state.membership_state.committed.membership.learners@ == Seq::<u64>::empty(),
            r.state.membership_state.effective.log_id is None,
            r.state.membership_state.effective.membership.configs@ == Seq::<Vec<u64>>::empty(),
            r.state.membership_state.effective.membership.learners@ == Seq::<u64>::empty(),
            r.state.snapshot_meta.last_log_id is None,
            r.state.snapshot_meta.snapshot_id@ == Seq::<char>::empty(),
            r.state.server_state == ServerState::Learner,
            r.internal_server_state == InternalServerState::Following,
            r.output.commands@ == Seq::<Command>::empty(),
            r.output.metrics_flags == (MetricsChangeFlags {
                replication: false,
                local_data: false,
                cluster: false,
            }),
            r.wf(),
    {
        let r = Engine {
            config: EngineConfig::default(),
            state: RaftState {
                vote: Vote::default(),
                committed: Option::None,
                purged_next: 0,
                log_ids: LogIdList { key_log_ids: Vec::new() },
                membership_state: MembershipState {
                    committed: EffectiveMembership {
                        log_id: Option::None,
                        membership: Membership { configs: Vec::new(), learners: Vec::new() },
                    },
                    effective: EffectiveMembership {
                        log_id: Option::None,
                        membership: Membership { configs: Vec::new(), learners: Vec::new() },
                    },
                },
                snapshot_meta: SnapshotMeta {
                    last_log_id: Option::None,
                    last_membership: EffectiveMembership {
                        log_id: Option::None,
                        membership: Membership { configs: Vec::new(), learners: Vec::new() },
                    },
                    snapshot_id: String::new(),
                },
                server_state: ServerState::Learner,
            },
            internal_server_state: InternalServerState::Following,
            output: EngineOutput::default(),
        };
        proof {
            assert(r.state.log_ids.key_log_ids@ =~= Seq::<LogId>::empty());
            assert(r.state.membership_state.committed.membership.configs@ =~= Seq::<
                Vec<u64>,
            >::empty());
            assert(r.state.membership_state.committed.membership.learners@ =~= Seq::<
                u64,
            >::empty());
            assert(r.state.membership_state.effective.membership.configs@ =~= Seq::<
                Vec<u64>,
            >::empty());
            assert(r.state.membership_state.effective.membership.learners@ =~= Seq::<
                u64,
            >::empty());
        }
        r
    }
}

impl Engine {
    /// Everything the engine's handlers keep intact: the log-id index is
    /// well-formed, a leading state is well-formed, and the memberships
    /// hold their node sets sorted.
    pub open spec fn wf(self) -> bool {
        &&& self.state.wf()
        &&& self.internal_server_state.wf()
        &&& self.state.membership_state.effective.membership.wf()
        &&& self.state.membership_state.committed.membership.wf()
    }

    /// The node is candidate or leader: the vote names this node.
    pub open spec fn is_leading_spec(self) -> bool {
        self.state.vote.node_id == self.config.id
    }

    /// The node is leader: its own vote is granted by a quorum.
    pub open spec fn is_leader_spec(self) -> bool {
        self.state.vote.node_id == self.config.id && self.state.vote.committed
    }

    pub open spec fn is_voter_spec(self) -> bool {
        self.state.membership_state.effective.membership.is_voter_spec(self.config.id)
    }

    /// The server state that vote and membership derive.
    pub open spec fn calc_server_state_spec(self) -> ServerState {
        if self.is_voter_spec() {
            if self.is_leader_spec() {
                ServerState::Leader
            } else if self.is_leading_spec() {
                ServerState::Candidate
            } else {
                ServerState::Follower
            }
        } else {
            ServerState::Learner
        }
    }

    /// The stored server state agrees with the derived one.
    pub open spec fn server_state_consistent(self) -> bool {
        self.state.server_state == self.calc_server_state_spec()
    }

    /// `post` leads with a freshly built leading state over `pre`'s
    /// effective membership: empty tally, and empty progress for every
    /// voter and learner, probing from the end of `pre`'s log.
    pub open spec fn fresh_leading_state(pre: Engine, post: Engine) -> bool {
        post.internal_server_state matches InternalServerState::Leading(l) && {
            &&& l.vote_granted_by@ == Seq::<u64>::empty()
            &&& l.progress.cview() == pre.state.membership_state.effective.membership@.0
            &&& forall|k: int|
                0 <= k < l.progress.entries@.len() ==> (#[trigger] l.progress.entries@[k]).1 == (
                ProgressEntry {
                    matching: Option::<LogId>::None,
                    searching_end: next_index_of(pre.state.last_log_id_spec()) as u64,
                })
            &&& forall|id: u64|
                l.progress.has_id(id)
                    <==> pre.state.membership_state.effective.membership.is_voter_spec(id)
                    || pre.state.membership_state.effective.membership.learners@.contains(id)
        }
    }

    pub fn new(init_state: RaftState, config: EngineConfig) -> (r: Engine)
        ensures
            r.config == config,
            r.state == init_state,
            r.internal_server_state == InternalServerState::Following,
            r.output.commands@ == Seq::<Command>::empty(),
            r.output.metrics_flags == (MetricsChangeFlags {
                replication: false,
                local_data: false,
                cluster: false,
            }),
    {
        Engine {
            config,
            state: init_state,
            internal_server_state: InternalServerState::Following,
            output: EngineOutput::default(),
        }
    }

    pub fn is_voter(&self) -> (r: bool)
        ensures
            r == self.is_voter_spec(),
    {
        self.state.membership_state.is_voter(self.config.id)
    }

    pub fn is_leading(&self) -> (r: bool)
        ensures
            r == self.is_leading_spec(),
    {
        self.state.vote.node_id == self.config.id
    }

    pub fn is_leader(&self) -> (r: bool)
        ensures
            r == self.is_leader_spec(),
    {
        self.state.vote.node_id == self.config.id && self.state.vote.committed
    }

    pub fn calc_server_state(&self) -> (r: ServerState)
        ensures
            r == self.calc_server_state_spec(),
    {
        if self.is_voter() {
            if self.is_leader() {
                ServerState::Leader
            } else if self.is_leading() {
                ServerState::Candidate
            } else {
                ServerState::Follower
            }
        } else {
            ServerState::Learner
        }
    }

    /// Recompute the server state; announce entering or leaving
    /// leadership to the runtime.
    fn update_server_state_if_changed(&mut self)
        ensures
            final(self).config == old(self).config,
            final(self).internal_server_state == old(self).internal_server_state,
            final(self).state == (RaftState {
                server_state: old(self).calc_server_state_spec(),
                ..old(self).state
            }),
            final(self).server_state_consistent(),
            final(self).output.commands@ == old(self).output.commands@
                + server_transition_commands(
                old(self).state.server_state,
                old(self).calc_server_state_spec(),
            ),
    {
        let server_state = self.calc_server_state();
        if self.state.server_state == server_state {
            proof {
                assert(self.output.commands@ =~= old(self).output.commands@ + Seq::<
                    Command,
                >::empty());
            }
            return;
        }
        let was_leader = match self.state.server_state {
            ServerState::Leader => true,
            _ => false,
        };
        let is_leader = match server_state {
            ServerState::Leader => true,
            _ => false,
        };
        if !was_leader && is_leader {
            self.output.push_command(Command::BecomeLeader);
            proof {
                assert(self.output.commands@ =~= old(self).output.commands@ + seq![
                    Command::BecomeLeader,
                ]);
            }
        } else if was_leader && !is_leader {
            self.output.push_command(Command::QuitLeader);
            proof {
                assert(self.output.commands@ =~= old(self).output.commands@ + seq![
                    Command::QuitLeader,
                ]);
            }
        } else {
            proof {
                assert(self.output.commands@ =~= old(self).output.commands@ + Seq::<
                    Command,
                >::empty());
            }
        }
        self.state.server_state = server_state;
    }

    /// Create a fresh leading state from the effective membership, as a
    /// node does when it enters candidate state.
    pub fn new_leader(&mut self)
        requires
            old(self).wf(),
            next_index_of(old(self).state.last_log_id_spec()) <= u64::MAX,
        ensures
            final(self).wf(),
            final(self).config == old(self).config,
            final(self).state == old(self).state,
            final(self).output == old(self).output,
            Engine::fresh_leading_state(*old(self), *final(self)),
    {
        let last = self.state.last_log_id();
        let end = next_index(&last);
        let leader = Leader::new(&self.state.membership_state.effective.membership, end);
        self.internal_server_state = InternalServerState::Leading(leader);
    }

    /// Enter leading state: the vote names this node.
    pub fn enter_leading(&mut self)
        requires
            old(self).wf(),
            old(self).state.vote.node_id == old(self).config.id,
            next_index_of(old(self).state.last_log_id_spec()) <= u64::MAX,
        ensures
            final(self).wf(),
            final(self).config == old(self).config,
            final(self).state == old(self).state,
            final(self).output == old(self).output,
            Engine::fresh_leading_state(*old(self), *final(self)),
    {
        self.new_leader();
    }

    /// Leave leading state and become follower or learner; an election
    /// timer is installed, with the long window when a leader exists.
    pub fn enter_following(&mut self)
        requires
            old(self).wf(),
        ensures
            final(self).wf(),
            final(self).config == old(self).config,
            final(self).internal_server_state == InternalServerState::Following,
            final(self).state == (RaftState {
                server_state: final(self).state.server_state,
                ..old(self).state
            }),
            final(self).state.server_state == if old(self).internal_server_state is Following {
                old(self).state.server_state
            } else {
                old(self).calc_server_state_spec()
            },
            old(self).internal_server_state !is Following ==> final(self).server_state_consistent(),
            final(self).output.commands@ == old(self).output.commands@ + seq![
                Command::InstallElectionTimer { can_be_leader: !old(self).state.vote.committed },
            ] + if old(self).internal_server_state !is Following {
                server_transition_commands(
                    old(self).state.server_state,
                    old(self).calc_server_state_spec(),
                )
            } else {
                Seq::<Command>::empty()
            },
    {
        let ghost c0 = self.output.commands@;
        if self.state.vote.committed {
            // A leader exists: do not start an election for a longer while.
            self.output.push_command(
                Command::InstallElectionTimer { can_be_leader: false },
            );
        } else {
            // An active candidate exists: wait only a short while.
            self.output.push_command(Command::InstallElectionTimer { can_be_leader: true });
        }
        if self.internal_server_state.is_following() {
            proof {
                assert(self.output.commands@ =~= old(self).output.commands@ + seq![
                    Command::InstallElectionTimer {
                        can_be_leader: !old(self).state.vote.committed,
                    },
                ]);
            }
            return;
        }
        proof {
            assert(self.output.commands@ =~= c0 + seq![
                Command::InstallElectionTimer { can_be_leader: !old(self).state.vote.committed },
            ]);
        }
        self.internal_server_state = InternalServerState::Following;
        self.update_server_state_if_changed();
    }

    /// Enter leading or following state, as the vote directs.
    pub fn switch_internal_server_state(&mut self)
        requires
            old(self).wf(),
            next_index_of(old(self).state.last_log_id_spec()) <= u64::MAX,
        ensures
            final(self).wf(),
            final(self).config == old(self).config,
            old(self).is_leading_spec() ==> Engine::fresh_leading_state(*old(self), *final(self))
                && final(self).state == old(self).state && final(self).output == old(self).output,
            !old(self).is_leading_spec() ==> {
                &&& final(self).internal_server_state == InternalServerState::Following
                &&& final(self).state == (RaftState {
                    server_state: final(self).state.server_state,
                    ..old(self).state
                })
                &&& final(self).state.server_state == (if old(self).internal_server_state is Following {
                    old(self).state.server_state
                } else {
                    final(self).calc_server_state_spec()
                })
                &&& final(self).output.commands@ == old(self).output.commands@ + seq![
                    Command::InstallElectionTimer {
                        can_be_leader: !old(self).state.vote.committed,
                    },
                ] + (if old(self).internal_server_state !is Following {
                    server_transition_commands(
                        old(self).state.server_state,
                        old(self).calc_server_state_spec(),
                    )
                } else {
                    Seq::<Command>::empty()
                })
                &&& old(self).output.commands@.is_prefix_of(final(self).output.commands@)
            },
    {
        if self.state.vote.node_id == self.config.id {
            self.enter_leading();
        } else {
            self.enter_following();
        }
    }

    /// Check and change the vote: grant when the given vote is at or above
    /// the current one, and switch the internal role accordingly.  The
    /// vote never decreases.
    pub fn handle_vote_change(&mut self, vote: &Vote) -> (r: Result<(), RejectVoteRequest>)
        requires
            old(self).wf(),
            next_index_of(old(self).state.last_log_id_spec()) <= u64::MAX,
        ensures
            final(self).wf(),
            final(self).config == old(self).config,
            vote_le(old(self).state.vote, final(self).state.vote),
            old(self).output.commands@.is_prefix_of(final(self).output.commands@),
            !vote_le(old(self).state.vote, *vote) ==> r == Result::<(), RejectVoteRequest>::Err(
                RejectVoteRequest::ByVote(old(self).state.vote),
            ) && *final(self) == *old(self),
            vote_le(old(self).state.vote, *vote) ==> {
                &&& r is Ok
                &&& final(self).state.vote == *vote
                &&& final(self).state == (RaftState {
                    vote: *vote,
                    server_state: final(self).state.server_state,
                    ..old(self).state
                })
                &&& (vote.node_id == old(self).config.id <==> final(self).internal_server_state is Leading)
                &&& (vote.node_id == old(self).config.id ==> Engine::fresh_leading_state(
                    *old(self),
                    *final(self),
                ))
                &&& (vote.node_id != old(self).config.id ==> final(self).state.server_state == (
                if old(self).internal_server_state is Following {
                    old(self).state.server_state
                } else {
                    final(self).calc_server_state_spec()
                }))
                &&& (vote.node_id == old(self).config.id ==> final(self).state.server_state == old(self).state.server_state)
            },
            vote_lt(old(self).state.vote, *vote) ==> final(self).output.commands@.len() > old(self).output.commands@.len() && final(self).output.commands@[old(self).output.commands@.len() as int] == (Command::SaveVote { vote: *vote }),
            vote_le(old(self).state.vote, *vote) && vote.node_id == old(self).config.id ==> final(self).output.commands@ == old(self).output.commands@ + if vote_lt(old(self).state.vote, *vote) {
                seq![Command::SaveVote { vote: *vote }]
            } else {
                Seq::<Command>::empty()
            },
            vote_le(old(self).state.vote, *vote) && vote.node_id != old(self).config.id ==> final(self).output.commands@ == old(self).output.commands@ + (if vote_lt(
                old(self).state.vote,
                *vote,
            ) {
                seq![Command::SaveVote { vote: *vote }]
            } else {
                Seq::<Command>::empty()
            }) + seq![Command::InstallElectionTimer { can_be_leader: !vote.committed }] + (if old(self).internal_server_state !is Following {
                server_transition_commands(
                    old(self).state.server_state,
                    final(self).calc_server_state_spec(),
                )
            } else {
                Seq::<Command>::empty()
            }),
    {
        if !self.state.vote.le(vote) {
            return Result::Err(RejectVoteRequest::ByVote(self.state.vote));
        }
        if self.state.vote.lt(vote) {
            self.state.vote = *vote;
            self.output.push_command(Command::SaveVote { vote: *vote });
        }
        let ghost c1 = self.output.commands@;
        self.switch_internal_server_state();
        proof {
            if vote.node_id != self.config.id {
                if vote_lt(old(self).state.vote, *vote) {
                    assert(c1 =~= old(self).output.commands@ + seq![
                        Command::SaveVote { vote: *vote },
                    ]);
                } else {
                    assert(c1 =~= old(self).output.commands@ + Seq::<Command>::empty());
                }
            }
            if vote.node_id == self.config.id {
                if vote_lt(old(self).state.vote, *vote) {
                    assert(self.output.commands@ =~= old(self).output.commands@ + seq![
                        Command::SaveVote { vote: *vote },
                    ]);
                } else {
                    assert(self.output.commands@ =~= old(self).output.commands@ + Seq::<
                        Command,
                    >::empty());
                }
            }
            if vote_lt(old(self).state.vote, *vote) {
                let n = old(self).output.commands@.len() as int;
                assert(c1[n] == (Command::SaveVote { vote: *vote }));
                if c1.is_prefix_of(self.output.commands@) {
                    assert(self.output.commands@.subrange(0, c1.len() as int)[n]
                        == self.output.commands@[n]);
                }
            }
        }
        Result::Ok(())
    }

    /// Mark the current vote committed — the moment a candidate becomes
    /// leader — and persist it.
    fn commit_vote(&mut self)
        ensures
            final(self).config == old(self).config,
            final(self).internal_server_state == old(self).internal_server_state,
            final(self).state == (RaftState {
                vote: Vote { committed: true, ..old(self).state.vote },
                ..old(self).state
            }),
            vote_le(old(self).state.vote, final(self).state.vote),
            final(self).output.commands@ == old(self).output.commands@.push(
                Command::SaveVote { vote: Vote { committed: true, ..old(self).state.vote } },
            ),
    {
        let vote = Vote {
            term: self.state.vote.term,
            node_id: self.state.vote.node_id,
            committed: true,
        };
        self.state.vote = vote;
        self.output.push_command(Command::SaveVote { vote });
    }

    /// Store the incoming snapshot description when it is strictly newer
    /// than the stored one; report whether it was.
    fn update_snapshot(&mut self, meta: &SnapshotMeta) -> (r: bool)
        ensures
            final(self).config == old(self).config,
            final(self).internal_server_state == old(self).internal_server_state,
            final(self).output == old(self).output,
            r == opt_log_id_lt(old(self).state.snapshot_meta.last_log_id, meta.last_log_id),
            r ==> final(self).state == (RaftState {
                snapshot_meta: final(self).state.snapshot_meta,
                ..old(self).state
            }) && final(self).state.snapshot_meta@ == meta@,
            !r ==> *final(self) == *old(self),
    {
        if opt_lt(&self.state.snapshot_meta.last_log_id, &meta.last_log_id) {
            self.state.snapshot_meta = meta.clone();
            true
        } else {
            false
        }
    }

    /// Tell the runtime which replication streams a leading node needs:
    /// one per tracked member besides itself.
    fn update_replications(&mut self)
        requires
            old(self).wf(),
        ensures
            final(self).wf(),
            final(self).config == old(self).config,
            final(self).state == old(self).state,
            final(self).internal_server_state == old(self).internal_server_state,
            old(self).internal_server_state is Following ==> final(self).output == old(self).output,
            old(self).internal_server_state matches InternalServerState::Leading(l) ==> exists|
                ts: Vec<(u64, ProgressEntry)>,
            |
                #![trigger ts@]
                final(self).output.commands@ == old(self).output.commands@.push(
                    Command::UpdateReplicationStreams { targets: ts },
                ) && ts@ == l.progress.entries@.filter(
                    |e: (u64, ProgressEntry)| e.0 != old(self).config.id,
                ),
    {
        let id = self.config.id;
        let mut targets: Vec<(u64, ProgressEntry)> = Vec::new();
        let is_leading: bool;
        match &self.internal_server_state {
            InternalServerState::Following => {
                is_leading = false;
            },
            InternalServerState::Leading(leader) => {
                is_leading = true;
                let n = leader.progress.entries.len();
                let mut i: usize = 0;
                while i < n
                    invariant
                        n == leader.progress.entries@.len(),
                        i <= n,
                        targets@ == leader.progress.entries@.take(i as int).filter(
                            |e: (u64, ProgressEntry)| e.0 != id,
                        ),
                    decreases n - i,
                {
                    proof {
                        reveal(Seq::filter);
                        assert(leader.progress.entries@.take(i + 1).drop_last()
                            =~= leader.progress.entries@.take(i as int));
                        assert(leader.progress.entries@.take(i + 1).last()
                            == leader.progress.entries@[i as int]);
                    }
                    let e = leader.progress.entries[i];
                    if e.0 != id {
                        targets.push(e);
                    }
                    i = i + 1;
                }
                proof {
                    assert(leader.progress.entries@.take(n as int) =~= leader.progress.entries@);
                }
            },
        }
        if is_leading {
            let ghost ts = targets;
            self.output.push_command(Command::UpdateReplicationStreams { targets });
            proof {
                assert(self.output.commands@ == old(self).output.commands@.push(
                    Command::UpdateReplicationStreams { targets: ts },
                ));
            }
        }
    }
}

impl Engine {
    /// Record a follower's replication progress and advance the committed
    /// log id when a quorum matches — but only when the quorum-matched log
    /// id carries the current leadership: entries of earlier terms commit
    /// transitively, never by count alone.
    pub fn update_progress(&mut self, node_id: u64, log_id: Option<LogId>)
        requires
            old(self).wf(),
            log_id matches Option::Some(l) && l.index < u64::MAX,
        ensures
            final(self).wf(),
            final(self).config == old(self).config,
            final(self).state == (RaftState {
                committed: final(self).state.committed,
                ..old(self).state
            }),
            opt_log_id_le(old(self).state.committed, final(self).state.committed),
            old(self).output.commands@.is_prefix_of(final(self).output.commands@),
            old(self).internal_server_state is Following ==> *final(self) == *old(self),
            (final(self).internal_server_state is Leading) == (old(self).internal_server_state is Leading),
            old(self).internal_server_state is Leading && !old(self).internal_server_state->Leading_0.progress.has_id(node_id) ==> *final(self) == *old(self),
            old(self).internal_server_state is Leading && old(self).internal_server_state->Leading_0.progress.has_id(node_id) ==> ({
                let l = old(self).internal_server_state->Leading_0;
                let l2 = final(self).internal_server_state->Leading_0;
                &&& l2.vote_granted_by == l.vote_granted_by
                &&& l2.progress.configs == l.progress.configs
                &&& l2.progress.entries@.len() == l.progress.entries@.len()
                &&& forall|k: int|
                    0 <= k < l.progress.entries@.len() && (#[trigger] l.progress.entries@[k]).0
                        != node_id ==> l2.progress.entries@[k] == l.progress.entries@[k]
                &&& forall|k: int|
                    0 <= k < l.progress.entries@.len() && (#[trigger] l.progress.entries@[k]).0
                        == node_id ==> l2.progress.entries@[k] == (
                    node_id,
                    entry_after_update(l.progress.entry_value(node_id), log_id),
                )
                &&& final(self).output.commands@ == old(self).output.commands@ + (if node_id
                    != old(self).config.id {
                    seq![
                        Command::UpdateReplicationMetrics {
                            target: node_id,
                            matching: log_id->Some_0,
                        },
                    ]
                } else {
                    Seq::<Command>::empty()
                }) + (if final(self).state.committed != old(self).state.committed {
                    seq![
                        Command::ReplicateCommitted { committed: final(self).state.committed },
                        Command::LeaderCommit {
                            already_committed: old(self).state.committed,
                            upto: final(self).state.committed->Some_0,
                        },
                    ]
                } else {
                    Seq::<Command>::empty()
                })
                &&& exists|co: Option<LogId>|
                    (#[trigger] l2.progress.is_committed_candidate(co)) && final(self).state.committed == (if co matches Option::Some(cc) && cc.leader_id == (LeaderId {
                        term: old(self).state.vote.term,
                        node_id: old(self).state.vote.node_id,
                    }) && opt_log_id_lt(old(self).state.committed, co) {
                        co
                    } else {
                        old(self).state.committed
                    })
            }),
            final(self).state.committed != old(self).state.committed ==> {
                &&& final(self).state.committed matches Option::Some(c) && c.leader_id == (
                LeaderId {
                    term: old(self).state.vote.term,
                    node_id: old(self).state.vote.node_id,
                })
                &&& final(self).internal_server_state matches InternalServerState::Leading(l)
                    && l.progress.quorum_granted_spec(final(self).state.committed->Some_0)
                &&& (old(self).internal_server_state->Leading_0.progress.cview() == old(self).state.membership_state.effective.membership@.0 ==> quorum_over(
                    old(self).state.membership_state.effective.membership@.0,
                    final(self).internal_server_state->Leading_0.progress.granted_ids(
                        final(self).state.committed->Some_0,
                    ),
                ))
            },
    {
        let committed_res: Option<LogId>;
        match &mut self.internal_server_state {
            InternalServerState::Following => {
                return ;
            },
            InternalServerState::Leading(leader) => {
                proof {
                    assert(old(self).internal_server_state->Leading_0 == *leader);
                }
                match leader.progress.try_get(node_id) {
                    Option::None => {
                        return ;
                    },
                    Option::Some(e0) => {
                        let mut e = e0;
                        e.update_matching(log_id);
                        match leader.progress.update(node_id, e) {
                            Result::Ok(c) => {
                                committed_res = c;
                            },
                            Result::Err(_) => {
                                return ;
                            },
                        }
                    },
                }
            },
        }
        let ghost urm_part: Seq<Command> = if node_id != self.config.id {
            seq![Command::UpdateReplicationMetrics { target: node_id, matching: log_id->Some_0 }]
        } else {
            Seq::<Command>::empty()
        };
        if node_id != self.config.id {
            match &log_id {
                Option::Some(m) => {
                    self.output.push_command(
                        Command::UpdateReplicationMetrics { target: node_id, matching: *m },
                    );
                },
                Option::None => {},
            }
        }
        // Only a log id proposed under the current leadership commits.
        match &committed_res {
            Option::Some(c) => {
                if c.leader_id.term != self.state.vote.term || c.leader_id.node_id
                    != self.state.vote.node_id {
                    proof {
                        assert(self.internal_server_state->Leading_0.progress.is_committed_candidate(
                            committed_res,
                        ));
                        assert(self.output.commands@ =~= old(self).output.commands@ + urm_part
                            + Seq::<Command>::empty());
                    }
                    return ;
                }
            },
            Option::None => {},
        }
        match self.state.update_committed(&committed_res) {
            Option::Some(prev) => {
                self.output.push_command(
                    Command::ReplicateCommitted { committed: self.state.committed },
                );
                match &self.state.committed {
                    Option::Some(upto) => {
                        self.output.push_command(
                            Command::LeaderCommit { already_committed: prev, upto: *upto },
                        );
                    },
                    Option::None => {},
                }
            },
            Option::None => {},
        }
        proof {
            if old(self).internal_server_state is Leading
                && old(self).internal_server_state->Leading_0.progress.has_id(node_id) {
                assert(self.internal_server_state->Leading_0.progress.is_committed_candidate(
                    committed_res,
                ));
                if self.state.committed != old(self).state.committed {
                    assert(self.output.commands@ =~= old(self).output.commands@ + urm_part + seq![
                        Command::ReplicateCommitted { committed: self.state.committed },
                        Command::LeaderCommit {
                            already_committed: old(self).state.committed,
                            upto: self.state.committed->Some_0,
                        },
                    ]);
                } else {
                    assert(self.output.commands@ =~= old(self).output.commands@ + urm_part + Seq::<
                        Command,
                    >::empty());
                }
            }
        }
    }

    /// Append an empty entry under the current leadership, to be able to
    /// commit the new term, and replicate it.
    fn append_blank_log(&mut self)
        requires
            old(self).wf(),
            next_index_of(old(self).state.last_log_id_spec()) < u64::MAX,
            old(self).state.last_log_id_spec() matches Option::Some(l) ==> leader_le(
                l.leader_id,
                LeaderId { term: old(self).state.vote.term, node_id: old(self).state.vote.node_id },
            ),
        ensures
            final(self).wf(),
            final(self).config == old(self).config,
            final(self).state.vote == old(self).state.vote,
            final(self).state.membership_state == old(self).state.membership_state,
            final(self).state.server_state == old(self).state.server_state,
            final(self).state.purged_next == old(self).state.purged_next,
            final(self).state.snapshot_meta == old(self).state.snapshot_meta,
            (final(self).internal_server_state is Leading) == (old(self).internal_server_state is Leading),
            opt_log_id_le(old(self).state.committed, final(self).state.committed),
            final(self).state.last_log_id_spec() == Option::Some(
                LogId {
                    leader_id: LeaderId {
                        term: old(self).state.vote.term,
                        node_id: old(self).state.vote.node_id,
                    },
                    index: next_index_of(old(self).state.last_log_id_spec()) as u64,
                },
            ),
            forall|idx: int|
                old(self).state.log_ids.in_range(idx) ==> final(self).state.log_ids.log_id_at(idx)
                    == old(self).state.log_ids.log_id_at(idx),
            old(self).output.commands@.is_prefix_of(final(self).output.commands@),
            old(self).internal_server_state matches InternalServerState::Leading(l) ==> final(self).internal_server_state matches InternalServerState::Leading(l2)
                && l2.vote_granted_by == l.vote_granted_by,
            final(self).output.commands@ == old(self).output.commands@ + seq![
                Command::AppendBlankLog {
                    log_id: LogId {
                        leader_id: LeaderId {
                            term: old(self).state.vote.term,
                            node_id: old(self).state.vote.node_id,
                        },
                        index: next_index_of(old(self).state.last_log_id_spec()) as u64,
                    },
                },
            ] + (if final(self).state.committed != old(self).state.committed {
                seq![
                    Command::ReplicateCommitted { committed: final(self).state.committed },
                    Command::LeaderCommit {
                        already_committed: old(self).state.committed,
                        upto: final(self).state.committed->Some_0,
                    },
                ]
            } else {
                Seq::<Command>::empty()
            }) + seq![
                Command::ReplicateEntries {
                    upto: Option::Some(
                        LogId {
                            leader_id: LeaderId {
                                term: old(self).state.vote.term,
                                node_id: old(self).state.vote.node_id,
                            },
                            index: next_index_of(old(self).state.last_log_id_spec()) as u64,
                        },
                    ),
                },
            ],
    {
        let last = self.state.last_log_id();
        let log_id = LogId::new(self.state.vote.leader_id(), next_index(&last));
        self.state.log_ids.append(log_id);
        self.output.push_command(Command::AppendBlankLog { log_id });
        let ghost c1 = self.output.commands@;
        self.update_progress(self.config.id, Option::Some(log_id));
        let ghost c2 = self.output.commands@;
        self.output.push_command(Command::ReplicateEntries { upto: Option::Some(log_id) });
        proof {
            let n = old(self).output.commands@.len() as int;
            crate::command::lemma_prefix_push(old(self).output.commands@, Command::AppendBlankLog { log_id });
            crate::command::lemma_prefix_push(c2, Command::ReplicateEntries { upto: Option::Some(log_id) });
            crate::command::lemma_prefix_trans(old(self).output.commands@, c1, c2);
            crate::command::lemma_prefix_trans(old(self).output.commands@, c2, self.output.commands@);
            crate::command::lemma_prefix_trans(c1, c2, self.output.commands@);
            assert(c1[n] == (Command::AppendBlankLog { log_id }));
            crate::command::lemma_prefix_index(c1, self.output.commands@, n);
            if self.state.committed != old(self).state.committed {
                assert(self.output.commands@ =~= old(self).output.commands@ + seq![
                    Command::AppendBlankLog { log_id },
                ] + seq![
                    Command::ReplicateCommitted { committed: self.state.committed },
                    Command::LeaderCommit {
                        already_committed: old(self).state.committed,
                        upto: self.state.committed->Some_0,
                    },
                ] + seq![Command::ReplicateEntries { upto: Option::Some(log_id) }]);
            } else {
                assert(self.output.commands@ =~= old(self).output.commands@ + seq![
                    Command::AppendBlankLog { log_id },
                ] + Seq::<Command>::empty() + seq![
                    Command::ReplicateEntries { upto: Option::Some(log_id) },
                ]);
            }
        }
    }

    /// The vote is granted by a quorum: become leader.  The new leadership
    /// is announced, replication streams are rebuilt, and an empty entry
    /// is appended under the new term.
    fn establish_leader(&mut self)
        requires
            old(self).wf(),
            old(self).internal_server_state is Leading,
            next_index_of(old(self).state.last_log_id_spec()) < u64::MAX,
            old(self).state.last_log_id_spec() matches Option::Some(l) ==> leader_le(
                l.leader_id,
                LeaderId { term: old(self).state.vote.term, node_id: old(self).state.vote.node_id },
            ),
        ensures
            final(self).wf(),
            final(self).config == old(self).config,
            final(self).state.vote == (Vote { committed: true, ..old(self).state.vote }),
            vote_le(old(self).state.vote, final(self).state.vote),
            final(self).state.membership_state == old(self).state.membership_state,
            final(self).state.purged_next == old(self).state.purged_next,
            final(self).state.snapshot_meta == old(self).state.snapshot_meta,
            (final(self).internal_server_state is Leading) == (old(self).internal_server_state is Leading),
            final(self).server_state_consistent(),
            opt_log_id_le(old(self).state.committed, final(self).state.committed),
            old(self).output.commands@.is_prefix_of(final(self).output.commands@),
            final(self).output.commands@.len() > old(self).output.commands@.len(),
            final(self).output.commands@[old(self).output.commands@.len() as int] == (
            Command::SaveVote { vote: Vote { committed: true, ..old(self).state.vote } }),
            final(self).state.last_log_id_spec() == Option::Some(
                LogId {
                    leader_id: LeaderId {
                        term: old(self).state.vote.term,
                        node_id: old(self).state.vote.node_id,
                    },
                    index: next_index_of(old(self).state.last_log_id_spec()) as u64,
                },
            ),
            old(self).internal_server_state matches InternalServerState::Leading(l) ==> final(self).internal_server_state matches InternalServerState::Leading(l2)
                && l2.vote_granted_by == l.vote_granted_by,
            leader_established(*old(self), *final(self)),
    {
        self.commit_vote();
        let ghost c1 = self.output.commands@;
        self.update_server_state_if_changed();
        let ghost c2 = self.output.commands@;
        self.update_replications();
        let ghost c3 = self.output.commands@;
        // Entries commit only once an entry of the current vote's term is
        // replicated to a quorum: append one.
        self.append_blank_log();
        proof {
            let n = old(self).output.commands@.len() as int;
            crate::command::lemma_prefix_push(
                old(self).output.commands@,
                Command::SaveVote { vote: Vote { committed: true, ..old(self).state.vote } },
            );
            crate::command::lemma_prefix_concat(c1, c2.skip(c1.len() as int));
            assert(c2 =~= c1 + c2.skip(c1.len() as int));
            if c2 == c3 {
                assert(c2.is_prefix_of(c3)) by {
                    assert(c2 =~= c3.subrange(0, c2.len() as int));
                }
            }
            crate::command::lemma_prefix_trans(old(self).output.commands@, c1, c2);
            crate::command::lemma_prefix_trans(old(self).output.commands@, c2, c3);
            crate::command::lemma_prefix_trans(old(self).output.commands@, c3, self.output.commands@);
            crate::command::lemma_prefix_trans(c1, c2, c3);
            crate::command::lemma_prefix_trans(c1, c3, self.output.commands@);
            assert(c1[n] == (Command::SaveVote {
                vote: Vote { committed: true, ..old(self).state.vote },
            }));
            crate::command::lemma_prefix_index(c1, self.output.commands@, n);
            let ts = choose|ts: Vec<(u64, ProgressEntry)>|
                #![trigger ts@]
                c3 == c2.push(Command::UpdateReplicationStreams { targets: ts }) && ts@
                    == old(self).internal_server_state->Leading_0.progress.entries@.filter(
                    |e: (u64, ProgressEntry)| e.0 != old(self).config.id,
                );
            let cv = Vote { committed: true, ..old(self).state.vote };
            let blank = LogId {
                leader_id: LeaderId {
                    term: old(self).state.vote.term,
                    node_id: old(self).state.vote.node_id,
                },
                index: next_index_of(old(self).state.last_log_id_spec()) as u64,
            };
            let stc = server_transition_commands(
                old(self).state.server_state,
                final(self).calc_server_state_spec(),
            );
            if self.state.committed != old(self).state.committed {
                assert(self.output.commands@ =~= old(self).output.commands@ + seq![
                    Command::SaveVote { vote: cv },
                ] + stc + seq![Command::UpdateReplicationStreams { targets: ts }] + seq![
                    Command::AppendBlankLog { log_id: blank },
                ] + seq![
                    Command::ReplicateCommitted { committed: self.state.committed },
                    Command::LeaderCommit {
                        already_committed: old(self).state.committed,
                        upto: self.state.committed->Some_0,
                    },
                ] + seq![Command::ReplicateEntries { upto: Option::Some(blank) }]);
            } else {
                assert(self.output.commands@ =~= old(self).output.commands@ + seq![
                    Command::SaveVote { vote: cv },
                ] + stc + seq![Command::UpdateReplicationStreams { targets: ts }] + seq![
                    Command::AppendBlankLog { log_id: blank },
                ] + Seq::<Command>::empty() + seq![
                    Command::ReplicateEntries { upto: Option::Some(blank) },
                ]);
            }
        }
    }

    /// Campaign to become leader: bump the vote to the next term naming
    /// this node, grant it locally, and either — with a single-voter
    /// quorum — become leader at once, or ask the other voters.
    pub fn elect(&mut self)
        requires
            old(self).wf(),
            old(self).state.vote.term < u64::MAX,
            next_index_of(old(self).state.last_log_id_spec()) < u64::MAX,
            old(self).state.membership_state.effective.membership.is_quorum_spec(
                seq![old(self).config.id],
            ) ==> (old(self).state.last_log_id_spec() matches Option::Some(l) ==> l.leader_id.term
                <= old(self).state.vote.term),
        ensures
            final(self).wf(),
            final(self).config == old(self).config,
            final(self).state.vote.term == old(self).state.vote.term + 1,
            final(self).state.vote.node_id == old(self).config.id,
            vote_le(old(self).state.vote, final(self).state.vote),
            final(self).state.vote.committed == old(self).state.membership_state.effective.membership.is_quorum_spec(
                seq![old(self).config.id],
            ),
            final(self).internal_server_state matches InternalServerState::Leading(l2) && (forall|
                x: u64,
            |
                l2.vote_granted_by@.contains(x) <==> x == old(self).config.id),
            old(self).state.membership_state.effective.membership.is_quorum_spec(
                seq![old(self).config.id],
            ) ==> final(self).state.last_log_id_spec() == Option::Some(
                LogId {
                    leader_id: LeaderId {
                        term: (old(self).state.vote.term + 1) as u64,
                        node_id: old(self).config.id,
                    },
                    index: next_index_of(old(self).state.last_log_id_spec()) as u64,
                },
            ),
            !old(self).state.membership_state.effective.membership.is_quorum_spec(
                seq![old(self).config.id],
            ) ==> final(self).state.log_ids == old(self).state.log_ids,
            final(self).server_state_consistent(),
            final(self).state.membership_state == old(self).state.membership_state,
            final(self).state.purged_next == old(self).state.purged_next,
            final(self).state.snapshot_meta == old(self).state.snapshot_meta,
            opt_log_id_le(old(self).state.committed, final(self).state.committed),
            old(self).output.commands@.is_prefix_of(final(self).output.commands@),
            final(self).output.commands@.len() > old(self).output.commands@.len(),
            final(self).output.commands@[old(self).output.commands@.len() as int] == (
            Command::SaveVote {
                vote: Vote {
                    term: (old(self).state.vote.term + 1) as u64,
                    node_id: old(self).config.id,
                    committed: false,
                },
            }),
            old(self).state.membership_state.effective.membership.is_quorum_spec(
                seq![old(self).config.id],
            ) ==> exists|ts: Vec<(u64, ProgressEntry)>|
                #![trigger ts@]
                final(self).output.commands@ == old(self).output.commands@ + seq![
                    Command::SaveVote {
                        vote: Vote {
                            term: (old(self).state.vote.term + 1) as u64,
                            node_id: old(self).config.id,
                            committed: false,
                        },
                    },
                ] + seq![
                    Command::SaveVote {
                        vote: Vote {
                            term: (old(self).state.vote.term + 1) as u64,
                            node_id: old(self).config.id,
                            committed: true,
                        },
                    },
                ] + server_transition_commands(
                    old(self).state.server_state,
                    final(self).calc_server_state_spec(),
                ) + seq![Command::UpdateReplicationStreams { targets: ts }] + seq![
                    Command::AppendBlankLog {
                        log_id: LogId {
                            leader_id: LeaderId {
                                term: (old(self).state.vote.term + 1) as u64,
                                node_id: old(self).config.id,
                            },
                            index: next_index_of(old(self).state.last_log_id_spec()) as u64,
                        },
                    },
                ] + (if final(self).state.committed != old(self).state.committed {
                    seq![
                        Command::ReplicateCommitted { committed: final(self).state.committed },
                        Command::LeaderCommit {
                            already_committed: old(self).state.committed,
                            upto: final(self).state.committed->Some_0,
                        },
                    ]
                } else {
                    Seq::<Command>::empty()
                }) + seq![
                    Command::ReplicateEntries {
                        upto: Option::Some(
                            LogId {
                                leader_id: LeaderId {
                                    term: (old(self).state.vote.term + 1) as u64,
                                    node_id: old(self).config.id,
                                },
                                index: next_index_of(old(self).state.last_log_id_spec()) as u64,
                            },
                        ),
                    },
                ],
            !old(self).state.membership_state.effective.membership.is_quorum_spec(
                seq![old(self).config.id],
            ) && old(self).state.server_state != ServerState::Leader ==> final(self).output.commands@ == old(self).output.commands@ + seq![
                Command::SaveVote {
                    vote: Vote {
                        term: (old(self).state.vote.term + 1) as u64,
                        node_id: old(self).config.id,
                        committed: false,
                    },
                },
                Command::SendVote {
                    vote_req: VoteRequest {
                        vote: Vote {
                            term: (old(self).state.vote.term + 1) as u64,
                            node_id: old(self).config.id,
                            committed: false,
                        },
                        last_log_id: old(self).state.last_log_id_spec(),
                    },
                },
                Command::InstallElectionTimer { can_be_leader: true },
            ],
    {
        let new_vote = Vote::new(self.state.vote.term + 1, self.config.id);
        let r = self.handle_vote_change(&new_vote);
        proof {
            assert(r is Ok);
        }
        let quorum_granted: bool;
        match &mut self.internal_server_state {
            InternalServerState::Leading(leader) => {
                leader.grant_vote_by(self.config.id);
                proof {
                    assert forall|x: u64|
                        leader.vote_granted_by@.contains(x) <==> seq![self.config.id].contains(
                            x,
                        ) by {
                        if x == self.config.id {
                            assert(seq![self.config.id][0] == x);
                        }
                    }
                    crate::membership::lemma_quorum_same_contains(
                        leader.progress.cview(),
                        leader.vote_granted_by@,
                        seq![self.config.id],
                    );
                }
                quorum_granted = leader.is_vote_granted();
            },
            InternalServerState::Following => {
                quorum_granted = false;
            },
        }
        if quorum_granted {
            // Fast path: a single-voter quorum grants at once.
            let ghost c1 = self.output.commands@;
            self.establish_leader();
            proof {
                let ts = choose|ts: Vec<(u64, ProgressEntry)>|
                    #![trigger ts@]
                    self.output.commands@ == c1 + seq![
                        Command::SaveVote { vote: self.state.vote },
                    ] + server_transition_commands(
                        old(self).state.server_state,
                        self.calc_server_state_spec(),
                    ) + seq![Command::UpdateReplicationStreams { targets: ts }] + seq![
                        Command::AppendBlankLog {
                            log_id: LogId {
                                leader_id: LeaderId {
                                    term: self.state.vote.term,
                                    node_id: old(self).config.id,
                                },
                                index: next_index_of(old(self).state.last_log_id_spec()) as u64,
                            },
                        },
                    ] + (if self.state.committed != old(self).state.committed {
                        seq![
                            Command::ReplicateCommitted { committed: self.state.committed },
                            Command::LeaderCommit {
                                already_committed: old(self).state.committed,
                                upto: self.state.committed->Some_0,
                            },
                        ]
                    } else {
                        Seq::<Command>::empty()
                    }) + seq![
                        Command::ReplicateEntries {
                            upto: Option::Some(
                                LogId {
                                    leader_id: LeaderId {
                                        term: self.state.vote.term,
                                        node_id: old(self).config.id,
                                    },
                                    index: next_index_of(
                                        old(self).state.last_log_id_spec(),
                                    ) as u64,
                                },
                            ),
                        },
                    ];
                assert(c1 == old(self).output.commands@ + seq![
                    Command::SaveVote {
                        vote: Vote {
                            term: (old(self).state.vote.term + 1) as u64,
                            node_id: old(self).config.id,
                            committed: false,
                        },
                    },
                ]);
                assert(self.output.commands@ =~= old(self).output.commands@ + seq![
                    Command::SaveVote {
                        vote: Vote {
                            term: (old(self).state.vote.term + 1) as u64,
                            node_id: old(self).config.id,
                            committed: false,
                        },
                    },
                ] + seq![
                    Command::SaveVote {
                        vote: Vote {
                            term: (old(self).state.vote.term + 1) as u64,
                            node_id: old(self).config.id,
                            committed: true,
                        },
                    },
                ] + server_transition_commands(
                    old(self).state.server_state,
                    self.calc_server_state_spec(),
                ) + seq![Command::UpdateReplicationStreams { targets: ts }] + seq![
                    Command::AppendBlankLog {
                        log_id: LogId {
                            leader_id: LeaderId {
                                term: (old(self).state.vote.term + 1) as u64,
                                node_id: old(self).config.id,
                            },
                            index: next_index_of(old(self).state.last_log_id_spec()) as u64,
                        },
                    },
                ] + (if self.state.committed != old(self).state.committed {
                    seq![
                        Command::ReplicateCommitted { committed: self.state.committed },
                        Command::LeaderCommit {
                            already_committed: old(self).state.committed,
                            upto: self.state.committed->Some_0,
                        },
                    ]
                } else {
                    Seq::<Command>::empty()
                }) + seq![
                    Command::ReplicateEntries {
                        upto: Option::Some(
                            LogId {
                                leader_id: LeaderId {
                                    term: (old(self).state.vote.term + 1) as u64,
                                    node_id: old(self).config.id,
                                },
                                index: next_index_of(old(self).state.last_log_id_spec()) as u64,
                            },
                        ),
                    },
                ]);
            }
            return ;
        }
        // Slow path: ask the other voters for the vote.
        let last = self.state.last_log_id();
        self.output.push_command(
            Command::SendVote { vote_req: VoteRequest::new(self.state.vote, last) },
        );
        self.update_server_state_if_changed();
        self.output.push_command(Command::InstallElectionTimer { can_be_leader: true });
        proof {
            if old(self).state.server_state != ServerState::Leader {
                assert(self.output.commands@ =~= old(self).output.commands@ + seq![
                    Command::SaveVote { vote: self.state.vote },
                    Command::SendVote {
                        vote_req: VoteRequest { vote: self.state.vote, last_log_id: last },
                    },
                    Command::InstallElectionTimer { can_be_leader: true },
                ]);
            }
        }
    }
}

/// When a node grants a vote request: the candidate's log must be at least
/// as long as ours, and its vote must be at or above ours.
pub open spec fn vote_request_granted(my_vote: Vote, my_last: Option<LogId>, req: VoteRequest) -> bool {
    opt_log_id_le(my_last, req.last_log_id) && vote_le(my_vote, req.vote)
}

/// Granting a vote request is idempotent: after a grant the engine holds
/// the request's vote and an unchanged log, and the identical request is
/// granted again.
pub proof fn lemma_vote_request_grant_idempotent(my_vote: Vote, my_last: Option<LogId>, req: VoteRequest)
    requires
        vote_request_granted(my_vote, my_last, req),
    ensures
        vote_request_granted(req.vote, my_last, req),
{
}

impl Engine {
    /// Answer a vote request.  The response carries the engine's vote
    /// after handling the request, so a candidate can tell which vote the
    /// grant was for.
    pub fn handle_vote_req(&mut self, req: VoteRequest) -> (r: VoteResponse)
        requires
            old(self).wf(),
            next_index_of(old(self).state.last_log_id_spec()) <= u64::MAX,
        ensures
            final(self).wf(),
            final(self).config == old(self).config,
            vote_le(old(self).state.vote, final(self).state.vote),
            final(self).state == (RaftState {
                vote: final(self).state.vote,
                server_state: final(self).state.server_state,
                ..old(self).state
            }),
            old(self).output.commands@.is_prefix_of(final(self).output.commands@),
            r.vote_granted == vote_request_granted(
                old(self).state.vote,
                old(self).state.last_log_id_spec(),
                req,
            ),
            r.vote_granted ==> final(self).state.vote == req.vote,
            !r.vote_granted ==> *final(self) == *old(self),
            r.vote == final(self).state.vote,
            r.last_log_id == old(self).state.last_log_id_spec(),
            r.vote_granted ==> ((req.vote.node_id == old(self).config.id) <==> final(self).internal_server_state is Leading),
            r.vote_granted ==> final(self).output.commands@ == old(self).output.commands@ + (if vote_lt(
                old(self).state.vote,
                req.vote,
            ) {
                seq![Command::SaveVote { vote: req.vote }]
            } else {
                Seq::<Command>::empty()
            }) + (if req.vote.node_id != old(self).config.id {
                seq![
                    Command::InstallElectionTimer { can_be_leader: !req.vote.committed },
                ] + (if old(self).internal_server_state !is Following {
                    server_transition_commands(
                        old(self).state.server_state,
                        final(self).calc_server_state_spec(),
                    )
                } else {
                    Seq::<Command>::empty()
                })
            } else {
                Seq::<Command>::empty()
            }),
    {
        let last = self.state.last_log_id();
        let vote_granted: bool;
        if opt_le(&last, &req.last_log_id) {
            match self.handle_vote_change(&req.vote) {
                Result::Ok(_) => {
                    vote_granted = true;
                },
                Result::Err(_) => {
                    vote_granted = false;
                },
            }
        } else {
            // Our log is newer than the candidate's: reject by last log id.
            vote_granted = false;
        }
        VoteResponse { vote: self.state.vote, vote_granted, last_log_id: self.state.last_log_id() }
    }

    /// Handle the answer to a vote request this node sent as candidate:
    /// count a grant towards the quorum and become leader when it is
    /// reached; on a rejection that carries a higher vote, adopt that
    /// vote and stop leading.
    pub fn handle_vote_resp(&mut self, target: u64, resp: VoteResponse)
        requires
            old(self).wf(),
            next_index_of(old(self).state.last_log_id_spec()) < u64::MAX,
            old(self).state.last_log_id_spec() matches Option::Some(l) ==> leader_le(
                l.leader_id,
                LeaderId { term: old(self).state.vote.term, node_id: old(self).state.vote.node_id },
            ),
        ensures
            final(self).wf(),
            final(self).config == old(self).config,
            old(self).internal_server_state is Following ==> *final(self) == *old(self),
            vote_le(old(self).state.vote, final(self).state.vote),
            opt_log_id_le(old(self).state.committed, final(self).state.committed),
            old(self).output.commands@.is_prefix_of(final(self).output.commands@),
            resp.vote_granted ==> final(self).state.vote.term == old(self).state.vote.term
                && final(self).state.vote.node_id == old(self).state.vote.node_id,
            old(self).server_state_consistent() ==> final(self).server_state_consistent(),
            old(self).internal_server_state is Leading && resp.vote_granted ==> ({
                let l = old(self).internal_server_state->Leading_0;
                &&& final(self).internal_server_state is Leading
                &&& (forall|x: u64|
                    final(self).internal_server_state->Leading_0.vote_granted_by@.contains(x)
                        <==> l.vote_granted_by@.contains(x) || x == target)
                &&& (quorum_over(
                    l.progress.cview(),
                    l.vote_granted_by@.push(target),
                ) ==> leader_established(*old(self), *final(self)))
                &&& (!quorum_over(l.progress.cview(), l.vote_granted_by@.push(target)) ==> final(self).state == old(self).state && final(self).output == old(self).output)
            }),
            old(self).internal_server_state is Leading && !resp.vote_granted ==> {
                &&& final(self).state.vote == if vote_lt(old(self).state.vote, resp.vote) {
                    resp.vote
                } else {
                    old(self).state.vote
                }
                &&& final(self).internal_server_state == (if vote_lt(
                    old(self).state.vote,
                    resp.vote,
                ) {
                    InternalServerState::Following
                } else {
                    old(self).internal_server_state
                })
                &&& final(self).output.commands@ == old(self).output.commands@ + (if vote_lt(
                    old(self).state.vote,
                    resp.vote,
                ) {
                    seq![Command::SaveVote { vote: resp.vote }] + server_transition_commands(
                        old(self).state.server_state,
                        final(self).calc_server_state_spec(),
                    )
                } else {
                    Seq::<Command>::empty()
                }) + seq![
                    Command::InstallElectionTimer {
                        can_be_leader: !opt_log_id_lt(
                            old(self).state.last_log_id_spec(),
                            resp.last_log_id,
                        ),
                    },
                ]
            },
    {
        let quorum_granted: bool;
        match &mut self.internal_server_state {
            InternalServerState::Following => {
                // No longer electing: a delayed response is ignored.
                return ;
            },
            InternalServerState::Leading(leader) => {
                if resp.vote_granted {
                    proof {
                        assert(old(self).internal_server_state->Leading_0 == *leader);
                    }
                    let ghost tally0 = leader.vote_granted_by@;
                    leader.grant_vote_by(target);
                    proof {
                        assert forall|x: u64|
                            leader.vote_granted_by@.contains(x) <==> tally0.push(target).contains(
                                x,
                            ) by {
                            if tally0.contains(x) {
                                let k = choose|k: int| 0 <= k < tally0.len() && tally0[k] == x;
                                assert(tally0.push(target)[k] == x);
                            }
                            if x == target {
                                assert(tally0.push(target)[tally0.len() as int] == x);
                            }
                            if tally0.push(target).contains(x) {
                                let k = choose|k: int|
                                    0 <= k < tally0.push(target).len() && tally0.push(target)[k]
                                        == x;
                                if k < tally0.len() {
                                    assert(tally0[k] == x);
                                }
                            }
                        }
                        crate::membership::lemma_quorum_same_contains(
                            leader.progress.cview(),
                            leader.vote_granted_by@,
                            tally0.push(target),
                        );
                    }
                    quorum_granted = leader.is_vote_granted();
                } else {
                    quorum_granted = false;
                }
            },
        }
        if resp.vote_granted {
            if quorum_granted {
                self.establish_leader();
            }
            return ;
        }
        // The vote was rejected.  A peer with a higher vote turns this
        // node back into a follower of that vote: the candidacy ends.
        if self.state.vote.lt(&resp.vote) {
            self.state.vote = resp.vote;
            self.output.push_command(Command::SaveVote { vote: resp.vote });
            self.internal_server_state = InternalServerState::Following;
            self.update_server_state_if_changed();
        }
        // A peer with a newer log means this candidate cannot win: wait
        // with the long window.
        let ghost c1 = self.output.commands@;
        let last = self.state.last_log_id();
        if opt_lt(&last, &resp.last_log_id) {
            self.output.push_command(Command::InstallElectionTimer { can_be_leader: false });
        } else {
            self.output.push_command(Command::InstallElectionTimer { can_be_leader: true });
        }
        proof {
            let timer = Command::InstallElectionTimer {
                can_be_leader: !opt_log_id_lt(old(self).state.last_log_id_spec(), resp.last_log_id),
            };
            if vote_lt(old(self).state.vote, resp.vote) {
                assert(c1 =~= old(self).output.commands@ + seq![
                    Command::SaveVote { vote: resp.vote },
                ] + server_transition_commands(
                    old(self).state.server_state,
                    self.calc_server_state_spec(),
                ));
                assert(self.output.commands@ =~= old(self).output.commands@ + (seq![
                    Command::SaveVote { vote: resp.vote },
                ] + server_transition_commands(
                    old(self).state.server_state,
                    self.calc_server_state_spec(),
                )) + seq![timer]);
            } else {
                assert(self.output.commands@ =~= old(self).output.commands@ + Seq::<
                    Command,
                >::empty() + seq![timer]);
            }
        }
    }
}

impl Engine {
    /// Replace the effective membership by one found at `log_id`; while
    /// leading, rebuild the replication progress for the new quorum set,
    /// carrying the progress of members that stay.
    pub fn update_effective_membership(&mut self, log_id: &LogId, m: &Membership)
        requires
            old(self).wf(),
            m.wf(),
            next_index_of(old(self).state.last_log_id_spec()) <= u64::MAX,
        ensures
            final(self).wf(),
            final(self).config == old(self).config,
            final(self).state.membership_state.effective.log_id == Option::Some(*log_id),
            final(self).state.membership_state.effective.membership@ == m@,
            final(self).state.membership_state.committed == old(self).state.membership_state.committed,
            final(self).state.vote == old(self).state.vote,
            final(self).state.committed == old(self).state.committed,
            final(self).state.purged_next == old(self).state.purged_next,
            final(self).state.log_ids == old(self).state.log_ids,
            final(self).state.snapshot_meta == old(self).state.snapshot_meta,
            old(self).state.server_state == ServerState::Leader ==> final(self).state.server_state
                == ServerState::Leader,
            old(self).state.server_state != ServerState::Leader ==> final(self).server_state_consistent(),
            old(self).output.commands@.is_prefix_of(final(self).output.commands@),
            final(self).output.commands@.len() > old(self).output.commands@.len(),
            final(self).output.commands@[old(self).output.commands@.len() as int] matches
                Command::UpdateMembership { membership } && membership@ == (
                Option::Some(*log_id),
                m@,
            ),
            old(self).is_leader_spec() && old(self).internal_server_state is Leading ==> exists|
                em: EffectiveMembership,
                ts: Vec<(u64, ProgressEntry)>,
            |
                #![trigger em@, ts@]
                final(self).output.commands@ == old(self).output.commands@ + seq![
                    Command::UpdateMembership { membership: em },
                ] + seq![Command::UpdateReplicationStreams { targets: ts }] + (if old(self).state.server_state != ServerState::Leader {
                    server_transition_commands(
                        old(self).state.server_state,
                        final(self).calc_server_state_spec(),
                    )
                } else {
                    Seq::<Command>::empty()
                }) && em@ == (Option::Some(*log_id), m@) && ts@ == final(self).internal_server_state->Leading_0.progress.entries@.filter(
                    |e: (u64, ProgressEntry)| e.0 != old(self).config.id,
                ),
            !(old(self).is_leader_spec() && old(self).internal_server_state is Leading) ==> exists|
                em: EffectiveMembership,
            |
                #![trigger em@]
                final(self).output.commands@ == old(self).output.commands@ + seq![
                    Command::UpdateMembership { membership: em },
                ] + (if old(self).state.server_state != ServerState::Leader {
                    server_transition_commands(
                        old(self).state.server_state,
                        final(self).calc_server_state_spec(),
                    )
                } else {
                    Seq::<Command>::empty()
                }) && em@ == (Option::Some(*log_id), m@),
            (final(self).internal_server_state is Leading) == (old(self).internal_server_state is Leading),
            old(self).internal_server_state matches InternalServerState::Leading(l) ==> final(self).internal_server_state matches InternalServerState::Leading(l2) && {
                &&& l2.vote_granted_by == l.vote_granted_by
                &&& l2.progress.cview() == m@.0
                &&& forall|k: int|
                    0 <= k < l2.progress.entries@.len() ==> (#[trigger] l2.progress.entries@[k]).1
                        == if l.progress.has_id(l2.progress.entries@[k].0) {
                        l.progress.entry_value(l2.progress.entries@[k].0)
                    } else {
                        ProgressEntry {
                            matching: Option::<LogId>::None,
                            searching_end: next_index_of(old(self).state.last_log_id_spec()) as u64,
                        }
                    }
                &&& forall|id: u64|
                    l2.progress.has_id(id) <==> m.is_voter_spec(id) || (m.learners@.contains(id)
                        && !m.is_voter_spec(id))
            },
    {
        let em = EffectiveMembership::new(Option::Some(*log_id), m.clone());
        self.state.membership_state.effective = em;
        proof {
            crate::membership::lemma_membership_wf_from_view(
                *m,
                self.state.membership_state.effective.membership,
            );
        }
        let em_cmd = self.state.membership_state.effective.clone();
        let ghost em_pushed = em_cmd;
        self.output.push_command(Command::UpdateMembership { membership: em_cmd });
        let ghost c1 = self.output.commands@;
        let last = self.state.last_log_id();
        let end = next_index(&last);
        // While leading, the progress must follow the new quorum set.
        let new_configs = crate::membership::clone_configs(&m.configs);
        let learner_ids = m.learner_ids();
        proof {
            crate::membership::lemma_filter_non_voters(*m, m.learners@);
            assert forall|j: int, k: int|
                0 <= j < learner_ids@.len() && 0 <= k < new_configs@.len() implies !(
            #[trigger] new_configs@[k]@).contains(#[trigger] learner_ids@[j]) by {
                assert(learner_ids@.contains(learner_ids@[j]));
                assert(!m.is_voter_spec(learner_ids@[j]));
                assert(new_configs@[k]@ == m.configs@[k]@);
                if m.configs@[k]@.contains(learner_ids@[j]) {
                    assert(m.is_voter_spec(learner_ids@[j]));
                }
            }
        }
        match &mut self.internal_server_state {
            InternalServerState::Leading(leader) => {
                let upgraded = leader.progress.upgrade_quorum_set(
                    new_configs,
                    &learner_ids,
                    ProgressEntry::empty(end),
                );
                leader.progress = upgraded;
                proof {
                    assert forall|id: u64|
                        leader.progress.has_id(id) <==> m.is_voter_spec(id) || (
                        m.learners@.contains(id) && !m.is_voter_spec(id)) by {
                        if m.is_voter_spec(id) {
                            let k = choose|k: int|
                                0 <= k < m.configs@.len() && (#[trigger] m.configs@[k]@).contains(
                                    id,
                                );
                            assert(leader.progress.configs@[k]@.contains(id));
                        }
                        if leader.progress.has_id(id) {
                        }
                    }
                }
            },
            InternalServerState::Following => {},
        }
        // A removed leader must not quit yet: it keeps replicating until
        // the membership that removes it is committed.
        let was_leader = self.is_leader();
        if was_leader {
            self.update_replications();
        }
        let ghost c2 = self.output.commands@;
        if !matches!(self.state.server_state, ServerState::Leader) {
            self.update_server_state_if_changed();
        }
        proof {
            let c0 = old(self).output.commands@;
            let n = c0.len() as int;
            crate::command::lemma_prefix_push(c0, c1[n]);
            if c2 == c1 {
                assert(c1.is_prefix_of(c2)) by {
                    assert(c1 =~= c2.subrange(0, c1.len() as int));
                }
            }
            crate::command::lemma_prefix_concat(c2, self.output.commands@.skip(c2.len() as int));
            assert(c2 + self.output.commands@.skip(c2.len() as int) =~= self.output.commands@);
            crate::command::lemma_prefix_trans(c0, c1, c2);
            crate::command::lemma_prefix_trans(c0, c2, self.output.commands@);
            crate::command::lemma_prefix_trans(c1, c2, self.output.commands@);
            crate::command::lemma_prefix_index(c1, self.output.commands@, n);
            assert(self.output.commands@[n] matches Command::UpdateMembership { membership }
                && membership@ == (Option::Some(*log_id), m@));
            let srv_part: Seq<Command> = if old(self).state.server_state != ServerState::Leader {
                server_transition_commands(
                    old(self).state.server_state,
                    self.calc_server_state_spec(),
                )
            } else {
                Seq::<Command>::empty()
            };
            if old(self).is_leader_spec() && old(self).internal_server_state is Leading {
                let ts = choose|ts: Vec<(u64, ProgressEntry)>|
                    #![trigger ts@]
                    c2 == c1.push(Command::UpdateReplicationStreams { targets: ts }) && ts@
                        == self.internal_server_state->Leading_0.progress.entries@.filter(
                        |e: (u64, ProgressEntry)| e.0 != old(self).config.id,
                    );
                assert(self.output.commands@ =~= c0 + seq![
                    Command::UpdateMembership { membership: em_pushed },
                ] + seq![Command::UpdateReplicationStreams { targets: ts }] + srv_part);
            } else {
                assert(c2 == c1);
                assert(self.output.commands@ =~= c0 + seq![
                    Command::UpdateMembership { membership: em_pushed },
                ] + srv_part);
            }
        }
    }

    /// Take over a committed membership — from a snapshot — into the
    /// membership state: it replaces the committed one when newer, and the
    /// effective one when its log index is at least the effective's.
    ///
    /// The effective side compares by log index alone, because a local
    /// effective membership from a conflicting log can carry a higher log
    /// id at a lower index; in that corner the new committed membership's
    /// log id can end up above the kept effective one's.
    pub fn update_committed_membership(&mut self, membership: EffectiveMembership)
        requires
            old(self).wf(),
            membership.membership.wf(),
        ensures
            final(self).wf(),
            final(self).config == old(self).config,
            final(self).internal_server_state == old(self).internal_server_state,
            final(self).state.vote == old(self).state.vote,
            final(self).state.committed == old(self).state.committed,
            final(self).state.purged_next == old(self).state.purged_next,
            final(self).state.log_ids == old(self).state.log_ids,
            final(self).state.snapshot_meta == old(self).state.snapshot_meta,
            final(self).state.membership_state.committed@ == if opt_log_id_lt(
                old(self).state.membership_state.committed.log_id,
                membership.log_id,
            ) {
                membership@
            } else {
                old(self).state.membership_state.committed@
            },
            final(self).state.membership_state.effective@ == if opt_index_le(
                old(self).state.membership_state.effective.log_id,
                membership.log_id,
            ) {
                membership@
            } else {
                old(self).state.membership_state.effective@
            },
            final(self).server_state_consistent(),
            old(self).output.commands@.is_prefix_of(final(self).output.commands@),
            opt_index_le(old(self).state.membership_state.effective.log_id, membership.log_id)
                && old(self).state.membership_state.effective@ != membership@ ==> exists|
                em: EffectiveMembership,
            |
                #![trigger em@]
                final(self).output.commands@ == old(self).output.commands@ + seq![
                    Command::UpdateMembership { membership: em },
                ] + server_transition_commands(
                    old(self).state.server_state,
                    final(self).calc_server_state_spec(),
                ) && em@ == membership@,
            !(opt_index_le(old(self).state.membership_state.effective.log_id, membership.log_id)
                && old(self).state.membership_state.effective@ != membership@) ==> final(self).output.commands@ == old(self).output.commands@ + server_transition_commands(
                old(self).state.server_state,
                final(self).calc_server_state_spec(),
            ),
    {
        let replace_committed = opt_lt(
            &self.state.membership_state.committed.log_id,
            &membership.log_id,
        );
        // The local effective membership may conflict with the leader's,
        // so it is compared by log index, not by log id.
        let replace_effective = crate::log_id::opt_index_le_exec(
            &self.state.membership_state.effective.log_id,
            &membership.log_id,
        );
        let effective_changed = replace_effective && !(self.state.membership_state.effective
            == membership);
        if replace_committed {
            self.state.membership_state.committed = membership.clone();
            proof {
                crate::membership::lemma_membership_wf_from_view(
                    membership.membership,
                    self.state.membership_state.committed.membership,
                );
            }
        }
        if replace_effective {
            self.state.membership_state.effective = membership.clone();
            proof {
                crate::membership::lemma_membership_wf_from_view(
                    membership.membership,
                    self.state.membership_state.effective.membership,
                );
            }
        }
        if effective_changed {
            let em_cmd = membership.clone();
            let ghost em_pushed = em_cmd;
            self.output.push_command(Command::UpdateMembership { membership: em_cmd });
            proof {
                assert(self.output.commands@ =~= old(self).output.commands@ + seq![
                    Command::UpdateMembership { membership: em_pushed },
                ]);
            }
        }
        self.update_server_state_if_changed();
        proof {
            if !effective_changed {
                assert(self.output.commands@ =~= old(self).output.commands@
                    + server_transition_commands(
                    old(self).state.server_state,
                    self.calc_server_state_spec(),
                ));
            }
        }
    }
}

impl Engine {
    /// Initializing is allowed only on a node without any log whose vote
    /// is still the minimal one.
    fn check_initialize(&self) -> (r: Result<(), NotAllowed>)
        ensures
            r is Ok <==> (self.state.last_log_id_spec() is None && self.state.vote == (Vote {
                term: 0,
                node_id: 0,
                committed: false,
            })),
            r matches Result::Err(e) ==> e == (NotAllowed {
                last_log_id: self.state.last_log_id_spec(),
                vote: self.state.vote,
            }),
    {
        let last = self.state.last_log_id();
        let default_vote = Vote::default();
        let is_none = match &last {
            Option::None => true,
            Option::Some(_) => false,
        };
        if is_none && self.state.vote == default_vote {
            Result::Ok(())
        } else {
            Result::Err(NotAllowed { last_log_id: last, vote: self.state.vote })
        }
    }

    /// The node that accepts an initialize request must be a voter of the
    /// initial membership.
    fn check_members_contain_me(&self, m: &Membership) -> (r: Result<(), NotInMembers>)
        ensures
            r is Ok <==> m.is_voter_spec(self.config.id),
            r matches Result::Err(e) ==> e.node_id == self.config.id && e.membership@ == m@,
    {
        if !m.is_voter(self.config.id) {
            Result::Err(NotInMembers { node_id: self.config.id, membership: m.clone() })
        } else {
            Result::Ok(())
        }
    }

    /// Give the input entries contiguous log ids under the current vote's
    /// leadership, starting right after the last log id.
    fn assign_log_ids(&self, entries: &mut Vec<Entry>)
        requires
            next_index_of(self.state.last_log_id_spec()) + old(entries)@.len() <= u64::MAX,
        ensures
            final(entries)@.len() == old(entries)@.len(),
            forall|k: int|
                0 <= k < old(entries)@.len() ==> (#[trigger] final(entries)@[k]) == (Entry {
                    log_id: LogId {
                        leader_id: LeaderId {
                            term: self.state.vote.term,
                            node_id: self.state.vote.node_id,
                        },
                        index: (next_index_of(self.state.last_log_id_spec()) + k) as u64,
                    },
                    payload: old(entries)@[k].payload,
                }),
    {
        let last = self.state.last_log_id();
        let start = next_index(&last);
        let leader_id = self.state.vote.leader_id();
        let n = entries.len();
        let mut i: usize = 0;
        while i < n
            invariant
                n == entries@.len(),
                n == old(entries)@.len(),
                i <= n,
                start == next_index_of(self.state.last_log_id_spec()),
                start + n <= u64::MAX,
                leader_id == (LeaderId {
                    term: self.state.vote.term,
                    node_id: self.state.vote.node_id,
                }),
                forall|k: int|
                    i <= k < n ==> (#[trigger] entries@[k]).payload == old(entries)@[k].payload,
                forall|k: int|
                    0 <= k < i ==> (#[trigger] entries@[k]) == (Entry {
                        log_id: LogId { leader_id, index: (start + k) as u64 },
                        payload: old(entries)@[k].payload,
                    }),
            decreases n - i,
        {
            let log_id = LogId::new(leader_id, start + (i as u64));
            let e = &mut entries[i];
            e.set_log_id(&log_id);
            i = i + 1;
        }
    }

    /// Take over a membership from a membership entry, if it is one.
    fn try_update_membership(&mut self, entry: &Entry)
        requires
            old(self).wf(),
            entry.membership_spec() matches Option::Some(m) ==> m.wf(),
            next_index_of(old(self).state.last_log_id_spec()) <= u64::MAX,
        ensures
            final(self).wf(),
            final(self).config == old(self).config,
            entry.membership_spec() is None ==> *final(self) == *old(self),
            old(self).output.commands@.is_prefix_of(final(self).output.commands@),
            entry.membership_spec() matches Option::Some(m) ==> {
                &&& final(self).state.membership_state.effective.log_id == Option::Some(
                    entry.log_id,
                )
                &&& final(self).state.membership_state.effective.membership@ == m@
                &&& final(self).state == (RaftState {
                    membership_state: final(self).state.membership_state,
                    server_state: final(self).state.server_state,
                    ..old(self).state
                })
                &&& final(self).state.membership_state.committed == old(self).state.membership_state.committed
                &&& old(self).state.server_state != ServerState::Leader ==> final(self).server_state_consistent()
                &&& (!(old(self).is_leader_spec() && old(self).internal_server_state is Leading)
                    ==> exists|em: EffectiveMembership|
                    #![trigger em@]
                    final(self).output.commands@ == old(self).output.commands@ + seq![
                        Command::UpdateMembership { membership: em },
                    ] + (if old(self).state.server_state != ServerState::Leader {
                        server_transition_commands(
                            old(self).state.server_state,
                            final(self).calc_server_state_spec(),
                        )
                    } else {
                        Seq::<Command>::empty()
                    }) && em@ == (Option::Some(entry.log_id), m@))
            },
    {
        let log_id = entry.get_log_id();
        match entry.get_membership() {
            Option::Some(m) => {
                self.update_effective_membership(&log_id, m);
            },
            Option::None => {},
        }
    }

    /// Initialize a bare node by appending one membership entry and at
    /// once campaigning for leadership of the new cluster.
    ///
    /// It is allowed only on a node without logs whose vote is minimal;
    /// the single entry must be a membership entry whose voters include
    /// this node.
    pub fn initialize(&mut self, entries: &mut Vec<Entry>) -> (r: Result<(), InitializeError>)
        requires
            old(self).wf(),
            old(entries)@.len() == 1,
            old(entries)@[0].membership_spec() matches Option::Some(m) ==> m.wf(),
        ensures
            final(self).wf(),
            final(self).config == old(self).config,
            vote_le(old(self).state.vote, final(self).state.vote),
            opt_log_id_le(old(self).state.committed, final(self).state.committed),
            old(self).output.commands@.is_prefix_of(final(self).output.commands@),
            !(old(self).state.last_log_id_spec() is None && old(self).state.vote == (Vote {
                term: 0,
                node_id: 0,
                committed: false,
            })) ==> r == Result::<(), InitializeError>::Err(
                InitializeError::NotAllowed(
                    NotAllowed {
                        last_log_id: old(self).state.last_log_id_spec(),
                        vote: old(self).state.vote,
                    },
                ),
            ) && *final(self) == *old(self) && *final(entries) == *old(entries),
            old(self).state.last_log_id_spec() is None && old(self).state.vote == (Vote {
                term: 0,
                node_id: 0,
                committed: false,
            }) ==> {
                &&& (old(entries)@[0].membership_spec() is None ==> r
                    == Result::<(), InitializeError>::Err(
                    InitializeError::NotAMembershipEntry(NotAMembershipEntry {}),
                ))
                &&& (old(entries)@[0].membership_spec() is Some && !old(entries)@[0].membership_spec()->Some_0.is_voter_spec(old(self).config.id) ==> (
                r matches Result::Err(InitializeError::NotInMembers(e)) && e.node_id == old(self).config.id && e.membership@ == old(entries)@[0].membership_spec()->Some_0@))
                &&& (old(entries)@[0].membership_spec() is Some && old(entries)@[0].membership_spec()->Some_0.is_voter_spec(old(self).config.id) ==> {
                    &&& r is Ok
                    &&& final(self).state.membership_state.effective.log_id == Option::Some(
                        LogId { leader_id: LeaderId { term: 0, node_id: 0 }, index: 0 },
                    )
                    &&& final(self).state.membership_state.effective.membership@ == old(entries)@[0].membership_spec()->Some_0@
                    &&& final(self).state.vote.term == 1
                    &&& final(self).state.vote.node_id == old(self).config.id
                    &&& final(self).state.vote.committed == old(entries)@[0].membership_spec()->Some_0.is_quorum_spec(seq![old(self).config.id])
                    &&& final(self).server_state_consistent()
                    &&& final(self).output.commands@[old(self).output.commands@.len() as int] == (
                    Command::AppendInputEntries { begin: 0, end: 1 })
                    &&& (final(self).output.commands@[old(self).output.commands@.len() + 1int] matches
                        Command::UpdateMembership { membership } && membership@ == (
                        Option::Some(
                            LogId { leader_id: LeaderId { term: 0, node_id: 0 }, index: 0 },
                        ),
                        old(entries)@[0].membership_spec()->Some_0@,
                    ))
                    &&& final(self).output.commands@[old(self).output.commands@.len() + 2int] == (
                    Command::MoveInputCursorBy { n: 1 })
                    &&& final(self).state.last_log_id_spec() == Option::Some(
                        if old(entries)@[0].membership_spec()->Some_0.is_quorum_spec(
                            seq![old(self).config.id],
                        ) {
                            LogId {
                                leader_id: LeaderId { term: 1, node_id: old(self).config.id },
                                index: 1,
                            }
                        } else {
                            LogId { leader_id: LeaderId { term: 0, node_id: 0 }, index: 0 }
                        },
                    )
                })
            },
    {
        let l = entries.len();
        match self.check_initialize() {
            Result::Err(e) => {
                return Result::Err(InitializeError::NotAllowed(e));
            },
            Result::Ok(_) => {},
        }
        self.assign_log_ids(entries);
        self.state.extend_log_ids(entries, 0);
        self.output.push_command(Command::AppendInputEntries { begin: 0, end: l });
        let ghost c1 = self.output.commands@;
        match entries[0].get_membership() {
            Option::Some(m) => {
                match self.check_members_contain_me(m) {
                    Result::Err(e) => {
                        return Result::Err(InitializeError::NotInMembers(e));
                    },
                    Result::Ok(_) => {},
                }
            },
            Option::None => {
                return Result::Err(InitializeError::NotAMembershipEntry(NotAMembershipEntry {}));
            },
        }
        let ghost pre_uem = *self;
        self.try_update_membership(&entries[0]);
        let ghost post_uem = *self;
        let ghost cu = self.output.commands@;
        self.output.push_command(Command::MoveInputCursorBy { n: l });
        let ghost c2 = self.output.commands@;
        // With the new membership in force, campaign at once.
        self.elect();
        proof {
            let c0 = old(self).output.commands@;
            let n = c0.len() as int;
            crate::command::lemma_prefix_push(c0, c1[n]);
            crate::command::lemma_prefix_concat(c2, self.output.commands@.skip(c2.len() as int));
            assert(c2 + self.output.commands@.skip(c2.len() as int) =~= self.output.commands@);
            crate::command::lemma_prefix_trans(c0, c1, c2);
            crate::command::lemma_prefix_trans(c0, c2, self.output.commands@);
            crate::command::lemma_prefix_trans(c1, c2, self.output.commands@);
            crate::command::lemma_prefix_index(c1, self.output.commands@, n);
            assert(!pre_uem.is_leader_spec());
            let em = choose|em: EffectiveMembership|
                #![trigger em@]
                cu == c1 + seq![Command::UpdateMembership { membership: em }] + (if pre_uem.state.server_state != ServerState::Leader {
                    server_transition_commands(
                        pre_uem.state.server_state,
                        post_uem.calc_server_state_spec(),
                    )
                } else {
                    Seq::<Command>::empty()
                }) && em@ == (
                    Option::Some(
                        LogId { leader_id: LeaderId { term: 0, node_id: 0 }, index: 0 },
                    ),
                    old(entries)@[0].membership_spec()->Some_0@,
                );
            assert(post_uem.calc_server_state_spec() != ServerState::Leader);
            if pre_uem.state.server_state != ServerState::Leader {
                assert(server_transition_commands(
                    pre_uem.state.server_state,
                    post_uem.calc_server_state_spec(),
                ) =~= Seq::<Command>::empty());
            }
            assert(cu =~= c1.push(Command::UpdateMembership { membership: em }));
            crate::command::lemma_prefix_index(c2, self.output.commands@, n + 1);
            crate::command::lemma_prefix_index(c2, self.output.commands@, n + 2);
            assert(c2[n + 1] == cu[n + 1]);
            assert(c2[n + 2] == (Command::MoveInputCursorBy { n: 1 }));
        }
        Result::Ok(())
    }
}

impl Engine {
    /// Delete log entries from index `since` on, inclusive, after the
    /// entry there was found to conflict with the leader's.  When the
    /// effective membership came from the deleted range, it reverts to the
    /// last committed membership.
    ///
    /// Deleting an index that is not in the log changes nothing.
    pub fn truncate_logs(&mut self, since: u64)
        requires
            old(self).wf(),
            since >= next_index_of(old(self).state.last_purged_spec()),
            old(self).state.log_ids.in_range(since as int) && (match old(self).state.membership_state.effective.log_id {
                Option::Some(e) => since <= e.index,
                Option::None => false,
            }) ==> match old(self).state.membership_state.committed.log_id {
                Option::Some(c) => c.index < since,
                Option::None => true,
            },
        ensures
            final(self).wf(),
            final(self).config == old(self).config,
            final(self).internal_server_state == old(self).internal_server_state,
            final(self).state.vote == old(self).state.vote,
            final(self).state.committed == old(self).state.committed,
            final(self).state.purged_next == old(self).state.purged_next,
            final(self).state.snapshot_meta == old(self).state.snapshot_meta,
            final(self).state.last_purged_spec() == old(self).state.last_purged_spec(),
            old(self).output.commands@.is_prefix_of(final(self).output.commands@),
            !old(self).state.log_ids.in_range(since as int) ==> *final(self) == *old(self),
            old(self).state.log_ids.in_range(since as int) ==> {
                &&& forall|idx: int|
                    idx < since && old(self).state.log_ids.in_range(idx) ==> final(self).state.log_ids.log_id_at(idx) == old(self).state.log_ids.log_id_at(idx)
                &&& forall|idx: int|
                    since <= idx ==> final(self).state.log_ids.log_id_at(idx)
                        == Option::<LogId>::None
                &&& final(self).output.commands@[old(self).output.commands@.len() as int] == (
                Command::DeleteConflictLog {
                    since: old(self).state.log_ids.log_id_at(since as int)->Some_0,
                })
                &&& since > old(self).state.log_ids.first_key_index_spec() ==> final(self).state.log_ids.last_spec() == old(self).state.log_ids.log_id_at(since - 1)
                &&& since <= old(self).state.log_ids.first_key_index_spec() ==> final(self).state.log_ids.key_log_ids@.len() == 0
                &&& (!(match old(self).state.membership_state.effective.log_id {
                    Option::Some(e) => since <= e.index,
                    Option::None => false,
                }) ==> final(self).output.commands@ == old(self).output.commands@.push(
                    Command::DeleteConflictLog {
                        since: old(self).state.log_ids.log_id_at(since as int)->Some_0,
                    },
                ))
                &&& ((match old(self).state.membership_state.effective.log_id {
                    Option::Some(e) => since <= e.index,
                    Option::None => false,
                }) ==> exists|em: EffectiveMembership|
                    #![trigger em@]
                    final(self).output.commands@ == old(self).output.commands@ + seq![
                        Command::DeleteConflictLog {
                            since: old(self).state.log_ids.log_id_at(since as int)->Some_0,
                        },
                    ] + seq![Command::UpdateMembership { membership: em }]
                        + server_transition_commands(
                        old(self).state.server_state,
                        final(self).calc_server_state_spec(),
                    ) && em@ == old(self).state.membership_state.committed@)
                &&& (match old(self).state.membership_state.effective.log_id {
                    Option::Some(e) => since <= e.index,
                    Option::None => false,
                }) ==> {
                    &&& final(self).state.membership_state.committed@ == old(self).state.membership_state.committed@
                    &&& final(self).state.membership_state.effective@ == old(self).state.membership_state.committed@
                    &&& final(self).server_state_consistent()
                }
                &&& !(match old(self).state.membership_state.effective.log_id {
                    Option::Some(e) => since <= e.index,
                    Option::None => false,
                }) ==> final(self).state.membership_state == old(self).state.membership_state
                    && final(self).state.server_state == old(self).state.server_state
            },
    {
        let since_log_id = match self.state.get_log_id(since) {
            Option::None => {
                // Nothing at that index: nothing to delete.
                return ;
            },
            Option::Some(x) => x,
        };
        self.state.log_ids.truncate(since);
        self.output.push_command(Command::DeleteConflictLog { since: since_log_id });
        let ghost c1 = self.output.commands@;
        // When the effective membership was defined by a deleted entry,
        // it reverts to the last committed membership.
        let revert = match &self.state.membership_state.effective.log_id {
            Option::Some(e) => since <= e.index,
            Option::None => false,
        };
        if revert {
            let committed_mem = self.state.membership_state.committed.clone();
            let effective_mem = self.state.membership_state.committed.clone();
            self.state.membership_state = MembershipState {
                committed: committed_mem,
                effective: effective_mem,
            };
            proof {
                crate::membership::lemma_membership_wf_from_view(
                    old(self).state.membership_state.committed.membership,
                    self.state.membership_state.committed.membership,
                );
                crate::membership::lemma_membership_wf_from_view(
                    old(self).state.membership_state.committed.membership,
                    self.state.membership_state.effective.membership,
                );
            }
            let em_cmd = self.state.membership_state.effective.clone();
            let ghost em_pushed = em_cmd;
            self.output.push_command(Command::UpdateMembership { membership: em_cmd });
            self.update_server_state_if_changed();
            proof {
                assert(self.output.commands@ =~= old(self).output.commands@ + seq![
                    Command::DeleteConflictLog { since: since_log_id },
                ] + seq![Command::UpdateMembership { membership: em_pushed }]
                    + server_transition_commands(
                    old(self).state.server_state,
                    self.calc_server_state_spec(),
                ));
            }
        }
        proof {
            let c0 = old(self).output.commands@;
            let n = c0.len() as int;
            crate::command::lemma_prefix_push(c0, c1[n]);
            crate::command::lemma_prefix_concat(c1, self.output.commands@.skip(c1.len() as int));
            assert(c1 + self.output.commands@.skip(c1.len() as int) =~= self.output.commands@);
            crate::command::lemma_prefix_trans(c0, c1, self.output.commands@);
            crate::command::lemma_prefix_index(c1, self.output.commands@, n);
        }
    }

    /// The first position in `entries` whose log id is absent locally:
    /// everything before it is already stored or committed.
    pub fn first_conflicting_index(&self, entries: &Vec<Entry>) -> (r: usize)
        requires
            self.wf(),
        ensures
            r <= entries@.len(),
            forall|k: int|
                0 <= k < r ==> self.state.has_log_id_spec((#[trigger] entries@[k]).log_id),
            r < entries@.len() ==> !self.state.has_log_id_spec(entries@[r as int].log_id),
    {
        let l = entries.len();
        let mut i: usize = 0;
        while i < l
            invariant
                self.wf(),
                l == entries@.len(),
                i <= l,
                forall|k: int|
                    0 <= k < i ==> self.state.has_log_id_spec((#[trigger] entries@[k]).log_id),
            decreases l - i,
        {
            let log_id = entries[i].get_log_id();
            if !self.state.has_log_id(&log_id) {
                return i;
            }
            i = i + 1;
        }
        l
    }

    /// Advance the follower's committed log id to what the leader
    /// reports, capped by what is stored locally, and have the runtime
    /// apply the newly committed range.
    pub fn follower_commit_entries(
        &mut self,
        leader_committed: Option<LogId>,
        prev_log_id: Option<LogId>,
        entries: &Vec<Entry>,
    )
        ensures
            final(self).config == old(self).config,
            final(self).internal_server_state == old(self).internal_server_state,
            final(self).state == (RaftState {
                committed: final(self).state.committed,
                ..old(self).state
            }),
            opt_log_id_le(old(self).state.committed, final(self).state.committed),
            old(self).output.commands@.is_prefix_of(final(self).output.commands@),
            final(self).state.committed == (if opt_log_id_lt(
                old(self).state.committed,
                opt_min(
                    leader_committed,
                    opt_max(
                        if entries@.len() > 0 {
                            Option::Some(entries@.last().log_id)
                        } else {
                            Option::<LogId>::None
                        },
                        prev_log_id,
                    ),
                ),
            ) {
                opt_min(
                    leader_committed,
                    opt_max(
                        if entries@.len() > 0 {
                            Option::Some(entries@.last().log_id)
                        } else {
                            Option::<LogId>::None
                        },
                        prev_log_id,
                    ),
                )
            } else {
                old(self).state.committed
            }),
            final(self).state.committed != old(self).state.committed ==> final(self).output.commands@ == old(self).output.commands@.push(
                Command::FollowerCommit {
                    already_committed: old(self).state.committed,
                    upto: final(self).state.committed->Some_0,
                },
            ),
            final(self).state.committed == old(self).state.committed ==> final(self).output == old(self).output,
    {
        let last_in_batch: Option<LogId> = if entries.len() > 0 {
            Option::Some(entries[entries.len() - 1].get_log_id())
        } else {
            Option::None
        };
        let last = crate::log_id::opt_max_exec(&last_in_batch, &prev_log_id);
        // The committed index can not exceed what is stored locally.
        let committed = crate::log_id::opt_min_exec(&leader_committed, &last);
        match self.state.update_committed(&committed) {
            Option::Some(prev_committed) => {
                match &self.state.committed {
                    Option::Some(upto) => {
                        self.output.push_command(
                            Command::FollowerCommit {
                                already_committed: prev_committed,
                                upto: *upto,
                            },
                        );
                    },
                    Option::None => {},
                }
            },
            Option::None => {},
        }
        proof {
            crate::command::lemma_prefix_push(
                old(self).output.commands@,
                Command::FollowerCommit {
                    already_committed: old(self).state.committed,
                    upto: final(self).state.committed->Some_0,
                },
            );
            if self.output.commands@ == old(self).output.commands@ {
                assert(old(self).output.commands@.is_prefix_of(self.output.commands@)) by {
                    assert(old(self).output.commands@ =~= self.output.commands@.subrange(
                        0,
                        old(self).output.commands@.len() as int,
                    ));
                }
            }
        }
    }
}

/// The position of the last membership entry strictly below `below`, or
/// -1 when there is none.
pub open spec fn last_mem_index(entries: Seq<Entry>, below: int) -> int
    decreases below,
{
    if below <= 0 {
        -1
    } else if entries[below - 1].membership_spec() is Some {
        below - 1
    } else {
        last_mem_index(entries, below - 1)
    }
}

/// Sequences whose entries carry the same memberships agree on the
/// position of the last membership entry.
pub proof fn lemma_last_mem_index_same(a: Seq<Entry>, b: Seq<Entry>, below: int)
    requires
        a.len() == b.len(),
        below <= a.len(),
        forall|k: int|
            0 <= k < a.len() ==> (#[trigger] a[k]).membership_spec() == b[k].membership_spec(),
    ensures
        last_mem_index(a, below) == last_mem_index(b, below),
    decreases below,
{
    if below > 0 {
        if a[below - 1].membership_spec() is None {
            lemma_last_mem_index_same(a, b, below - 1);
        }
    }
}

/// A found position names a membership entry.
pub proof fn lemma_last_mem_index_found(entries: Seq<Entry>, below: int)
    requires
        below <= entries.len(),
    ensures
        last_mem_index(entries, below) >= 0 ==> entries[last_mem_index(
            entries,
            below,
        )].membership_spec() is Some,
    decreases below,
{
    if below > 0 {
        if entries[below - 1].membership_spec() is None {
            lemma_last_mem_index_found(entries, below - 1);
        }
    }
}

/// The found position lies below the bound.
pub proof fn lemma_last_mem_index_lt(entries: Seq<Entry>, below: int)
    ensures
        below >= 0 ==> last_mem_index(entries, below) < below,
    decreases below,
{
    if below > 0 && entries[below - 1].membership_spec() is None {
        lemma_last_mem_index_lt(entries, below - 1);
    }
}

impl Engine {
    /// The last two membership entries of `entries[since..]`, oldest
    /// first: they become the committed and the effective membership of a
    /// follower that appends these entries.
    pub fn last_two_memberships(entries: &Vec<Entry>, since: usize) -> (r: Vec<
        EffectiveMembership,
    >)
        requires
            since <= entries@.len(),
            forall|k: int|
                0 <= k < entries@.len() && (#[trigger] entries@[k]).membership_spec() is Some
                    ==> entries@[k].membership_spec()->Some_0.wf(),
        ensures
            ({
                let i1 = last_mem_index(entries@, entries@.len() as int);
                let i0 = last_mem_index(entries@, i1);
                &&& r@.len() == (if i1 < since {
                    0int
                } else if i0 < since {
                    1int
                } else {
                    2int
                })
                &&& i1 >= since ==> r@.last().log_id == Option::Some(entries@[i1].log_id)
                    && r@.last().membership@ == entries@[i1].membership_spec()->Some_0@
                    && r@.last().membership.wf()
                &&& i1 >= since && i0 >= since ==> r@[0].log_id == Option::Some(
                    entries@[i0].log_id,
                ) && r@[0].membership@ == entries@[i0].membership_spec()->Some_0@
                    && r@[0].membership.wf()
            }),
    {
        let l = entries.len();
        let mut found: Vec<EffectiveMembership> = Vec::new();
        let mut j: usize = l;
        while j > since
            invariant
                since <= j <= l,
                l == entries@.len(),
                found@.len() == 0,
                forall|k: int|
                    0 <= k < entries@.len() && (#[trigger] entries@[k]).membership_spec() is Some
                        ==> entries@[k].membership_spec()->Some_0.wf(),
                last_mem_index(entries@, l as int) == last_mem_index(entries@, j as int),
            decreases j,
        {
            match entries[j - 1].get_membership() {
                Option::Some(m) => {
                    // Found the effective membership; look for the one
                    // before it.
                    let em1 = EffectiveMembership::new(
                        Option::Some(entries[j - 1].get_log_id()),
                        m.clone(),
                    );
                    proof {
                        crate::membership::lemma_membership_wf_from_view(
                            entries@[j - 1].membership_spec()->Some_0,
                            em1.membership,
                        );
                    }
                    proof {
                        assert(last_mem_index(entries@, j as int) == j - 1);
                    }
                    let mut i: usize = j - 1;
                    while i > since
                        invariant
                            since <= i <= j - 1,
                            j >= 1,
                            l == entries@.len(),
                            j <= l,
                            found@.len() == 0,
                            em1.log_id == Option::Some(entries@[j - 1].log_id),
                            em1.membership@ == entries@[j - 1].membership_spec()->Some_0@,
                            em1.membership.wf(),
                            entries@[j - 1].membership_spec() is Some,
                            last_mem_index(entries@, l as int) == j - 1,
                            forall|k: int|
                                0 <= k < entries@.len() && (
                                #[trigger] entries@[k]).membership_spec() is Some
                                    ==> entries@[k].membership_spec()->Some_0.wf(),
                            last_mem_index(entries@, j - 1) == last_mem_index(entries@, i as int),
                        decreases i,
                    {
                        match entries[i - 1].get_membership() {
                            Option::Some(m0) => {
                                let em0 = EffectiveMembership::new(
                                    Option::Some(entries[i - 1].get_log_id()),
                                    m0.clone(),
                                );
                                proof {
                                    crate::membership::lemma_membership_wf_from_view(
                                        entries@[i - 1].membership_spec()->Some_0,
                                        em0.membership,
                                    );
                                }
                                found.push(em0);
                                found.push(em1);
                                proof {
                                    assert(last_mem_index(entries@, i as int) == i - 1);
                                    lemma_last_mem_index_lt(entries@, i - 1);
                                }
                                return found;
                            },
                            Option::None => {},
                        }
                        i = i - 1;
                    }
                    found.push(em1);
                    proof {
                        lemma_last_mem_index_lt(entries@, since as int);
                    }
                    return found;
                },
                Option::None => {},
            }
            j = j - 1;
        }
        proof {
            lemma_last_mem_index_lt(entries@, since as int);
        }
        found
    }

    /// Install the last one or two membership configs a follower found in
    /// appended entries: with one, the old effective config counts as
    /// committed; with two, they are committed and effective in order.
    pub fn update_membership_state(&mut self, memberships: Vec<EffectiveMembership>)
        requires
            old(self).wf(),
            1 <= memberships@.len() <= 2,
            forall|j: int|
                0 <= j < memberships@.len() ==> (#[trigger] memberships@[j]).membership.wf(),
        ensures
            final(self).wf(),
            final(self).config == old(self).config,
            final(self).internal_server_state == old(self).internal_server_state,
            final(self).output == old(self).output,
            final(self).state == (RaftState {
                membership_state: final(self).state.membership_state,
                ..old(self).state
            }),
            memberships@.len() == 1 ==> final(self).state.membership_state.committed@ == old(self).state.membership_state.effective@
                && final(self).state.membership_state.effective@ == memberships@[0]@,
            memberships@.len() == 2 ==> final(self).state.membership_state.committed@
                == memberships@[0]@ && final(self).state.membership_state.effective@
                == memberships@[1]@,
    {
        let new_mem_state = if memberships.len() == 1 {
            MembershipState {
                committed: self.state.membership_state.effective.clone(),
                effective: memberships[0].clone(),
            }
        } else {
            MembershipState { committed: memberships[0].clone(), effective: memberships[1].clone() }
        };
        proof {
            if memberships@.len() == 1 {
                crate::membership::lemma_membership_wf_from_view(
                    old(self).state.membership_state.effective.membership,
                    new_mem_state.committed.membership,
                );
                crate::membership::lemma_membership_wf_from_view(
                    memberships@[0].membership,
                    new_mem_state.effective.membership,
                );
            } else {
                crate::membership::lemma_membership_wf_from_view(
                    memberships@[0].membership,
                    new_mem_state.committed.membership,
                );
                crate::membership::lemma_membership_wf_from_view(
                    memberships@[1].membership,
                    new_mem_state.effective.membership,
                );
            }
        }
        self.state.membership_state = new_mem_state;
    }

    /// Apply membership configs found in entries a follower appends, and
    /// recompute the server state.
    pub fn follower_update_membership(&mut self, entries: &Vec<Entry>, since: usize)
        requires
            old(self).wf(),
            since <= entries@.len(),
            forall|k: int|
                0 <= k < entries@.len() && (#[trigger] entries@[k]).membership_spec() is Some
                    ==> entries@[k].membership_spec()->Some_0.wf(),
        ensures
            final(self).wf(),
            final(self).config == old(self).config,
            final(self).internal_server_state == old(self).internal_server_state,
            final(self).state == (RaftState {
                membership_state: final(self).state.membership_state,
                server_state: final(self).state.server_state,
                ..old(self).state
            }),
            old(self).output.commands@.is_prefix_of(final(self).output.commands@),
            last_mem_index(entries@, entries@.len() as int) < since ==> *final(self) == *old(self),
            last_mem_index(entries@, entries@.len() as int) >= since ==> ({
                let i1 = last_mem_index(entries@, entries@.len() as int);
                let i0 = last_mem_index(entries@, i1);
                &&& final(self).state.membership_state.effective.log_id == Option::Some(
                    entries@[i1].log_id,
                )
                &&& final(self).state.membership_state.effective.membership@
                    == entries@[i1].membership_spec()->Some_0@
                &&& (i0 >= since ==> final(self).state.membership_state.committed.log_id
                    == Option::Some(entries@[i0].log_id)
                    && final(self).state.membership_state.committed.membership@
                    == entries@[i0].membership_spec()->Some_0@)
                &&& (i0 < since ==> final(self).state.membership_state.committed@ == old(self).state.membership_state.effective@)
                &&& final(self).server_state_consistent()
                &&& final(self).output.commands@[old(self).output.commands@.len() as int] matches
                    Command::UpdateMembership { membership } && membership@ == final(self).state.membership_state.effective@
            }),
    {
        let memberships = Engine::last_two_memberships(entries, since);
        if memberships.len() == 0 {
            return ;
        }
        self.update_membership_state(memberships);
        self.output.push_command(
            Command::UpdateMembership { membership: self.state.membership_state.effective.clone() },
        );
        let ghost c1 = self.output.commands@;
        self.update_server_state_if_changed();
        proof {
            let c0 = old(self).output.commands@;
            let n = c0.len() as int;
            crate::command::lemma_prefix_push(c0, c1[n]);
            crate::command::lemma_prefix_concat(c1, self.output.commands@.skip(c1.len() as int));
            assert(c1 + self.output.commands@.skip(c1.len() as int) =~= self.output.commands@);
            crate::command::lemma_prefix_trans(c0, c1, self.output.commands@);
            crate::command::lemma_prefix_index(c1, self.output.commands@, n);
        }
    }
}

/// Entries of one append batch: contiguous indices, leaders never
/// decreasing, and any carried membership well-formed.
pub open spec fn entries_coherent(entries: Seq<Entry>) -> bool {
    &&& forall|k: int|
        0 <= k < entries.len() - 1 ==> (#[trigger] entries[k]).log_id.index + 1 == entries[k
            + 1].log_id.index && leader_le(
            entries[k].log_id.leader_id,
            entries[k + 1].log_id.leader_id,
        )
    &&& forall|k: int|
        0 <= k < entries.len() && (#[trigger] entries[k]).membership_spec() is Some ==> entries[
            k
        ].membership_spec()->Some_0.wf()
}

/// After deleting the conflicting suffix from the first absent entry's
/// index on, the log ends exactly one short of that entry, under a leader
/// at or below the entry's.
proof fn lemma_conflict_boundary(
    pre: RaftState,
    post: LogIdList,
    entries: Seq<Entry>,
    prev_log_id: Option<LogId>,
    since: int,
)
    requires
        pre.wf(),
        post.wf(),
        0 <= since < entries.len(),
        entries_coherent(entries),
        prev_log_id is Some && entries.len() > 0 ==> prev_log_id->Some_0.index + 1
            == entries[0].log_id.index && leader_le(
            prev_log_id->Some_0.leader_id,
            entries[0].log_id.leader_id,
        ),
        prev_log_id is None && entries.len() > 0 ==> entries[0].log_id.index == 0,
        next_index_of(pre.last_purged_spec()) <= next_index_of(pre.committed),
        next_index_of(pre.committed) <= next_index_of(pre.last_log_id_spec()),
        pre.purged_next == 0 && pre.log_ids.key_log_ids@.len() > 0
            ==> pre.log_ids.first_key_index_spec() == 0,
        forall|k: int|
            0 <= k < entries.len() && ((#[trigger] entries[k]).log_id.index as int)
                < next_index_of(pre.committed) && pre.log_ids.in_range(
                entries[k].log_id.index as int,
            ) ==> pre.log_ids.log_id_at(entries[k].log_id.index as int) == Option::Some(
                entries[k].log_id,
            ),
        prev_log_id matches Option::Some(p) ==> ((p.index as int) < next_index_of(pre.committed)
            && pre.log_ids.in_range(p.index as int) ==> pre.log_ids.log_id_at(p.index as int)
            == Option::Some(p)),
        !pre.has_log_id_spec(entries[since].log_id),
        since > 0 ==> pre.has_log_id_spec(entries[since - 1].log_id),
        since == 0 && prev_log_id is Some ==> pre.has_log_id_spec(prev_log_id->Some_0),
        !pre.log_ids.in_range(entries[since].log_id.index as int) ==> post == pre.log_ids,
        pre.log_ids.in_range(entries[since].log_id.index as int) ==> {
            let at = entries[since].log_id.index as int;
            &&& (at > pre.log_ids.first_key_index_spec() ==> post.last_spec()
                == pre.log_ids.log_id_at(at - 1))
            &&& (at <= pre.log_ids.first_key_index_spec() ==> post.key_log_ids@.len() == 0)
        },
    ensures
        entries[since].log_id.index as int == next_index_of(post.last_spec()),
        post.last_spec() matches Option::Some(l) ==> leader_le(
            l.leader_id,
            entries[since].log_id.leader_id,
        ),
{
    let at = entries[since].log_id.index as int;
    assert(at >= next_index_of(pre.committed));
    if at > 0 {
        let x: LogId = if since > 0 {
            entries[since - 1].log_id
        } else {
            prev_log_id->Some_0
        };
        assert(pre.has_log_id_spec(x) && x.index == at - 1);
        if pre.log_ids.log_id_at(at - 1) != Option::Some(x) {
            assert((at - 1) < next_index_of(pre.committed));
            assert(pre.log_ids.key_log_ids@.len() > 0);
        }
        assert(pre.log_ids.key_log_ids@.len() > 0);
        assert(pre.log_ids.last_spec()->Some_0.index >= at - 1);
        // The purge boundary lies below `at`.
        if pre.purged_next == 0 {
            assert(pre.log_ids.first_key_index_spec() <= at - 1);
        } else {
            assert(next_index_of(pre.last_purged_spec()) <= at);
            assert(pre.log_ids.first_key_index_spec() < at);
        }
        assert(pre.log_ids.in_range(at - 1));
        // Below the committed index the local log agrees with the batch.
        assert(pre.log_ids.log_id_at(at - 1) == Option::Some(x));
        if pre.log_ids.in_range(at) {
            assert(at > pre.log_ids.first_key_index_spec());
            assert(post.last_spec() == Option::Some(x));
        } else {
            assert(post == pre.log_ids);
            assert(pre.log_ids.last_spec()->Some_0.index == at - 1);
            assert(pre.log_ids.log_id_at(at - 1) == Option::Some(
                pre.log_ids.last_spec()->Some_0,
            ));
            assert(post.last_spec() == Option::Some(x));
        }
        assert(leader_le(x.leader_id, entries[since].log_id.leader_id));
    } else {
        // Nothing can precede index 0: the whole log is gone.
        if pre.log_ids.key_log_ids@.len() > 0 {
            if pre.purged_next == 0 {
                assert(pre.log_ids.first_key_index_spec() == 0);
            } else {
                assert(next_index_of(pre.last_purged_spec()) <= next_index_of(pre.committed));
                assert(next_index_of(pre.committed) <= 0);
                assert(pre.log_ids.first_key_index_spec() < 0);
            }
            assert(pre.log_ids.in_range(at) && at <= pre.log_ids.first_key_index_spec());
            assert(post.key_log_ids@.len() == 0);
        }
        assert(post.last_spec() is None);
    }
}

impl Engine {
    /// Append `entries[since..]` to the log of a follower or learner,
    /// after conflicting entries were deleted, and take over membership
    /// configs the appended entries carry.
    pub fn follower_do_append_entries(&mut self, entries: &Vec<Entry>, since: usize)
        requires
            old(self).wf(),
            since <= entries@.len(),
            entries_coherent(entries@),
            since < entries@.len() ==> entries@[since as int].log_id.index as int == next_index_of(
                old(self).state.last_log_id_spec(),
            ),
            since < entries@.len() ==> (old(self).state.last_log_id_spec() matches Option::Some(l)
                ==> leader_le(l.leader_id, entries@[since as int].log_id.leader_id)),
        ensures
            final(self).wf(),
            final(self).config == old(self).config,
            since == entries@.len() ==> *final(self) == *old(self),
            final(self).internal_server_state == old(self).internal_server_state,
            final(self).state == (RaftState {
                log_ids: final(self).state.log_ids,
                membership_state: final(self).state.membership_state,
                server_state: final(self).state.server_state,
                ..old(self).state
            }),
            old(self).output.commands@.is_prefix_of(final(self).output.commands@),
            since < entries@.len() ==> {
                &&& forall|k: int|
                    since <= k < entries@.len() ==> final(self).state.log_ids.log_id_at(
                        (#[trigger] entries@[k]).log_id.index as int,
                    ) == Option::Some(entries@[k].log_id)
                &&& forall|idx: int|
                    old(self).state.log_ids.in_range(idx) ==> final(self).state.log_ids.log_id_at(
                        idx,
                    ) == old(self).state.log_ids.log_id_at(idx)
                &&& final(self).state.last_log_id_spec() == Option::Some(entries@.last().log_id)
                &&& final(self).output.commands@[old(self).output.commands@.len() as int] == (
                Command::AppendInputEntries { begin: since, end: entries@.len() as usize })
                &&& final(self).output.commands@.last() == (Command::MoveInputCursorBy {
                    n: entries@.len() as usize,
                })
                &&& (last_mem_index(entries@, entries@.len() as int) < since ==> final(self).state.membership_state == old(self).state.membership_state && final(self).state.server_state == old(self).state.server_state)
                &&& (last_mem_index(entries@, entries@.len() as int) >= since ==> {
                    let i1 = last_mem_index(entries@, entries@.len() as int);
                    let i0 = last_mem_index(entries@, i1);
                    &&& final(self).state.membership_state.effective.log_id == Option::Some(
                        entries@[i1].log_id,
                    )
                    &&& final(self).state.membership_state.effective.membership@
                        == entries@[i1].membership_spec()->Some_0@
                    &&& (i0 >= since ==> final(self).state.membership_state.committed.log_id
                        == Option::Some(entries@[i0].log_id)
                        && final(self).state.membership_state.committed.membership@
                        == entries@[i0].membership_spec()->Some_0@)
                    &&& (i0 < since ==> final(self).state.membership_state.committed@ == old(self).state.membership_state.effective@)
                    &&& final(self).server_state_consistent()
                })
            },
    {
        let l = entries.len();
        if since == l {
            return ;
        }
        self.state.extend_log_ids(entries, since);
        self.output.push_command(Command::AppendInputEntries { begin: since, end: l });
        let ghost c1 = self.output.commands@;
        self.follower_update_membership(entries, since);
        let ghost c2 = self.output.commands@;
        self.output.push_command(Command::MoveInputCursorBy { n: l });
        proof {
            let c0 = old(self).output.commands@;
            let n = c0.len() as int;
            crate::command::lemma_prefix_push(c0, c1[n]);
            crate::command::lemma_prefix_push(c2, Command::MoveInputCursorBy { n: l });
            crate::command::lemma_prefix_trans(c0, c1, c2);
            crate::command::lemma_prefix_trans(c0, c2, self.output.commands@);
            crate::command::lemma_prefix_trans(c1, c2, self.output.commands@);
            crate::command::lemma_prefix_index(c1, self.output.commands@, n);
        }
    }

    /// Handle an append-entries request from a leader: adopt its vote or
    /// reject; delete a conflicting suffix and report a conflict when the
    /// preceding log id does not match; append what is new; and advance
    /// the committed log id as the leader directs.
    ///
    /// The inputs must come from one leader's log: contiguous entries with
    /// non-decreasing leaders right after `prev_log_id`, agreeing with
    /// this node's log below the committed index.
    #[verifier::rlimit(100)]
    pub fn handle_append_entries_req(
        &mut self,
        vote: &Vote,
        prev_log_id: Option<LogId>,
        entries: &Vec<Entry>,
        leader_committed: Option<LogId>,
    ) -> (r: AppendEntriesResponse)
        requires
            old(self).wf(),
            next_index_of(old(self).state.last_log_id_spec()) <= u64::MAX,
            entries_coherent(entries@),
            prev_log_id is Some && entries@.len() > 0 ==> prev_log_id->Some_0.index + 1
                == entries@[0].log_id.index && leader_le(
                prev_log_id->Some_0.leader_id,
                entries@[0].log_id.leader_id,
            ),
            prev_log_id is None && entries@.len() > 0 ==> entries@[0].log_id.index == 0,
            old(self).state.log_coherent(),
            forall|k: int|
                0 <= k < entries@.len() && ((#[trigger] entries@[k]).log_id.index as int)
                    < next_index_of(old(self).state.committed) && old(self).state.log_ids.in_range(entries@[k].log_id.index as int) ==> old(self).state.log_ids.log_id_at(entries@[k].log_id.index as int) == Option::Some(
                    entries@[k].log_id,
                ),
            prev_log_id matches Option::Some(p) ==> ((p.index as int) < next_index_of(
                old(self).state.committed,
            ) && old(self).state.log_ids.in_range(p.index as int) ==> old(self).state.log_ids.log_id_at(p.index as int) == Option::Some(p)),
        ensures
            final(self).wf(),
            final(self).config == old(self).config,
            vote_le(old(self).state.vote, final(self).state.vote),
            opt_log_id_le(old(self).state.committed, final(self).state.committed),
            old(self).output.commands@.is_prefix_of(final(self).output.commands@),
            !vote_le(old(self).state.vote, *vote) ==> r == AppendEntriesResponse::HigherVote(
                old(self).state.vote,
            ) && *final(self) == *old(self),
            vote_le(old(self).state.vote, *vote) ==> final(self).state.vote == *vote,
            vote_le(old(self).state.vote, *vote) && (prev_log_id matches Option::Some(p) && !old(self).state.has_log_id_spec(p)) ==> ({
                let p = prev_log_id->Some_0;
                &&& r == AppendEntriesResponse::Conflict
                &&& final(self).state.committed == old(self).state.committed
                &&& (old(self).state.log_ids.in_range(p.index as int) ==> (forall|idx: int|
                    p.index <= idx ==> final(self).state.log_ids.log_id_at(idx)
                        == Option::<LogId>::None) && (forall|idx: int|
                    idx < p.index && old(self).state.log_ids.in_range(idx) ==> final(self).state.log_ids.log_id_at(idx) == old(self).state.log_ids.log_id_at(idx)))
                &&& (!old(self).state.log_ids.in_range(p.index as int) ==> final(self).state.log_ids == old(self).state.log_ids)
                &&& (old(self).state.log_ids.in_range(p.index as int) ==> exists|i: int|
                    old(self).output.commands@.len() <= i < final(self).output.commands@.len()
                        && (#[trigger] final(self).output.commands@[i]) == (
                    Command::DeleteConflictLog {
                        since: old(self).state.log_ids.log_id_at(p.index as int)->Some_0,
                    }))
            }),
            vote_le(old(self).state.vote, *vote) && (prev_log_id is None || old(self).state.has_log_id_spec(prev_log_id->Some_0)) ==> ({
                let target = opt_min(
                    leader_committed,
                    opt_max(
                        if entries@.len() > 0 {
                            Option::Some(entries@.last().log_id)
                        } else {
                            Option::<LogId>::None
                        },
                        prev_log_id,
                    ),
                );
                &&& r == AppendEntriesResponse::Success
                &&& final(self).state.committed == (if opt_log_id_lt(
                    old(self).state.committed,
                    target,
                ) {
                    target
                } else {
                    old(self).state.committed
                })
                &&& (final(self).state.committed != old(self).state.committed ==> final(self).output.commands@.last() == (Command::FollowerCommit {
                    already_committed: old(self).state.committed,
                    upto: final(self).state.committed->Some_0,
                }))
                &&& (entries@.len() > 0 && !old(self).state.has_log_id_spec(entries@.last().log_id)
                    ==> final(self).state.last_log_id_spec() == Option::Some(
                    entries@.last().log_id,
                ))
                &&& ((forall|k: int|
                    0 <= k < entries@.len() ==> old(self).state.has_log_id_spec(
                        (#[trigger] entries@[k]).log_id,
                    )) ==> final(self).state.log_ids == old(self).state.log_ids)
            }),
    {
        match self.handle_vote_change(vote) {
            Result::Err(rejected) => {
                match rejected {
                    RejectVoteRequest::ByVote(v) => {
                        return AppendEntriesResponse::HigherVote(v);
                    },
                    RejectVoteRequest::ByLastLogId(_) => {
                        return AppendEntriesResponse::HigherVote(self.state.vote);
                    },
                }
            },
            Result::Ok(_) => {},
        }
        // The vote is legal.  Does the log id before the batch match?
        match &prev_log_id {
            Option::Some(prev) => {
                if !self.state.has_log_id(prev) {
                    // The entry at that index conflicts: delete it and
                    // everything after it, and let the leader back off.
                    self.truncate_logs(prev.index);
                    return AppendEntriesResponse::Conflict;
                }
            },
            Option::None => {},
        }
        let l = entries.len();
        let since = self.first_conflicting_index(entries);
        if since < l {
            // An entry overrides a conflicting one: the entries after it
            // must be deleted first, so that log ids stay ordered.
            let conflict_index = entries[since].get_log_id().index;
            let ghost pre = self.state;
            self.truncate_logs(conflict_index);
            proof {
                lemma_conflict_boundary(
                    pre,
                    self.state.log_ids,
                    entries@,
                    prev_log_id,
                    since as int,
                );
            }
            self.follower_do_append_entries(entries, since);
        }
        self.follower_commit_entries(leader_committed, prev_log_id, entries);
        AppendEntriesResponse::Success
    }
}

impl Engine {
    /// Purge log entries up to `upto`, inclusive; the purged boundary is
    /// remembered.  Purging at or below the already purged boundary is a
    /// no-op.
    pub fn purge_log(&mut self, upto: LogId)
        requires
            old(self).wf(),
            upto.index < u64::MAX,
        ensures
            final(self).wf(),
            final(self).config == old(self).config,
            final(self).internal_server_state == old(self).internal_server_state,
            final(self).state == (RaftState {
                purged_next: final(self).state.purged_next,
                log_ids: final(self).state.log_ids,
                ..old(self).state
            }),
            opt_log_id_le(old(self).state.last_purged_spec(), final(self).state.last_purged_spec()),
            old(self).output.commands@.is_prefix_of(final(self).output.commands@),
            opt_log_id_le(Option::Some(upto), old(self).state.last_purged_spec()) ==> *final(self)
                == *old(self),
            !opt_log_id_le(Option::Some(upto), old(self).state.last_purged_spec()) ==> {
                &&& final(self).state.purged_next == upto.index + 1
                &&& final(self).output.commands@ == old(self).output.commands@.push(
                    Command::PurgeLog { upto },
                )
                &&& forall|idx: int|
                    idx > upto.index ==> final(self).state.log_ids.log_id_at(idx) == old(self).state.log_ids.log_id_at(idx)
                &&& (old(self).state.log_ids.key_log_ids@.len() == 0 || upto.index >= old(self).state.log_ids.key_log_ids@.last().index ==> final(self).state.last_purged_spec()
                    == Option::Some(upto) && final(self).state.last_log_id_spec() == Option::Some(
                    upto,
                ))
                &&& (old(self).state.log_ids.key_log_ids@.len() > 0 && old(self).state.log_ids.first_key_index_spec() <= upto.index < old(self).state.log_ids.key_log_ids@.last().index ==> final(self).state.last_purged_spec()
                    == old(self).state.log_ids.log_id_at(upto.index as int) && final(self).state.last_log_id_spec() == old(self).state.last_log_id_spec())
            },
    {
        let last_purged = self.state.last_purged_log_id();
        if opt_le(&Option::Some(upto), &last_purged) {
            return ;
        }
        let ghost okeys = self.state.log_ids;
        self.state.purged_next = upto.index + 1;
        self.state.log_ids.purge(upto);
        self.output.push_command(Command::PurgeLog { upto });
        proof {
            if okeys.key_log_ids@.len() > 0 && okeys.first_key_index_spec() <= upto.index
                < okeys.key_log_ids@.last().index && old(self).state.purged_next > 0 {
                crate::log_id_list::lemma_leader_at_key(
                    okeys.key_log_ids@,
                    0,
                    okeys.first_key_index_spec(),
                );
                if okeys.first_key_index_spec() < upto.index {
                    crate::log_id_list::lemma_log_id_at_increasing(
                        okeys,
                        okeys.first_key_index_spec(),
                        upto.index as int,
                    );
                }
            }
        }
    }

    /// The log id up to which applied entries can be purged, keeping
    /// `max_in_snapshot_log_to_keep` entries of the snapshot, and only in
    /// batches of at least `purge_batch_size`.
    pub fn calc_purge_upto(&self) -> (r: Option<LogId>)
        requires
            self.wf(),
            self.config.purge_batch_size >= 1,
            next_index_of(self.state.snapshot_meta.last_log_id) <= u64::MAX,
        ensures
            ({
                let pe = if next_index_of(self.state.snapshot_meta.last_log_id)
                    >= self.config.max_in_snapshot_log_to_keep {
                    next_index_of(self.state.snapshot_meta.last_log_id)
                        - self.config.max_in_snapshot_log_to_keep
                } else {
                    0
                };
                r == if next_index_of(self.state.last_purged_spec())
                    + self.config.purge_batch_size > pe {
                    Option::<LogId>::None
                } else {
                    self.state.log_ids.log_id_at(pe - 1)
                }
            }),
    {
        let max_keep = self.config.max_in_snapshot_log_to_keep;
        let batch_size = self.config.purge_batch_size;
        let snap_next = next_index(&self.state.snapshot_meta.last_log_id);
        let purge_end = if snap_next >= max_keep {
            snap_next - max_keep
        } else {
            0
        };
        let last_purged = self.state.last_purged_log_id();
        // `purged_next + batch_size > purge_end`, checked without overflow
        if purge_end < batch_size {
            return Option::None;
        }
        let too_soon = match &last_purged {
            Option::None => false,
            Option::Some(l) => l.index >= purge_end - batch_size,
        };
        if too_soon {
            return Option::None;
        }
        self.state.get_log_id(purge_end - 1)
    }

    /// Purge logs that the snapshot already covers, if a large enough
    /// batch is due.
    pub fn purge_in_snapshot_log(&mut self)
        requires
            old(self).wf(),
            old(self).config.purge_batch_size >= 1,
            next_index_of(old(self).state.snapshot_meta.last_log_id) <= u64::MAX,
        ensures
            final(self).wf(),
            final(self).config == old(self).config,
            final(self).internal_server_state == old(self).internal_server_state,
            final(self).state == (RaftState {
                purged_next: final(self).state.purged_next,
                log_ids: final(self).state.log_ids,
                ..old(self).state
            }),
            opt_log_id_le(old(self).state.last_purged_spec(), final(self).state.last_purged_spec()),
            old(self).output.commands@.is_prefix_of(final(self).output.commands@),
            next_index_of(old(self).state.snapshot_meta.last_log_id) <= next_index_of(
                old(self).state.committed,
            ) && next_index_of(old(self).state.last_purged_spec()) <= next_index_of(
                old(self).state.committed,
            ) ==> next_index_of(final(self).state.last_purged_spec()) <= next_index_of(
                old(self).state.committed,
            ),
    {
        match self.calc_purge_upto() {
            Option::Some(upto) => {
                proof {
                    assert(self.state.log_ids.in_range(upto.index as int));
                }
                self.purge_log(upto);
            },
            Option::None => {},
        }
    }

    /// A snapshot of the local state machine finished building: remember
    /// it if it is newer than the stored one, and purge covered logs.
    pub fn finish_building_snapshot(&mut self, meta: SnapshotMeta)
        requires
            old(self).wf(),
            old(self).config.purge_batch_size >= 1,
            meta.last_log_id matches Option::Some(s) ==> s.index < u64::MAX,
        ensures
            final(self).wf(),
            final(self).config == old(self).config,
            final(self).internal_server_state == old(self).internal_server_state,
            !opt_log_id_lt(old(self).state.snapshot_meta.last_log_id, meta.last_log_id) ==>
                *final(self) == *old(self),
            opt_log_id_lt(old(self).state.snapshot_meta.last_log_id, meta.last_log_id) ==> {
                &&& final(self).state.snapshot_meta@ == meta@
                &&& final(self).state.vote == old(self).state.vote
                &&& final(self).state.committed == old(self).state.committed
                &&& final(self).state.membership_state == old(self).state.membership_state
                &&& opt_log_id_le(
                    old(self).state.last_purged_spec(),
                    final(self).state.last_purged_spec(),
                )
                &&& (next_index_of(meta.last_log_id) <= next_index_of(old(self).state.committed)
                    && next_index_of(old(self).state.last_purged_spec()) <= next_index_of(
                    old(self).state.committed,
                ) ==> next_index_of(final(self).state.last_purged_spec()) <= next_index_of(
                    old(self).state.committed,
                ))
            },
            old(self).output.commands@.is_prefix_of(final(self).output.commands@),
    {
        let updated = self.update_snapshot(&meta);
        if !updated {
            return ;
        }
        self.purge_in_snapshot_log();
    }

    /// A leader steps down once a membership that no longer lists it as a
    /// voter is committed; until then it keeps replicating.
    pub fn leader_step_down(&mut self)
        requires
            old(self).wf(),
        ensures
            final(self).wf(),
            final(self).config == old(self).config,
            ({
                let quit = opt_log_id_le(
                    old(self).state.membership_state.effective.log_id,
                    old(self).state.committed,
                ) && !old(self).is_voter_spec() && old(self).is_leading_spec();
                &&& !quit ==> *final(self) == *old(self)
                &&& quit ==> {
                    &&& final(self).internal_server_state == InternalServerState::Following
                    &&& final(self).state == (RaftState {
                        server_state: final(self).state.server_state,
                        ..old(self).state
                    })
                    &&& (old(self).internal_server_state !is Following ==> final(self).server_state_consistent())
                    &&& final(self).output.commands@ == old(self).output.commands@ + seq![
                        Command::InstallElectionTimer {
                            can_be_leader: !old(self).state.vote.committed,
                        },
                    ] + (if old(self).internal_server_state !is Following {
                        server_transition_commands(
                            old(self).state.server_state,
                            old(self).calc_server_state_spec(),
                        )
                    } else {
                        Seq::<Command>::empty()
                    })
                }
            }),
            old(self).output.commands@.is_prefix_of(final(self).output.commands@),
    {
        let em_log_id = self.state.membership_state.effective.log_id;
        let committed_covers = opt_le(&em_log_id, &self.state.committed);
        if committed_covers {
            if !self.is_voter() && self.is_leading() {
                self.enter_following();
                return ;
            }
        }
        proof {
            assert(old(self).output.commands@ =~= self.output.commands@.subrange(
                0,
                old(self).output.commands@.len() as int,
            ));
        }
    }

    /// Bring the engine up from stored state: a node that was leader
    /// resumes leading at once; any other classifies itself follower or
    /// learner by its voter status.
    pub fn startup(&mut self)
        requires
            old(self).wf(),
            next_index_of(old(self).state.last_log_id_spec()) <= u64::MAX,
        ensures
            final(self).wf(),
            final(self).config == old(self).config,
            final(self).state == (RaftState {
                server_state: final(self).state.server_state,
                ..old(self).state
            }),
            old(self).output.commands@.is_prefix_of(final(self).output.commands@),
            old(self).is_leader_spec() ==> final(self).internal_server_state is Leading && final(self).server_state_consistent(),
            old(self).is_leader_spec() ==> exists|ts: Vec<(u64, ProgressEntry)>|
                #![trigger ts@]
                final(self).output.commands@ == old(self).output.commands@
                    + server_transition_commands(
                    old(self).state.server_state,
                    old(self).calc_server_state_spec(),
                ) + seq![Command::UpdateReplicationStreams { targets: ts }] && ts@ == final(self).internal_server_state->Leading_0.progress.entries@.filter(
                    |e: (u64, ProgressEntry)| e.0 != old(self).config.id,
                ),
            !old(self).is_leader_spec() ==> final(self).internal_server_state == old(self).internal_server_state && final(self).state.server_state == (if old(self).is_voter_spec() {
                ServerState::Follower
            } else {
                ServerState::Learner
            }) && final(self).output == old(self).output,
    {
        // A node that was leader restores its leadership at once.
        if self.is_leader() {
            self.switch_internal_server_state();
            self.update_server_state_if_changed();
            self.update_replications();
            return ;
        }
        let server_state = if self.state.membership_state.is_voter(self.config.id) {
            ServerState::Follower
        } else {
            ServerState::Learner
        };
        self.state.server_state = server_state;
    }
}

impl Engine {
    /// A follower or learner installs a snapshot received from the
    /// leader.
    ///
    /// A snapshot that reaches no further than the committed log id is
    /// obsolete: it is cancelled and nothing else happens.  Otherwise a
    /// conflicting local log is truncated, the committed log id and the
    /// committed membership move to what the snapshot covers, and the
    /// covered log is purged.
    pub fn install_snapshot(&mut self, meta: SnapshotMeta)
        requires
            old(self).wf(),
            meta.last_membership.membership.wf(),
            meta.last_log_id matches Option::Some(s) ==> s.index < u64::MAX,
            next_index_of(old(self).state.committed) <= u64::MAX,
            old(self).state.log_coherent(),
            meta.last_log_id matches Option::Some(s) ==> (opt_log_id_lt(
                old(self).state.committed,
                Option::Some(s),
            ) ==> next_index_of(old(self).state.committed) <= s.index),
        ensures
            final(self).wf(),
            final(self).config == old(self).config,
            final(self).state.vote == old(self).state.vote,
            opt_log_id_le(old(self).state.committed, final(self).state.committed),
            old(self).output.commands@.is_prefix_of(final(self).output.commands@),
            opt_log_id_le(meta.last_log_id, old(self).state.committed) ==> final(self).state
                == old(self).state && final(self).internal_server_state == old(self).internal_server_state && final(self).output.commands@ == old(self).output.commands@.push(Command::CancelSnapshot { snapshot_meta: meta }),
            !opt_log_id_le(meta.last_log_id, old(self).state.committed) && !opt_log_id_lt(
                old(self).state.snapshot_meta.last_log_id,
                meta.last_log_id,
            ) ==> *final(self) == *old(self),
            !opt_log_id_le(meta.last_log_id, old(self).state.committed) && opt_log_id_lt(
                old(self).state.snapshot_meta.last_log_id,
                meta.last_log_id,
            ) ==> {
                &&& final(self).state.committed == meta.last_log_id
                &&& final(self).state.snapshot_meta@ == meta@
                &&& exists|i: int|
                    old(self).output.commands@.len() <= i < final(self).output.commands@.len()
                        && ((#[trigger] final(self).output.commands@[i]) matches
                        Command::InstallSnapshot { snapshot_meta } && snapshot_meta@ == meta@)
                &&& opt_log_id_le(
                    old(self).state.last_purged_spec(),
                    final(self).state.last_purged_spec(),
                )
                &&& final(self).state.membership_state.committed@ == (if opt_log_id_lt(
                    old(self).state.membership_state.committed.log_id,
                    meta.last_membership.log_id,
                ) {
                    meta.last_membership@
                } else {
                    old(self).state.membership_state.committed@
                })
                &&& ((old(self).state.log_ids.log_id_at(
                    meta.last_log_id->Some_0.index as int,
                ) is None || old(self).state.log_ids.log_id_at(
                    meta.last_log_id->Some_0.index as int,
                ) == meta.last_log_id) ==> final(self).state.membership_state.effective@ == (if opt_index_le(
                    old(self).state.membership_state.effective.log_id,
                    meta.last_membership.log_id,
                ) {
                    meta.last_membership@
                } else {
                    old(self).state.membership_state.effective@
                }))
                &&& (old(self).state.log_ids.log_id_at(meta.last_log_id->Some_0.index as int)
                    != meta.last_log_id && !opt_log_id_le(
                    meta.last_log_id,
                    old(self).state.last_purged_spec(),
                ) ==> final(self).state.last_log_id_spec() == meta.last_log_id)
                &&& (old(self).state.log_ids.log_id_at(meta.last_log_id->Some_0.index as int)
                    == meta.last_log_id ==> (forall|idx: int|
                    idx > meta.last_log_id->Some_0.index && old(self).state.log_ids.in_range(idx)
                        ==> final(self).state.log_ids.log_id_at(idx) == old(self).state.log_ids.log_id_at(idx)))
                &&& (!opt_log_id_le(meta.last_log_id, old(self).state.last_purged_spec()) ==> {
                    &&& final(self).state.purged_next == meta.last_log_id->Some_0.index + 1
                    &&& final(self).state.last_purged_spec() == meta.last_log_id
                    &&& final(self).output.commands@.last() == (Command::PurgeLog {
                        upto: meta.last_log_id->Some_0,
                    })
                    &&& (final(self).output.commands@[final(self).output.commands@.len() - 2]
                        matches Command::InstallSnapshot { snapshot_meta } && snapshot_meta@
                        == meta@)
                })
            },
    {
        if opt_le(&meta.last_log_id, &self.state.committed) {
            // The snapshot reaches no further than what is already
            // committed and applied: drop it.
            self.output.push_command(Command::CancelSnapshot { snapshot_meta: meta });
            return ;
        }
        let updated = self.update_snapshot(&meta);
        if !updated {
            return ;
        }
        let snap_last = match &meta.last_log_id {
            Option::Some(s) => *s,
            Option::None => {
                // A snapshot without a last log id ranks below every
                // committed id and was already cancelled above.
                proof {
                    assert(false);
                }
                return ;
            },
        };
        let ghost pre_trunc = *self;
        // A local log id at the snapshot's index that differs from it
        // conflicts with a committed entry: every non-committed log entry
        // goes.
        let local = self.state.get_log_id(snap_last.index);
        match &local {
            Option::Some(local_id) => {
                if !(*local_id == snap_last) {
                    let next_committed = next_index(&self.state.committed);
                    self.truncate_logs(next_committed);
                }
            },
            Option::None => {},
        }
        self.state.committed = Option::Some(snap_last);
        let committed_membership = meta.last_membership.membership.clone();
        proof {
            crate::membership::lemma_membership_wf_from_view(
                meta.last_membership.membership,
                committed_membership,
            );
        }
        self.update_committed_membership(
            EffectiveMembership::new(meta.last_membership.log_id, committed_membership),
        );
        let ghost c2 = self.output.commands@;
        self.output.push_command(Command::InstallSnapshot { snapshot_meta: meta });
        let ghost c3 = self.output.commands@;
        proof {
            assert((c3[c3.len() - 1] matches Command::InstallSnapshot { snapshot_meta }
                && snapshot_meta@ == meta@));
        }
        self.purge_log(snap_last);
        proof {
            crate::command::lemma_prefix_push(
                c2,
                Command::InstallSnapshot { snapshot_meta: meta },
            );
            crate::command::lemma_prefix_index(c3, self.output.commands@, c3.len() - 1);
            assert((self.output.commands@[c3.len() - 1] matches Command::InstallSnapshot {
                snapshot_meta,
            } && snapshot_meta@ == meta@));
        }
    }
}

impl Engine {
    /// Append new client entries as leader: assign them contiguous log
    /// ids under the current leadership, take over any membership config
    /// they carry, and replicate them.
    ///
    /// A membership entry changes the condition to commit from that entry
    /// on, so progress is updated under the old quorum set up to just
    /// before each membership entry, then under the new one — that is
    /// what makes the fast commit across a membership boundary sound.
    pub fn leader_append_entries(&mut self, entries: &mut Vec<Entry>)
        requires
            old(self).wf(),
            next_index_of(old(self).state.last_log_id_spec()) + old(entries)@.len() <= u64::MAX,
            old(entries)@.len() > 0 ==> (old(self).state.last_log_id_spec() matches Option::Some(l)
                ==> leader_le(
                l.leader_id,
                LeaderId { term: old(self).state.vote.term, node_id: old(self).state.vote.node_id },
            )),
            forall|k: int|
                0 <= k < old(entries)@.len() && (#[trigger] old(entries)@[k]).membership_spec() is Some ==> old(entries)@[k].membership_spec()->Some_0.wf(),
        ensures
            final(self).wf(),
            final(self).config == old(self).config,
            old(entries)@.len() == 0 ==> *final(self) == *old(self) && *final(entries) == *old(entries),
            final(self).state.vote == old(self).state.vote,
            final(self).state.purged_next == old(self).state.purged_next,
            final(self).state.snapshot_meta == old(self).state.snapshot_meta,
            opt_log_id_le(old(self).state.committed, final(self).state.committed),
            old(self).output.commands@.is_prefix_of(final(self).output.commands@),
            old(self).state.server_state == ServerState::Leader ==> final(self).state.server_state
                == ServerState::Leader,
            old(entries)@.len() > 0 ==> {
                &&& final(entries)@.len() == old(entries)@.len()
                &&& forall|k: int|
                    0 <= k < old(entries)@.len() ==> (#[trigger] final(entries)@[k]) == (Entry {
                        log_id: LogId {
                            leader_id: LeaderId {
                                term: old(self).state.vote.term,
                                node_id: old(self).state.vote.node_id,
                            },
                            index: (next_index_of(old(self).state.last_log_id_spec()) + k) as u64,
                        },
                        payload: old(entries)@[k].payload,
                    })
                &&& final(self).state.last_log_id_spec() == Option::Some(final(entries)@.last().log_id)
                &&& final(self).output.commands@[old(self).output.commands@.len() as int] == (
                Command::AppendInputEntries { begin: 0, end: old(entries)@.len() as usize })
                &&& final(self).output.commands@.last() == (Command::MoveInputCursorBy {
                    n: old(entries)@.len() as usize,
                })
                &&& final(self).output.commands@[final(self).output.commands@.len() - 2] == (
                Command::ReplicateEntries { upto: Option::Some(final(entries)@.last().log_id) })
                &&& (last_mem_index(old(entries)@, old(entries)@.len() as int) < 0 ==> final(self).state.membership_state == old(self).state.membership_state)
                &&& (last_mem_index(old(entries)@, old(entries)@.len() as int) >= 0 ==> {
                    let i1 = last_mem_index(old(entries)@, old(entries)@.len() as int);
                    &&& final(self).state.membership_state.effective.log_id == Option::Some(
                        final(entries)@[i1].log_id,
                    )
                    &&& final(self).state.membership_state.effective.membership@ == old(entries)@[i1].membership_spec()->Some_0@
                })
            },
    {
        let l = entries.len();
        if l == 0 {
            return ;
        }
        self.assign_log_ids(entries);
        self.state.extend_log_ids(entries, 0);
        self.output.push_command(Command::AppendInputEntries { begin: 0, end: l });
        let ghost c1 = self.output.commands@;
        let ghost assigned = entries@;
        let ghost pre = *self;
        proof {
            assert forall|k: int| 0 <= k < l implies (#[trigger] entries@[k]).membership_spec()
                == old(entries)@[k].membership_spec() by {
                assert(entries@[k].payload == old(entries)@[k].payload);
            }
        }
        // Walk the batch: before each membership entry, update progress
        // under the quorum set still in force, then switch to the new one.
        let mut i: usize = 0;
        while i < l
            invariant
                self.wf(),
                l == entries@.len(),
                i <= l,
                entries@ == assigned,
                self.config == pre.config,
                self.state.vote == pre.state.vote,
                self.state.purged_next == pre.state.purged_next,
                self.state.snapshot_meta == pre.state.snapshot_meta,
                self.state.log_ids == pre.state.log_ids,
                opt_log_id_le(pre.state.committed, self.state.committed),
                c1.is_prefix_of(self.output.commands@),
                pre.state.server_state == ServerState::Leader ==> self.state.server_state
                    == ServerState::Leader,
                next_index_of(self.state.last_log_id_spec()) <= u64::MAX,
                forall|k: int|
                    0 <= k < l ==> ((#[trigger] entries@[k]).log_id.index as int) < next_index_of(
                        self.state.last_log_id_spec(),
                    ),
                forall|k: int|
                    0 <= k < l ==> (#[trigger] entries@[k]).log_id.index >= 1 ==> entries@[k].log_id.index - 1 < u64::MAX,
                forall|k: int|
                    0 <= k < l && (#[trigger] entries@[k]).membership_spec() is Some
                        ==> entries@[k].membership_spec()->Some_0.wf(),
                last_mem_index(entries@, i as int) < 0 ==> self.state.membership_state
                    == pre.state.membership_state,
                last_mem_index(entries@, i as int) >= 0 ==> {
                    let im = last_mem_index(entries@, i as int);
                    &&& self.state.membership_state.effective.log_id == Option::Some(
                        entries@[im].log_id,
                    )
                    &&& self.state.membership_state.effective.membership@
                        == entries@[im].membership_spec()->Some_0@
                },
            decreases l - i,
        {
            let has_membership = match entries[i].get_membership() {
                Option::Some(_) => true,
                Option::None => false,
            };
            if has_membership {
                let log_index = entries[i].get_log_id().index;
                if log_index > 0 {
                    // Commit what the old quorum set already matches.
                    match self.state.get_log_id(log_index - 1) {
                        Option::Some(prev) => {
                            self.update_progress(self.config.id, Option::Some(prev));
                        },
                        Option::None => {},
                    }
                }
                // From this entry on, the new membership decides commits.
                let log_id = entries[i].get_log_id();
                match entries[i].get_membership() {
                    Option::Some(m) => {
                        self.update_effective_membership(&log_id, m);
                    },
                    Option::None => {},
                }
            }
            proof {
                assert(last_mem_index(entries@, i + 1) == if entries@[i as int].membership_spec() is Some {
                    i as int
                } else {
                    last_mem_index(entries@, i as int)
                });
            }
            i = i + 1;
        }
        proof {
            assert forall|k: int| 0 <= k < l implies (#[trigger] entries@[k]).membership_spec()
                == old(entries)@[k].membership_spec() by {
                assert(entries@[k].payload == old(entries)@[k].payload);
            }
            lemma_last_mem_index_same(assigned, old(entries)@, l as int);
            lemma_last_mem_index_found(assigned, l as int);
            lemma_last_mem_index_lt(assigned, l as int);
        }
        let last_log_id = entries[l - 1].get_log_id();
        self.update_progress(self.config.id, Option::Some(last_log_id));
        let ghost c2 = self.output.commands@;
        // Replication reaches learners too, even what fast commit already
        // covers.
        self.output.push_command(
            Command::ReplicateEntries { upto: Option::Some(last_log_id) },
        );
        self.output.push_command(Command::MoveInputCursorBy { n: l });
        proof {
            let c0 = old(self).output.commands@;
            let n = c0.len() as int;
            crate::command::lemma_prefix_push(c0, c1[n]);
            crate::command::lemma_prefix_trans(c0, c1, c2);
            crate::command::lemma_prefix_push(
                c2,
                Command::ReplicateEntries { upto: Option::Some(last_log_id) },
            );
            crate::command::lemma_prefix_push(
                c2.push(Command::ReplicateEntries { upto: Option::Some(last_log_id) }),
                Command::MoveInputCursorBy { n: l },
            );
            crate::command::lemma_prefix_trans(
                c0,
                c2,
                c2.push(Command::ReplicateEntries { upto: Option::Some(last_log_id) }),
            );
            crate::command::lemma_prefix_trans(
                c0,
                c2.push(Command::ReplicateEntries { upto: Option::Some(last_log_id) }),
                self.output.commands@,
            );
            crate::command::lemma_prefix_trans(
                c1,
                c2,
                self.output.commands@,
            );
            crate::command::lemma_prefix_index(c1, self.output.commands@, n);
        }
    }
}

/// Entries of one coherent batch carry strictly increasing log ids.
pub proof fn lemma_entries_ordered(entries: Seq<Entry>, i: int, j: int)
    requires
        entries_coherent(entries),
        0 <= i < j < entries.len(),
    ensures
        log_id_lt(entries[i].log_id, entries[j].log_id),
    decreases j - i,
{
    if j == i + 1 {
    } else {
        lemma_entries_ordered(entries, i, j - 1);
        lemma_entries_ordered(entries, j - 1, j);
    }
}

/// Membership ordering: when a follower takes two membership configs out
/// of one coherent batch, the one that becomes committed was defined
/// strictly before the one that becomes effective, so
/// `committed_membership.log_id` stays below `effective_membership.log_id`.
pub proof fn lemma_membership_ordering(entries: Seq<Entry>, since: int)
    requires
        entries_coherent(entries),
        0 <= since <= entries.len(),
        last_mem_index(entries, last_mem_index(entries, entries.len() as int)) >= since,
    ensures
        log_id_lt(
            entries[last_mem_index(entries, last_mem_index(entries, entries.len() as int))].log_id,
            entries[last_mem_index(entries, entries.len() as int)].log_id,
        ),
{
    let i1 = last_mem_index(entries, entries.len() as int);
    let i0 = last_mem_index(entries, i1);
    lemma_last_mem_index_lt(entries, entries.len() as int);
    lemma_last_mem_index_lt(entries, i1);
    lemma_entries_ordered(entries, i0, i1);
}

} // verus!
