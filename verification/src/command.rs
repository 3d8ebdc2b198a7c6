//! The commands the engine emits for the runtime, and the queue they go to.

use vstd::prelude::*;
use crate::log_id::LogId;
use crate::membership::EffectiveMembership;
use crate::message::VoteRequest;
use crate::progress::ProgressEntry;
use crate::raft_state::SnapshotMeta;
use crate::vote::Vote;

verus! {

/// Which groups of metrics the emitted commands touched.
#[derive(Clone, Copy, PartialEq, Eq, Structural, Debug)]
pub struct MetricsChangeFlags {
    pub replication: bool,
    pub local_data: bool,
    pub cluster: bool,
}

impl Default for MetricsChangeFlags {
    fn default() -> (r: MetricsChangeFlags)
        ensures
            r == (MetricsChangeFlags { replication: false, local_data: false, cluster: false }),
    {
        MetricsChangeFlags { replication: false, local_data: false, cluster: false }
    }
}

/// One instruction to the runtime.  The runtime must execute the queued
/// commands in order.
#[derive(Debug, PartialEq)]
pub enum Command {
    /// Persist the vote durably before anything observable to a peer.
    SaveVote { vote: Vote },
    /// Append input entries `begin..end` to the log store.
    AppendInputEntries { begin: usize, end: usize },
    /// Append an empty entry with the given id.
    AppendBlankLog { log_id: LogId },
    /// Advance the caller's cursor over its input buffer.
    MoveInputCursorBy { n: usize },
    /// Reconfigure to the given effective membership.
    UpdateMembership { membership: EffectiveMembership },
    /// Delete conflicting log entries from `since` on, inclusive.
    DeleteConflictLog { since: LogId },
    /// Purge log entries up to `upto`, inclusive.
    PurgeLog { upto: LogId },
    /// Send a vote request to the other voters.
    SendVote { vote_req: VoteRequest },
    /// Replicate log entries up to `upto`.
    ReplicateEntries { upto: Option<LogId> },
    /// Tell followers how far the leader has committed.
    ReplicateCommitted { committed: Option<LogId> },
    /// Rebuild the replication streams towards these targets.
    UpdateReplicationStreams { targets: Vec<(u64, ProgressEntry)> },
    /// Report replication progress of one target.
    UpdateReplicationMetrics { target: u64, matching: LogId },
    /// Apply `(already_committed, upto]` to the state machine, as follower.
    FollowerCommit { already_committed: Option<LogId>, upto: LogId },
    /// Apply `(already_committed, upto]` to the state machine, as leader.
    LeaderCommit { already_committed: Option<LogId>, upto: LogId },
    /// The node became leader.
    BecomeLeader,
    /// The node stopped being leader.
    QuitLeader,
    /// Reset the election timer; with `can_be_leader` false use the longer,
    /// leader-exists window.
    InstallElectionTimer { can_be_leader: bool },
    /// Replace state machine and stored snapshot by the given snapshot.
    InstallSnapshot { snapshot_meta: SnapshotMeta },
    /// Drop an obsolete incoming snapshot.
    CancelSnapshot { snapshot_meta: SnapshotMeta },
}

/// Whether a command changes replication-related metrics.
pub open spec fn sets_replication(cmd: Command) -> bool {
    match cmd {
        Command::UpdateReplicationStreams { .. } => true,
        Command::UpdateReplicationMetrics { .. } => true,
        _ => false,
    }
}

/// Whether a command changes this node's own data.
pub open spec fn sets_local_data(cmd: Command) -> bool {
    match cmd {
        Command::SaveVote { .. } => true,
        Command::AppendInputEntries { .. } => true,
        Command::AppendBlankLog { .. } => true,
        Command::DeleteConflictLog { .. } => true,
        Command::PurgeLog { .. } => true,
        Command::FollowerCommit { .. } => true,
        Command::LeaderCommit { .. } => true,
        Command::InstallSnapshot { .. } => true,
        _ => false,
    }
}

/// Whether a command changes the cluster shape.
pub open spec fn sets_cluster(cmd: Command) -> bool {
    match cmd {
        Command::UpdateMembership { .. } => true,
        Command::BecomeLeader => true,
        Command::QuitLeader => true,
        _ => false,
    }
}

/// The command queue the runtime drains after each input, with the
/// metrics-change flags the queued commands accumulated.
#[derive(Debug, PartialEq)]
pub struct EngineOutput {
    pub metrics_flags: MetricsChangeFlags,
    pub commands: Vec<Command>,
}

impl Default for EngineOutput {
    fn default() -> (r: EngineOutput)
        ensures
            r.metrics_flags == (MetricsChangeFlags {
                replication: false,
                local_data: false,
                cluster: false,
            }),
            r.commands@ == Seq::<Command>::empty(),
    {
        let r = EngineOutput { metrics_flags: MetricsChangeFlags::default(), commands: Vec::new() };
        proof {
            assert(r.commands@ =~= Seq::<Command>::empty());
        }
        r
    }
}

impl EngineOutput {
    /// Queue one command and fold its metrics effect into the flags.
    pub fn push_command(&mut self, cmd: Command)
        ensures
            final(self).commands@ == old(self).commands@.push(cmd),
            final(self).metrics_flags == (MetricsChangeFlags {
                replication: old(self).metrics_flags.replication || sets_replication(cmd),
                local_data: old(self).metrics_flags.local_data || sets_local_data(cmd),
                cluster: old(self).metrics_flags.cluster || sets_cluster(cmd),
            }),
    {
        let replication = match &cmd {
            Command::UpdateReplicationStreams { .. } => true,
            Command::UpdateReplicationMetrics { .. } => true,
            _ => false,
        };
        let local_data = match &cmd {
            Command::SaveVote { .. } => true,
            Command::AppendInputEntries { .. } => true,
            Command::AppendBlankLog { .. } => true,
            Command::DeleteConflictLog { .. } => true,
            Command::PurgeLog { .. } => true,
            Command::FollowerCommit { .. } => true,
            Command::LeaderCommit { .. } => true,
            Command::InstallSnapshot { .. } => true,
            _ => false,
        };
        let cluster = match &cmd {
            Command::UpdateMembership { .. } => true,
            Command::BecomeLeader => true,
            Command::QuitLeader => true,
            _ => false,
        };
        self.metrics_flags = MetricsChangeFlags {
            replication: self.metrics_flags.replication || replication,
            local_data: self.metrics_flags.local_data || local_data,
            cluster: self.metrics_flags.cluster || cluster,
        };
        self.commands.push(cmd);
    }
}

/// A sequence is a prefix of itself extended by one element.
pub proof fn lemma_prefix_push<T>(s: Seq<T>, x: T)
    ensures
        s.is_prefix_of(s.push(x)),
{
    assert(s =~= s.push(x).subrange(0, s.len() as int));
}

/// A sequence is a prefix of itself extended by any suffix.
pub proof fn lemma_prefix_concat<T>(s: Seq<T>, t: Seq<T>)
    ensures
        s.is_prefix_of(s + t),
{
    assert(s =~= (s + t).subrange(0, s.len() as int));
}

/// Being a prefix is transitive.
pub proof fn lemma_prefix_trans<T>(a: Seq<T>, b: Seq<T>, c: Seq<T>)
    requires
        a.is_prefix_of(b),
        b.is_prefix_of(c),
    ensures
        a.is_prefix_of(c),
{
    assert(a =~= c.subrange(0, a.len() as int));
}

/// A prefix agrees with the whole sequence at every index it covers.
pub proof fn lemma_prefix_index<T>(a: Seq<T>, b: Seq<T>, i: int)
    requires
        a.is_prefix_of(b),
        0 <= i < a.len(),
    ensures
        a[i] == b[i],
{
    assert(a[i] == b.subrange(0, a.len() as int)[i]);
}

} // verus!
