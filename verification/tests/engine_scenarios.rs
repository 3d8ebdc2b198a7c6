use raft_engine::command::Command;
use raft_engine::engine::Engine;
use raft_engine::log_id::{LeaderId, LogId};
use raft_engine::log_id_list::LogIdList;
use raft_engine::membership::{EffectiveMembership, Membership};
use raft_engine::message::{AppendEntriesResponse, Entry, EntryPayload, VoteRequest};
use raft_engine::raft_state::{ServerState, SnapshotMeta};
use raft_engine::vote::Vote;

fn log_id_of(term: u64, node_id: u64, index: u64) -> LogId {
    LogId { leader_id: LeaderId { term, node_id }, index }
}

#[test]
fn test_append_conflict() {
    // A follower holds log ids (1,1,1), (1,1,2).  A leader of term 2
    // sends an append whose preceding log id (2,2,2) conflicts: the
    // follower deletes from index 2 on and reports the conflict.
    let mut eng = Engine::default();
    eng.state.log_ids = LogIdList::new(vec![log_id_of(1, 1, 1), log_id_of(1, 1, 2)]);

    let vote = Vote::new(2, 2);
    let prev = Some(log_id_of(2, 2, 2));
    let entries: Vec<Entry> = vec![];

    let resp = eng.handle_append_entries_req(&vote, prev, &entries, None);

    assert_eq!(AppendEntriesResponse::Conflict, resp);
    assert_eq!(vote, eng.state.vote);
    assert_eq!(Some(log_id_of(1, 1, 1)), eng.state.last_log_id());
    assert_eq!(
        vec![
            Command::SaveVote { vote },
            Command::InstallElectionTimer { can_be_leader: true },
            Command::DeleteConflictLog { since: log_id_of(1, 1, 2) },
        ],
        eng.output.commands
    );
}

#[test]
fn test_append_entries_success_and_higher_vote() {
    // An append under an outdated vote is rejected with the engine's own
    // vote; one under an acceptable vote with a matching preceding log id
    // succeeds and commits what the leader reports committed.
    let mut eng = Engine::default();
    eng.state.vote = Vote::new_committed(3, 9);
    let stale = Vote::new(1, 7);
    let resp = eng.handle_append_entries_req(&stale, None, &vec![], None);
    assert_eq!(AppendEntriesResponse::HigherVote(Vote::new_committed(3, 9)), resp);
    assert_eq!(Vec::<Command>::new(), eng.output.commands);

    let mut eng = Engine::default();
    let vote = Vote::new_committed(1, 7);
    let entries = vec![
        Entry { log_id: log_id_of(1, 7, 0), payload: EntryPayload::Normal },
        Entry { log_id: log_id_of(1, 7, 1), payload: EntryPayload::Normal },
    ];
    let resp = eng.handle_append_entries_req(&vote, None, &entries, Some(log_id_of(1, 7, 0)));
    assert_eq!(AppendEntriesResponse::Success, resp);
    assert_eq!(Some(log_id_of(1, 7, 1)), eng.state.last_log_id());
    assert_eq!(Some(log_id_of(1, 7, 0)), eng.state.committed);
    assert_eq!(
        vec![
            Command::SaveVote { vote },
            Command::InstallElectionTimer { can_be_leader: false },
            Command::AppendInputEntries { begin: 0, end: 2 },
            Command::MoveInputCursorBy { n: 2 },
            Command::FollowerCommit { already_committed: None, upto: log_id_of(1, 7, 0) },
        ],
        eng.output.commands
    );
}

#[test]
fn test_fast_commit_across_membership_change() {
    // A single-voter leader appends five entries; the third changes the
    // membership from {1} to {1,2,3}.  The first two commit at once under
    // the old quorum; the later ones wait for the new quorum.
    let mut eng = Engine::default();
    eng.config.id = 1;
    eng.state.vote = Vote::new_committed(1, 1);
    eng.state.membership_state.effective =
        EffectiveMembership::new(Some(log_id_of(0, 0, 0)), Membership::new(vec![vec![1]], None));
    eng.state.server_state = ServerState::Leader;
    eng.new_leader();

    let m123 = Membership::new(vec![vec![1, 2, 3]], None);
    let mut entries = vec![
        Entry::new(EntryPayload::Normal),
        Entry::new(EntryPayload::Normal),
        Entry::new(EntryPayload::Membership(m123.clone())),
        Entry::new(EntryPayload::Normal),
        Entry::new(EntryPayload::Normal),
    ];

    eng.leader_append_entries(&mut entries);

    // The first two entries are committed under the single-voter quorum;
    // nothing after the membership entry is.
    assert_eq!(Some(log_id_of(1, 1, 1)), eng.state.committed);
    assert_eq!(Some(log_id_of(1, 1, 4)), eng.state.last_log_id());
    assert_eq!(m123, eng.state.membership_state.effective.membership);
    assert_eq!(Some(log_id_of(1, 1, 2)), eng.state.membership_state.effective.log_id);

    assert_eq!(Command::AppendInputEntries { begin: 0, end: 5 }, eng.output.commands[0]);
    assert_eq!(
        Command::ReplicateCommitted { committed: Some(log_id_of(1, 1, 1)) },
        eng.output.commands[1]
    );
    assert_eq!(
        Command::LeaderCommit { already_committed: None, upto: log_id_of(1, 1, 1) },
        eng.output.commands[2]
    );
    assert_eq!(
        Command::UpdateMembership {
            membership: EffectiveMembership::new(Some(log_id_of(1, 1, 2)), m123),
        },
        eng.output.commands[3]
    );
    assert_eq!(
        Command::ReplicateEntries { upto: Some(log_id_of(1, 1, 4)) },
        eng.output.commands[5]
    );
    assert_eq!(Command::MoveInputCursorBy { n: 5 }, eng.output.commands[6]);
}

#[test]
fn test_fast_commit_on_membership_shrink() {
    // Changing the membership from {1,2,3} back to {1} puts the
    // single-voter quorum in force from the membership entry on: the
    // leader alone commits everything up to its last entry.
    let mut eng = Engine::default();
    eng.config.id = 1;
    eng.state.vote = Vote::new_committed(1, 1);
    eng.state.membership_state.effective = EffectiveMembership::new(
        Some(log_id_of(0, 0, 0)),
        Membership::new(vec![vec![1, 2, 3]], None),
    );
    eng.state.server_state = ServerState::Leader;
    eng.new_leader();

    let m1 = Membership::new(vec![vec![1]], None);
    let mut entries = vec![
        Entry::new(EntryPayload::Normal),
        Entry::new(EntryPayload::Membership(m1.clone())),
        Entry::new(EntryPayload::Normal),
    ];

    eng.leader_append_entries(&mut entries);

    // Nothing commits under {1,2,3}; everything commits under {1}.
    assert_eq!(Some(log_id_of(1, 1, 2)), eng.state.committed);
    assert_eq!(m1, eng.state.membership_state.effective.membership);
}

fn snapshot_meta(last: Option<LogId>, m: Membership) -> SnapshotMeta {
    SnapshotMeta {
        last_log_id: last,
        last_membership: EffectiveMembership::new(last, m),
        snapshot_id: String::from("snapshot-A"),
    }
}

#[test]
fn test_install_snapshot_ahead_of_log() {
    // A follower whose log ends at (1,1,3) with committed (1,1,2)
    // installs a snapshot covering (2,1,10): its committed id jumps to
    // the snapshot's, and the whole local log is purged.
    let mut eng = Engine::default();
    eng.state.log_ids = LogIdList::new(vec![log_id_of(1, 1, 0), log_id_of(1, 1, 3)]);
    eng.state.committed = Some(log_id_of(1, 1, 2));

    let m12 = Membership::new(vec![vec![1, 2]], None);
    let meta = snapshot_meta(Some(log_id_of(2, 1, 10)), m12.clone());

    eng.install_snapshot(meta);

    assert_eq!(Some(log_id_of(2, 1, 10)), eng.state.committed);
    assert_eq!(Some(log_id_of(2, 1, 10)), eng.state.last_log_id());
    assert_eq!(Some(log_id_of(2, 1, 10)), eng.state.last_purged_log_id());
    assert_eq!(m12, eng.state.membership_state.committed.membership);
    assert_eq!(
        vec![
            Command::UpdateMembership {
                membership: EffectiveMembership::new(Some(log_id_of(2, 1, 10)), m12.clone()),
            },
            Command::InstallSnapshot {
                snapshot_meta: snapshot_meta(Some(log_id_of(2, 1, 10)), m12),
            },
            Command::PurgeLog { upto: log_id_of(2, 1, 10) },
        ],
        eng.output.commands
    );
}

#[test]
fn test_install_snapshot_obsolete_is_noop() {
    // A snapshot at or below the committed log id only emits a
    // cancellation and changes nothing.
    let mut eng = Engine::default();
    eng.state.log_ids = LogIdList::new(vec![log_id_of(1, 1, 0), log_id_of(1, 1, 3)]);
    eng.state.committed = Some(log_id_of(1, 1, 2));

    let m12 = Membership::new(vec![vec![1, 2]], None);
    let meta = snapshot_meta(Some(log_id_of(1, 1, 1)), m12.clone());

    eng.install_snapshot(meta);

    assert_eq!(Some(log_id_of(1, 1, 2)), eng.state.committed);
    assert_eq!(Some(log_id_of(1, 1, 3)), eng.state.last_log_id());
    assert_eq!(None, eng.state.last_purged_log_id());
    assert_eq!(
        vec![
            Command::CancelSnapshot {
                snapshot_meta: snapshot_meta(Some(log_id_of(1, 1, 1)), m12),
            },
        ],
        eng.output.commands
    );
}

#[test]
fn test_truncate_logs_beyond_end_is_noop() {
    let mut eng = Engine::default();
    eng.state.log_ids = LogIdList::new(vec![log_id_of(1, 1, 0), log_id_of(1, 1, 3)]);

    eng.truncate_logs(4);

    assert_eq!(Some(log_id_of(1, 1, 3)), eng.state.last_log_id());
    assert_eq!(Vec::<Command>::new(), eng.output.commands);
}

#[test]
fn test_purge_log_already_purged_is_noop() {
    let mut eng = Engine::default();
    eng.state.log_ids = LogIdList::new(vec![log_id_of(1, 1, 0), log_id_of(1, 1, 5)]);
    eng.state.committed = Some(log_id_of(1, 1, 5));

    eng.purge_log(log_id_of(1, 1, 3));
    assert_eq!(Some(log_id_of(1, 1, 3)), eng.state.last_purged_log_id());
    assert_eq!(vec![Command::PurgeLog { upto: log_id_of(1, 1, 3) }], eng.output.commands);

    // Purging at or below the purged boundary changes nothing.
    eng.purge_log(log_id_of(1, 1, 2));
    eng.purge_log(log_id_of(1, 1, 3));
    assert_eq!(Some(log_id_of(1, 1, 3)), eng.state.last_purged_log_id());
    assert_eq!(vec![Command::PurgeLog { upto: log_id_of(1, 1, 3) }], eng.output.commands);
}

#[test]
fn test_handle_vote_req_idempotent() {
    // Granting a vote request leaves the engine granting the identical
    // request again.
    let mut eng = Engine::default();
    eng.state.log_ids = LogIdList::new(vec![log_id_of(1, 1, 1)]);

    let req = VoteRequest::new(Vote::new(2, 5), Some(log_id_of(1, 1, 1)));

    let first = eng.handle_vote_req(req);
    assert!(first.vote_granted);
    assert_eq!(Vote::new(2, 5), first.vote);
    assert_eq!(Some(log_id_of(1, 1, 1)), first.last_log_id);

    let second = eng.handle_vote_req(req);
    assert_eq!(first, second);
}

#[test]
fn test_handle_vote_req_rejects_shorter_log() {
    // A candidate whose log is older than ours is rejected, and our vote
    // stays put.
    let mut eng = Engine::default();
    eng.state.log_ids = LogIdList::new(vec![log_id_of(2, 1, 5)]);
    eng.state.vote = Vote::new(2, 1);

    let req = VoteRequest::new(Vote::new(3, 5), Some(log_id_of(1, 1, 4)));
    let resp = eng.handle_vote_req(req);

    assert!(!resp.vote_granted);
    assert_eq!(Vote::new(2, 1), resp.vote);
    assert_eq!(Some(log_id_of(2, 1, 5)), resp.last_log_id);
}

#[test]
fn test_handle_vote_resp_rejection_adopts_higher_vote() {
    // A candidate whose request is rejected by a peer with a higher vote
    // adopts that vote and waits out the timer.
    let mut eng = Engine::default();
    eng.config.id = 1;
    eng.state.membership_state.effective =
        EffectiveMembership::new(Some(log_id_of(0, 0, 0)), Membership::new(vec![vec![1, 2]], None));
    eng.state.log_ids = LogIdList::new(vec![log_id_of(1, 1, 1)]);
    eng.elect();
    let save_count = eng.output.commands.len();
    assert_eq!(Vote::new(1, 1), eng.state.vote);

    let resp = raft_engine::message::VoteResponse {
        vote: Vote::new(7, 2),
        vote_granted: false,
        last_log_id: Some(log_id_of(1, 1, 1)),
    };
    eng.handle_vote_resp(2, resp);

    assert_eq!(Vote::new(7, 2), eng.state.vote);
    // Adopting the higher vote ends the candidacy.
    assert!(eng.internal_server_state.leading().is_none());
    assert_eq!(ServerState::Follower, eng.state.server_state);
    assert_eq!(
        [
            Command::SaveVote { vote: Vote::new(7, 2) },
            Command::InstallElectionTimer { can_be_leader: true },
        ],
        eng.output.commands[save_count..]
    );
}

#[test]
fn test_handle_vote_resp_quorum_becomes_leader() {
    // A two-voter candidate becomes leader once the second voter grants.
    let mut eng = Engine::default();
    eng.config.id = 1;
    eng.state.membership_state.effective =
        EffectiveMembership::new(Some(log_id_of(0, 0, 0)), Membership::new(vec![vec![1, 2]], None));
    eng.elect();
    assert_eq!(ServerState::Candidate, eng.state.server_state);

    let resp = raft_engine::message::VoteResponse {
        vote: Vote::new(1, 1),
        vote_granted: true,
        last_log_id: None,
    };
    let n = eng.output.commands.len();
    eng.handle_vote_resp(2, resp);

    assert_eq!(Vote::new_committed(1, 1), eng.state.vote);
    assert_eq!(ServerState::Leader, eng.state.server_state);
    assert_eq!(Some(log_id_of(1, 1, 0)), eng.state.last_log_id());
    // The leader-establishment sequence: commit and save the vote,
    // announce the role, rebuild replication, append and replicate the
    // blank entry of the new term.  With voter 2 still unmatched, the
    // blank entry is not yet committed.
    assert_eq!(
        [
            Command::SaveVote { vote: Vote::new_committed(1, 1) },
            Command::BecomeLeader,
            Command::UpdateReplicationStreams {
                targets: vec![(2, raft_engine::progress::ProgressEntry::empty(0))],
            },
            Command::AppendBlankLog { log_id: log_id_of(1, 1, 0) },
            Command::ReplicateEntries { upto: Some(log_id_of(1, 1, 0)) },
        ],
        eng.output.commands[n..]
    );
}

#[test]
fn test_leader_step_down_after_removal_committed() {
    // A leader removed by a committed membership change turns follower
    // and announces quitting.
    let mut eng = Engine::default();
    eng.config.id = 1;
    eng.state.vote = Vote::new_committed(1, 1);
    eng.state.membership_state.effective =
        EffectiveMembership::new(Some(log_id_of(1, 1, 2)), Membership::new(vec![vec![2, 3]], None));
    eng.state.committed = Some(log_id_of(1, 1, 2));
    eng.state.log_ids = LogIdList::new(vec![log_id_of(1, 1, 2)]);
    eng.state.server_state = ServerState::Leader;
    eng.new_leader();

    eng.leader_step_down();

    assert_eq!(ServerState::Learner, eng.state.server_state);
    assert_eq!(
        vec![
            Command::InstallElectionTimer { can_be_leader: false },
            Command::QuitLeader,
        ],
        eng.output.commands
    );
}

#[test]
fn test_startup_as_leader_and_as_follower() {
    // Startup as a previous leader re-enters leading without an election.
    let mut eng = Engine::default();
    eng.config.id = 1;
    eng.state.vote = Vote::new_committed(1, 1);
    eng.state.membership_state.effective =
        EffectiveMembership::new(Some(log_id_of(0, 0, 0)), Membership::new(vec![vec![1, 2]], None));
    eng.startup();
    assert_eq!(ServerState::Leader, eng.state.server_state);
    assert!(eng.internal_server_state.leading().is_some());

    // Startup as a plain voter classifies as follower.
    let mut eng = Engine::default();
    eng.config.id = 2;
    eng.state.membership_state.effective =
        EffectiveMembership::new(Some(log_id_of(0, 0, 0)), Membership::new(vec![vec![1, 2]], None));
    eng.startup();
    assert_eq!(ServerState::Follower, eng.state.server_state);

    // Startup outside the membership classifies as learner.
    let mut eng = Engine::default();
    eng.config.id = 7;
    eng.state.membership_state.effective =
        EffectiveMembership::new(Some(log_id_of(0, 0, 0)), Membership::new(vec![vec![1, 2]], None));
    eng.startup();
    assert_eq!(ServerState::Learner, eng.state.server_state);
}

#[test]
fn test_finish_building_snapshot_purges_in_batches() {
    // A finished snapshot is remembered only when newer; covered logs are
    // purged in batches, keeping the configured tail.
    let mut eng = Engine::default();
    eng.config.max_in_snapshot_log_to_keep = 2;
    eng.config.purge_batch_size = 1;
    eng.state.log_ids = LogIdList::new(vec![log_id_of(1, 1, 0), log_id_of(1, 1, 9)]);
    eng.state.committed = Some(log_id_of(1, 1, 9));

    let m12 = Membership::new(vec![vec![1, 2]], None);
    eng.finish_building_snapshot(snapshot_meta(Some(log_id_of(1, 1, 8)), m12.clone()));

    // Snapshot covers up to 8; keeping 2 purges up to index 6.
    assert_eq!(Some(log_id_of(1, 1, 6)), eng.state.last_purged_log_id());
    assert_eq!(vec![Command::PurgeLog { upto: log_id_of(1, 1, 6) }], eng.output.commands);

    // An older snapshot is ignored entirely.
    eng.finish_building_snapshot(snapshot_meta(Some(log_id_of(1, 1, 5)), m12));
    assert_eq!(vec![Command::PurgeLog { upto: log_id_of(1, 1, 6) }], eng.output.commands);
}
