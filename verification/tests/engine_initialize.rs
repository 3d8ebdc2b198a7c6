use raft_engine::command::{Command, MetricsChangeFlags};
use raft_engine::engine::Engine;
use raft_engine::error::{InitializeError, NotAMembershipEntry, NotAllowed, NotInMembers};
use raft_engine::log_id::{LeaderId, LogId};
use raft_engine::log_id_list::LogIdList;
use raft_engine::membership::Membership;
use raft_engine::message::{Entry, EntryPayload, VoteRequest};
use raft_engine::raft_state::ServerState;
use raft_engine::vote::Vote;

fn eng() -> Engine {
    let mut eng = Engine::default();
    eng.state.server_state = eng.calc_server_state();
    eng
}

fn log_id0() -> LogId {
    LogId { leader_id: LeaderId::new(0, 0), index: 0 }
}

fn log_id(term: u64, index: u64) -> LogId {
    LogId { leader_id: LeaderId::new(term, 1), index }
}

#[test]
fn test_initialize_single_node() {
    let m1 = || Membership::new(vec![vec![1]], None);

    // --- ok: init empty node 1 with membership(1)
    // --- expect OK result, check output commands and state changes
    {
        let mut eng = eng();
        eng.config.id = 1;
        let mut entries = vec![Entry::new(EntryPayload::Membership(m1()))];

        eng.initialize(&mut entries).unwrap();

        assert_eq!(Some(log_id0()), eng.state.get_log_id(0));
        assert_eq!(Some(log_id(1, 1)), eng.state.get_log_id(1));
        assert_eq!(Some(log_id(1, 1)), eng.state.last_log_id());

        assert_eq!(ServerState::Leader, eng.state.server_state);
        assert_eq!(
            MetricsChangeFlags {
                // Command::UpdateReplicationStreams sets this flag,
                // although there is no replication to create.
                replication: true,
                local_data: true,
                cluster: true,
            },
            eng.output.metrics_flags
        );
        assert_eq!(m1(), eng.state.membership_state.effective.membership);

        assert_eq!(
            vec![
                Command::AppendInputEntries { begin: 0, end: 1 },
                Command::UpdateMembership {
                    membership: eng.state.membership_state.effective.clone()
                },
                // When the effective membership is updated, the engine
                // classifies itself follower, but initializing switches to
                // candidate and then to leader at once.
                Command::MoveInputCursorBy { n: 1 },
                Command::SaveVote { vote: Vote { term: 1, node_id: 1, committed: false } },
                // The vote is saved twice: once when the election starts,
                // once more when the node becomes leader.
                Command::SaveVote { vote: Vote { term: 1, node_id: 1, committed: true } },
                Command::BecomeLeader,
                Command::UpdateReplicationStreams { targets: vec![] },
                Command::AppendBlankLog {
                    log_id: LogId { leader_id: LeaderId { term: 1, node_id: 1 }, index: 1 },
                },
                Command::ReplicateCommitted {
                    committed: Some(LogId {
                        leader_id: LeaderId { term: 1, node_id: 1 },
                        index: 1,
                    }),
                },
                Command::LeaderCommit {
                    already_committed: None,
                    upto: LogId { leader_id: LeaderId { term: 1, node_id: 1 }, index: 1 },
                },
                Command::ReplicateEntries {
                    upto: Some(LogId { leader_id: LeaderId { term: 1, node_id: 1 }, index: 1 }),
                },
            ],
            eng.output.commands
        );
    }
}

#[test]
fn test_initialize() {
    let vote0 = Vote::new(0, 0);
    let m12 = || Membership::new(vec![vec![1, 2]], None);

    // --- ok: init empty node 1 with membership(1,2)
    // --- expect OK result, check output commands and state changes
    {
        let mut eng = eng();
        eng.config.id = 1;
        let mut entries = vec![Entry::new(EntryPayload::Membership(m12()))];

        eng.initialize(&mut entries).unwrap();

        assert_eq!(Some(log_id0()), eng.state.get_log_id(0));
        assert_eq!(None, eng.state.get_log_id(1));
        assert_eq!(Some(log_id0()), eng.state.last_log_id());

        assert_eq!(ServerState::Candidate, eng.state.server_state);
        assert_eq!(
            MetricsChangeFlags { replication: false, local_data: true, cluster: true },
            eng.output.metrics_flags
        );
        assert_eq!(m12(), eng.state.membership_state.effective.membership);

        assert_eq!(
            vec![
                Command::AppendInputEntries { begin: 0, end: 1 },
                Command::UpdateMembership {
                    membership: eng.state.membership_state.effective.clone()
                },
                Command::MoveInputCursorBy { n: 1 },
                Command::SaveVote { vote: Vote { term: 1, node_id: 1, committed: false } },
                Command::SendVote {
                    vote_req: VoteRequest {
                        vote: Vote { term: 1, node_id: 1, committed: false },
                        last_log_id: Some(LogId {
                            leader_id: LeaderId { term: 0, node_id: 0 },
                            index: 0,
                        }),
                    },
                },
                Command::InstallElectionTimer { can_be_leader: true },
            ],
            eng.output.commands
        );
    }

    // --- not allowed because of last_log_id
    {
        let mut eng = eng();
        eng.state.log_ids = LogIdList::new(vec![log_id0()]);
        let mut entries = vec![Entry::new(EntryPayload::Membership(m12()))];

        assert_eq!(
            Err(InitializeError::NotAllowed(NotAllowed {
                last_log_id: Some(log_id0()),
                vote: vote0,
            })),
            eng.initialize(&mut entries)
        );
    }

    // --- not allowed because of vote
    {
        let mut eng = eng();
        eng.state.vote = Vote::new(0, 1);
        let mut entries = vec![Entry::new(EntryPayload::Membership(m12()))];

        assert_eq!(
            Err(InitializeError::NotAllowed(NotAllowed {
                last_log_id: None,
                vote: Vote::new(0, 1),
            })),
            eng.initialize(&mut entries)
        );
    }

    // --- node id 0 is not in membership
    {
        let mut eng = eng();
        let mut entries = vec![Entry::new(EntryPayload::Membership(m12()))];

        assert_eq!(
            Err(InitializeError::NotInMembers(NotInMembers {
                node_id: 0,
                membership: m12(),
            })),
            eng.initialize(&mut entries)
        );
    }

    // --- log entry is not a membership entry
    {
        let mut eng = eng();
        let mut entries = vec![Entry::new(EntryPayload::Blank)];

        assert_eq!(
            Err(InitializeError::NotAMembershipEntry(NotAMembershipEntry {})),
            eng.initialize(&mut entries)
        );
    }
}
