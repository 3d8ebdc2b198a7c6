use raft_engine::command::{Command, MetricsChangeFlags};
use raft_engine::engine::Engine;
use raft_engine::internal_server_state::InternalServerState;
use raft_engine::log_id::{LeaderId, LogId};
use raft_engine::log_id_list::LogIdList;
use raft_engine::membership::{EffectiveMembership, Membership};
use raft_engine::message::VoteRequest;
use raft_engine::raft_state::ServerState;
use raft_engine::vote::Vote;

fn log_id(term: u64, index: u64) -> LogId {
    LogId { leader_id: LeaderId { term, node_id: 1 }, index }
}

fn m1() -> Membership {
    Membership::new(vec![vec![1]], None)
}

fn m12() -> Membership {
    Membership::new(vec![vec![1, 2]], None)
}

fn eng() -> Engine {
    Engine::default()
}

#[test]
fn test_elect() {
    // --- single node: become leader at once
    {
        let mut eng = eng();
        eng.config.id = 1;
        eng.state.membership_state.effective = EffectiveMembership::new(Some(log_id(0, 1)), m1());

        eng.elect();

        assert_eq!(Vote::new_committed(1, 1), eng.state.vote);
        assert_eq!(
            Some(vec![1]),
            eng.internal_server_state.leading().map(|x| x.vote_granted_by.clone())
        );

        assert_eq!(ServerState::Leader, eng.state.server_state);
        assert_eq!(
            MetricsChangeFlags { replication: true, local_data: true, cluster: true },
            eng.output.metrics_flags
        );

        assert_eq!(
            vec![
                Command::SaveVote { vote: Vote::new(1, 1) },
                Command::SaveVote { vote: Vote::new_committed(1, 1) },
                Command::BecomeLeader,
                Command::UpdateReplicationStreams { targets: vec![] },
                Command::AppendBlankLog {
                    log_id: LogId { leader_id: LeaderId { term: 1, node_id: 1 }, index: 0 },
                },
                Command::ReplicateCommitted {
                    committed: Some(LogId {
                        leader_id: LeaderId { term: 1, node_id: 1 },
                        index: 0,
                    }),
                },
                Command::LeaderCommit {
                    already_committed: None,
                    upto: LogId { leader_id: LeaderId { term: 1, node_id: 1 }, index: 0 },
                },
                Command::ReplicateEntries {
                    upto: Some(LogId { leader_id: LeaderId { term: 1, node_id: 1 }, index: 0 }),
                },
            ],
            eng.output.commands
        );
    }

    // --- single node: electing again will override previous state
    {
        let mut eng = eng();
        eng.config.id = 1;
        eng.state.membership_state.effective = EffectiveMembership::new(Some(log_id(0, 1)), m1());

        // Build in-progress election state
        eng.state.vote = Vote::new_committed(1, 2);
        eng.new_leader();
        if let InternalServerState::Leading(l) = &mut eng.internal_server_state {
            l.grant_vote_by(1);
        } else {
            unreachable!();
        }

        eng.elect();

        assert_eq!(Vote::new_committed(2, 1), eng.state.vote);
        assert_eq!(
            Some(vec![1]),
            eng.internal_server_state.leading().map(|x| x.vote_granted_by.clone())
        );

        assert_eq!(ServerState::Leader, eng.state.server_state);
        assert_eq!(
            MetricsChangeFlags { replication: true, local_data: true, cluster: true },
            eng.output.metrics_flags
        );

        assert_eq!(
            vec![
                Command::SaveVote { vote: Vote::new(2, 1) },
                Command::SaveVote { vote: Vote::new_committed(2, 1) },
                Command::BecomeLeader,
                Command::UpdateReplicationStreams { targets: vec![] },
                Command::AppendBlankLog {
                    log_id: LogId { leader_id: LeaderId { term: 2, node_id: 1 }, index: 0 },
                },
                Command::ReplicateCommitted {
                    committed: Some(LogId {
                        leader_id: LeaderId { term: 2, node_id: 1 },
                        index: 0,
                    }),
                },
                Command::LeaderCommit {
                    already_committed: None,
                    upto: LogId { leader_id: LeaderId { term: 2, node_id: 1 }, index: 0 },
                },
                Command::ReplicateEntries {
                    upto: Some(LogId { leader_id: LeaderId { term: 2, node_id: 1 }, index: 0 }),
                },
            ],
            eng.output.commands
        );
    }

    // --- multi nodes: enter candidate state
    {
        let mut eng = eng();
        eng.config.id = 1;
        eng.state.membership_state.effective = EffectiveMembership::new(Some(log_id(0, 1)), m12());
        eng.state.log_ids = LogIdList::new(vec![log_id(1, 1)]);

        eng.elect();

        assert_eq!(Vote::new(1, 1), eng.state.vote);
        assert_eq!(
            Some(vec![1]),
            eng.internal_server_state.leading().map(|x| x.vote_granted_by.clone())
        );

        assert_eq!(ServerState::Candidate, eng.state.server_state);
        assert_eq!(
            MetricsChangeFlags { replication: false, local_data: true, cluster: false },
            eng.output.metrics_flags
        );

        assert_eq!(
            vec![
                Command::SaveVote { vote: Vote::new(1, 1) },
                Command::SendVote {
                    vote_req: VoteRequest::new(Vote::new(1, 1), Some(log_id(1, 1)))
                },
                Command::InstallElectionTimer { can_be_leader: true },
            ],
            eng.output.commands
        );
    }
}
