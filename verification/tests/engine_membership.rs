use raft_engine::command::{Command, MetricsChangeFlags};
use raft_engine::engine::Engine;
use raft_engine::internal_server_state::InternalServerState;
use raft_engine::log_id::{LeaderId, LogId};
use raft_engine::membership::{EffectiveMembership, Membership, MembershipState};
use raft_engine::progress::ProgressEntry;
use raft_engine::raft_state::ServerState;
use raft_engine::vote::Vote;

fn log_id(term: u64, index: u64) -> LogId {
    LogId { leader_id: LeaderId { term, node_id: 1 }, index }
}

fn m01() -> Membership {
    Membership::new(vec![vec![0, 1]], None)
}

fn m23() -> Membership {
    Membership::new(vec![vec![2, 3]], None)
}

fn m23_45() -> Membership {
    Membership::new(vec![vec![2, 3]], Some(vec![4, 5]))
}

fn m34() -> Membership {
    Membership::new(vec![vec![3, 4]], None)
}

fn m4_356() -> Membership {
    Membership::new(vec![vec![4]], Some(vec![3, 5, 6]))
}

fn eng() -> Engine {
    let mut eng = Engine::default();
    eng.config.id = 2;
    eng.state.membership_state.committed = EffectiveMembership::new(Some(log_id(1, 1)), m01());
    eng.state.membership_state.effective = EffectiveMembership::new(Some(log_id(2, 3)), m23());
    eng.state.server_state = eng.calc_server_state();
    eng
}

#[test]
fn test_update_effective_membership_at_index_0_is_allowed() {
    let mut eng = eng();

    eng.update_effective_membership(&log_id(0, 0), &m34());

    assert_eq!(
        MembershipState {
            committed: EffectiveMembership::new(Some(log_id(1, 1)), m01()),
            effective: EffectiveMembership::new(Some(log_id(0, 0)), m34()),
        },
        eng.state.membership_state
    );
    assert_eq!(ServerState::Learner, eng.state.server_state);

    assert_eq!(
        MetricsChangeFlags { replication: false, local_data: false, cluster: true },
        eng.output.metrics_flags
    );

    assert_eq!(
        vec![
            Command::UpdateMembership {
                membership: EffectiveMembership::new(Some(log_id(0, 0)), m34()),
            },
        ],
        eng.output.commands
    );
}

#[test]
fn test_update_effective_membership_for_leader() {
    let mut eng = eng();
    eng.state.server_state = ServerState::Leader;
    // Make it a real leader: voted for itself and vote is committed.
    eng.state.vote = Vote::new_committed(2, 2);
    eng.new_leader();

    eng.update_effective_membership(&log_id(3, 4), &m34());

    assert_eq!(
        MembershipState {
            committed: EffectiveMembership::new(Some(log_id(1, 1)), m01()),
            effective: EffectiveMembership::new(Some(log_id(3, 4)), m34()),
        },
        eng.state.membership_state
    );
    assert_eq!(
        ServerState::Leader,
        eng.state.server_state,
        "Leader wont be affected by membership change"
    );

    assert_eq!(
        MetricsChangeFlags { replication: true, local_data: false, cluster: true },
        eng.output.metrics_flags
    );

    assert_eq!(
        vec![
            Command::UpdateMembership {
                membership: EffectiveMembership::new(Some(log_id(3, 4)), m34()),
            },
            // node-2 is leader and is not removed from the streams
            Command::UpdateReplicationStreams {
                targets: vec![(3, ProgressEntry::empty(0)), (4, ProgressEntry::empty(0))],
            },
        ],
        eng.output.commands
    );

    let leading = eng.internal_server_state.leading().unwrap();
    assert!(leading.progress.get(4).matching.is_none(), "exists, but it is a None");
}

#[test]
fn test_update_effective_membership_update_learner_process() {
    // When updating the membership, a voter progress should inherit from
    // a learner progress, and a learner progress should inherit from a
    // voter progress, if a voter changes to learner or vice versa.

    let mut eng = eng();
    eng.state.server_state = ServerState::Leader;
    // Make it a real leader: voted for itself and vote is committed.
    eng.state.vote = Vote::new_committed(2, 2);
    eng.state.membership_state.effective = EffectiveMembership::new(Some(log_id(2, 3)), m23_45());
    eng.new_leader();

    if let InternalServerState::Leading(l) = &mut eng.internal_server_state {
        assert_eq!(ProgressEntry::empty(0), l.progress.get(4));
        assert_eq!(ProgressEntry::empty(0), l.progress.get(5));

        let p = ProgressEntry::new(Some(log_id(1, 4)));
        let _ = l.progress.update(4, p);
        assert_eq!(p, l.progress.get(4));

        let p = ProgressEntry::new(Some(log_id(1, 5)));
        let _ = l.progress.update(5, p);
        assert_eq!(p, l.progress.get(5));

        let p = ProgressEntry::new(Some(log_id(1, 3)));
        let _ = l.progress.update(3, p);
        assert_eq!(p, l.progress.get(3));
    } else {
        unreachable!("leader should not be None");
    }

    eng.update_effective_membership(&log_id(3, 4), &m4_356());

    assert_eq!(
        MembershipState {
            committed: EffectiveMembership::new(Some(log_id(1, 1)), m01()),
            effective: EffectiveMembership::new(Some(log_id(3, 4)), m4_356()),
        },
        eng.state.membership_state
    );

    if let InternalServerState::Leading(l) = &mut eng.internal_server_state {
        assert_eq!(
            ProgressEntry::new(Some(log_id(1, 4))),
            l.progress.get(4),
            "learner-4 progress should be transferred to voter progress"
        );
        assert_eq!(
            ProgressEntry::new(Some(log_id(1, 3))),
            l.progress.get(3),
            "voter-3 progress should be transferred to learner progress"
        );

        assert_eq!(
            ProgressEntry::new(Some(log_id(1, 5))),
            l.progress.get(5),
            "learner-5 has previous value"
        );
        assert_eq!(ProgressEntry::empty(0), l.progress.get(6));
    } else {
        unreachable!("leader should not be None");
    }
}
