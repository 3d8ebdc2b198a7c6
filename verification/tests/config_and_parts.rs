use raft_engine::config::{parse_bytes_with_unit, parse_snapshot_policy, Config, SnapshotPolicy};
use raft_engine::error::ConfigError;
use raft_engine::log_id::{LeaderId, LogId};
use raft_engine::log_id_list::LogIdList;
use raft_engine::membership::Membership;
use raft_engine::progress::{insert_sorted_unique, sorted_union, ProgressEntry};

fn config() -> Config {
    Config {
        cluster_name: String::from("foo"),
        election_timeout_min: 150,
        election_timeout_max: 300,
        heartbeat_interval: 50,
        install_snapshot_timeout: 200,
        send_snapshot_timeout: 0,
        max_payload_entries: 300,
        replication_lag_threshold: 5000,
        snapshot_policy: SnapshotPolicy::LogsSinceLast(5000),
        snapshot_max_chunk_size: 3 * 1024 * 1024,
        max_in_snapshot_log_to_keep: 1000,
        purge_batch_size: 1,
        enable_tick: true,
        enable_heartbeat: true,
        enable_elect: true,
    }
}

#[test]
fn test_config_validate() {
    assert!(config().validate().is_ok());

    let mut c = config();
    c.election_timeout_min = 300;
    assert_eq!(Err(ConfigError::ElectionTimeout { min: 300, max: 300 }), c.validate());

    let mut c = config();
    c.heartbeat_interval = 150;
    assert_eq!(
        Err(ConfigError::ElectionTimeoutLTHeartBeat {
            election_timeout_min: 150,
            heartbeat_interval: 150,
        }),
        c.validate()
    );

    let mut c = config();
    c.max_payload_entries = 0;
    assert_eq!(Err(ConfigError::MaxPayloadIs0), c.validate());
}

#[test]
fn test_config_timeouts() {
    let c = config();
    assert_eq!(200, c.install_snapshot_timeout());
    // With `send_snapshot_timeout` disabled, the install timeout is used.
    assert_eq!(200, c.send_snapshot_timeout());

    let mut c = config();
    c.send_snapshot_timeout = 70;
    assert_eq!(70, c.send_snapshot_timeout());
}

#[test]
fn test_new_rand_election_timeout_in_range() {
    let c = config();
    for _ in 0..64 {
        let t = c.new_rand_election_timeout();
        assert!(150 <= t && t < 300);
    }
    // With a window of one the draw is pinned.
    let mut c = config();
    c.election_timeout_min = 150;
    c.election_timeout_max = 151;
    assert_eq!(150, c.new_rand_election_timeout());
}

#[test]
fn test_parse_snapshot_policy() {
    assert_eq!(Ok(SnapshotPolicy::LogsSinceLast(5000)), parse_snapshot_policy("since_last:5000"));
    assert_eq!(Ok(SnapshotPolicy::LogsSinceLast(0)), parse_snapshot_policy("since_last:0"));

    // Not exactly one colon.
    assert!(matches!(
        parse_snapshot_policy("since_last"),
        Err(ConfigError::InvalidSnapshotPolicy { .. })
    ));
    assert!(matches!(
        parse_snapshot_policy("since_last:5:0"),
        Err(ConfigError::InvalidSnapshotPolicy { .. })
    ));
    // Wrong keyword.
    assert!(matches!(
        parse_snapshot_policy("since_first:5000"),
        Err(ConfigError::InvalidSnapshotPolicy { .. })
    ));
    // Not a number.
    assert!(matches!(
        parse_snapshot_policy("since_last:"),
        Err(ConfigError::InvalidNumber { .. })
    ));
    assert!(matches!(
        parse_snapshot_policy("since_last:12x"),
        Err(ConfigError::InvalidNumber { .. })
    ));
    // Too large for 64 bits.
    assert!(matches!(
        parse_snapshot_policy("since_last:18446744073709551616"),
        Err(ConfigError::InvalidNumber { .. })
    ));
    assert_eq!(
        Ok(SnapshotPolicy::LogsSinceLast(u64::MAX)),
        parse_snapshot_policy("since_last:18446744073709551615")
    );
}

#[test]
fn test_parse_bytes_with_unit() {
    assert_eq!(Ok(3 * 1024 * 1024), parse_bytes_with_unit("3MiB"));
    assert_eq!(Ok(8000), parse_bytes_with_unit("8 kb"));
    assert_eq!(Ok(8), parse_bytes_with_unit("8"));
    assert!(matches!(
        parse_bytes_with_unit("lots"),
        Err(ConfigError::InvalidNumber { .. })
    ));
}

#[test]
fn test_membership_quorum() {
    // A joint membership needs a majority of every configuration.
    let m = Membership::new(vec![vec![1, 2, 3], vec![4, 5]], None);
    assert!(m.is_quorum(&vec![1, 2, 4, 5]));
    assert!(m.is_quorum(&vec![2, 3, 4, 5]));
    // A majority of one configuration alone is not enough.
    assert!(!m.is_quorum(&vec![1, 2, 4]));
    assert!(!m.is_quorum(&vec![1, 2]));
    assert!(!m.is_quorum(&vec![1, 4, 5]));

    // A single-voter membership takes that voter alone as a quorum.
    let m1 = Membership::new(vec![vec![1]], None);
    assert!(m1.is_quorum(&vec![1]));
    assert!(!m1.is_quorum(&vec![2]));

    assert!(m.is_voter(3));
    assert!(!m.is_voter(9));

    let ml = Membership::new(vec![vec![1, 2]], Some(vec![3, 4]));
    assert_eq!(vec![3, 4], ml.learner_ids());
}

#[test]
fn test_sorted_union_and_insert() {
    let mut v: Vec<u64> = vec![2, 5];
    insert_sorted_unique(&mut v, 3);
    insert_sorted_unique(&mut v, 5);
    insert_sorted_unique(&mut v, 1);
    assert_eq!(vec![1, 2, 3, 5], v);

    let u = sorted_union(&vec![vec![2, 3], vec![1, 3], vec![]]);
    assert_eq!(vec![1, 2, 3], u);
}

#[test]
fn test_log_id_list_operations() {
    let lid = |term: u64, index: u64| LogId { leader_id: LeaderId { term, node_id: 1 }, index };

    let mut l = LogIdList::new(vec![]);
    l.append(lid(1, 0));
    l.append(lid(1, 1));
    l.append(lid(1, 2));
    l.append(lid(2, 3));
    l.append(lid(2, 4));

    // Runs of one leader are compressed to their boundaries.
    assert_eq!(vec![lid(1, 0), lid(1, 2), lid(2, 3), lid(2, 4)], l.key_log_ids);
    assert_eq!(Some(lid(1, 1)), l.get(1));
    assert_eq!(Some(lid(2, 4)), l.get(4));
    assert_eq!(None, l.get(5));
    assert_eq!(Some(lid(2, 4)), l.last());

    // Truncation keeps everything below the cut.
    l.truncate(3);
    assert_eq!(Some(lid(1, 2)), l.last());
    assert_eq!(Some(lid(1, 1)), l.get(1));
    assert_eq!(None, l.get(3));

    // Purging keeps the boundary as the first stored id.
    l.purge(lid(1, 1));
    assert_eq!(Some(lid(1, 1)), l.first());
    assert_eq!(Some(lid(1, 2)), l.get(2));
    assert_eq!(None, l.get(0));
}

#[test]
fn test_progress_entry_update_matching_is_monotone() {
    let lid = |term: u64, index: u64| LogId { leader_id: LeaderId { term, node_id: 1 }, index };

    let mut e = ProgressEntry::empty(0);
    e.update_matching(Some(lid(1, 3)));
    assert_eq!(Some(lid(1, 3)), e.matching);
    assert_eq!(4, e.searching_end);

    // The matched log id never moves backwards.
    e.update_matching(Some(lid(1, 1)));
    assert_eq!(Some(lid(1, 3)), e.matching);
    e.update_matching(None);
    assert_eq!(Some(lid(1, 3)), e.matching);
    e.update_matching(Some(lid(2, 5)));
    assert_eq!(Some(lid(2, 5)), e.matching);
    assert_eq!(6, e.searching_end);
}
