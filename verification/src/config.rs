//! Runtime configuration of a Raft node: validation and the parsing of
//! the policy and size strings it is built from.

use vstd::prelude::*;
use vstd::string::StringSliceAdditionalSpecFns;
use crate::error::ConfigError;

verus! {

/// Log compaction and snapshot policy.
///
/// This governs when periodic snapshots are taken, and also when a leader
/// replicates by snapshot instead of by log entries.
#[derive(Debug, PartialEq, Eq)]
pub enum SnapshotPolicy {
    /// A snapshot is taken once the log has grown this many entries since
    /// the last snapshot.
    LogsSinceLast(u64),
}

/// The bytes of `since_last`, the keyword a snapshot policy string must
/// start with.
pub open spec fn since_last_bytes() -> Seq<u8> {
    seq![115u8, 105u8, 110u8, 99u8, 101u8, 95u8, 108u8, 97u8, 115u8, 116u8]
}

pub open spec fn all_digits(s: Seq<u8>) -> bool {
    forall|i: int| 0 <= i < s.len() ==> 48 <= #[trigger] s[i] <= 57
}

/// The value of a decimal digit string.
pub open spec fn dec_value(s: Seq<u8>) -> int
    decreases s.len(),
{
    if s.len() == 0 {
        0
    } else {
        dec_value(s.drop_last()) * 10 + (s.last() - 48)
    }
}

/// How often the byte `b` occurs in `s`.
pub open spec fn count_byte(s: Seq<u8>, b: u8) -> int
    decreases s.len(),
{
    if s.len() == 0 {
        0
    } else {
        count_byte(s.drop_last(), b) + if s.last() == b {
            1int
        } else {
            0int
        }
    }
}

/// The string has the shape `since_last:<something>`: exactly one colon,
/// preceded by the keyword.
pub open spec fn policy_shape_ok(s: Seq<u8>) -> bool {
    &&& count_byte(s, 58) == 1
    &&& s.len() >= 11
    &&& s.subrange(0, 10) =~= since_last_bytes()
    &&& s[10] == 58
}

/// The part after the colon is a decimal number that fits in 64 bits.
pub open spec fn policy_number_ok(s: Seq<u8>) -> bool {
    &&& s.len() >= 12
    &&& all_digits(s.subrange(11, s.len() as int))
    &&& dec_value(s.subrange(11, s.len() as int)) <= u64::MAX
}

/// Two distinct colon positions mean at least two colons.
proof fn lemma_count_byte_two(s: Seq<u8>, b: u8, p: int, q: int)
    requires
        0 <= p < q < s.len(),
        s[p] == b,
        s[q] == b,
    ensures
        count_byte(s, b) >= 2,
    decreases s.len(),
{
    if q == s.len() - 1 {
        lemma_count_byte_one(s.drop_last(), b, p);
    } else {
        assert(s.drop_last()[p] == s[p]);
        assert(s.drop_last()[q] == s[q]);
        lemma_count_byte_two(s.drop_last(), b, p, q);
        lemma_count_byte_nonneg(s.drop_last(), b);
    }
}

proof fn lemma_count_byte_one(s: Seq<u8>, b: u8, p: int)
    requires
        0 <= p < s.len(),
        s[p] == b,
    ensures
        count_byte(s, b) >= 1,
    decreases s.len(),
{
    if p == s.len() - 1 {
        lemma_count_byte_nonneg(s.drop_last(), b);
    } else {
        assert(s.drop_last()[p] == s[p]);
        lemma_count_byte_one(s.drop_last(), b, p);
    }
}

proof fn lemma_count_byte_nonneg(s: Seq<u8>, b: u8)
    ensures
        count_byte(s, b) >= 0,
    decreases s.len(),
{
    if s.len() > 0 {
        lemma_count_byte_nonneg(s.drop_last(), b);
    }
}

/// Parse a snapshot policy written as `since_last:<num>`.
pub fn parse_snapshot_policy(src: &str) -> (r: Result<SnapshotPolicy, ConfigError>)
    ensures
        r matches Result::Ok(SnapshotPolicy::LogsSinceLast(n)) ==> policy_shape_ok(
            src.spec_bytes(),
        ) && policy_number_ok(src.spec_bytes()) && n == dec_value(
            src.spec_bytes().subrange(11, src.spec_bytes().len() as int),
        ),
        policy_shape_ok(src.spec_bytes()) && policy_number_ok(src.spec_bytes()) ==> r is Ok,
        !policy_shape_ok(src.spec_bytes()) ==> (r matches Result::Err(
            ConfigError::InvalidSnapshotPolicy { syntax, invalid },
        ) && invalid@ == src@ && syntax@ == "since_last:<num>"@),
        policy_shape_ok(src.spec_bytes()) && !policy_number_ok(src.spec_bytes()) ==> (r matches
            Result::Err(ConfigError::InvalidNumber { invalid, reason }) && invalid@ == src@),
{
    let bytes = src.as_bytes();
    let n = bytes.len();
    let ghost bs = src.spec_bytes();
    // Count the colons and remember the first.
    let mut colons: usize = 0;
    let mut first_colon: usize = 0;
    let mut i: usize = 0;
    while i < n
        invariant
            n == bs.len(),
            bytes@ == bs,
            bs == src.spec_bytes(),
            i <= n,
            colons == count_byte(bs.take(i as int), 58),
            colons <= i,
            colons > 0 ==> first_colon < i && bs[first_colon as int] == 58,
            colons > 0 ==> forall|k: int| 0 <= k < first_colon ==> bs[k] != 58,
            colons == 0 ==> forall|k: int| 0 <= k < i ==> bs[k] != 58,
        decreases n - i,
    {
        proof {
            assert(bs.take(i + 1).drop_last() =~= bs.take(i as int));
            assert(bs.take(i + 1).last() == bs[i as int]);
        }
        if bytes[i] == 58 {
            if colons == 0 {
                first_colon = i;
            }
            colons = colons + 1;
        }
        i = i + 1;
    }
    proof {
        assert(bs.take(n as int) =~= bs);
    }
    let keyword: [u8; 10] = [115, 105, 110, 99, 101, 95, 108, 97, 115, 116];
    let shape_ok: bool;
    if colons != 1 || first_colon != 10 || n < 11 {
        shape_ok = false;
    } else {
        let mut k: usize = 0;
        let mut prefix_ok = true;
        while k < 10
            invariant
                n == bs.len(),
                bytes@ == bs,
                n >= 11,
                k <= 10,
                keyword@ == since_last_bytes(),
                prefix_ok == (forall|j: int| 0 <= j < k ==> bs[j] == since_last_bytes()[j]),
            decreases 10 - k,
        {
            if bytes[k] != keyword[k] {
                prefix_ok = false;
            }
            k = k + 1;
        }
        proof {
            if prefix_ok {
                assert(bs.subrange(0, 10) =~= since_last_bytes());
            } else {
                assert(bs.subrange(0, 10) != since_last_bytes()) by {
                    let j = choose|j: int| 0 <= j < 10 && bs[j] != since_last_bytes()[j];
                    assert(bs.subrange(0, 10)[j] == bs[j]);
                }
            }
        }
        shape_ok = prefix_ok;
    }
    proof {
        if shape_ok {
            assert(policy_shape_ok(bs));
        } else {
            if policy_shape_ok(bs) {
                // One colon standing at position 10 pins the first colon.
                assert(colons == 1);
                assert(first_colon <= 10);
                if first_colon < 10 {
                    lemma_count_byte_two(bs, 58, first_colon as int, 10);
                }
                assert(first_colon == 10);
                assert(n >= 11);
                assert forall|j: int| 0 <= j < 10 implies bs[j] == since_last_bytes()[j] by {
                    assert(bs.subrange(0, 10)[j] == bs[j]);
                }
                assert(false);
            }
        }
    }
    if !shape_ok {
        return Result::Err(
            ConfigError::InvalidSnapshotPolicy {
                syntax: "since_last:<num>".to_owned(),
                invalid: src.to_owned(),
            },
        );
    }
    // Parse the decimal number after the colon.
    let ghost t = bs.subrange(11, bs.len() as int);
    if n == 11 {
        return Result::Err(
            ConfigError::InvalidNumber {
                invalid: src.to_owned(),
                reason: "empty number".to_owned(),
            },
        );
    }
    let mut value: u64 = 0;
    let mut j: usize = 11;
    while j < n
        invariant
            n == bs.len(),
            bytes@ == bs,
            bs == src.spec_bytes(),
            policy_shape_ok(bs),
            n >= 12,
            11 <= j <= n,
            t == bs.subrange(11, bs.len() as int),
            all_digits(t.take(j - 11)),
            value == dec_value(t.take(j - 11)),
        decreases n - j,
    {
        let d = bytes[j];
        if d < 48 || d > 57 {
            proof {
                assert(t[j - 11] == bs[j as int]);
                assert(!all_digits(t));
            }
            return Result::Err(
                ConfigError::InvalidNumber {
                    invalid: src.to_owned(),
                    reason: "not a decimal digit".to_owned(),
                },
            );
        }
        proof {
            assert(t.take(j - 11 + 1).drop_last() =~= t.take(j - 11));
            assert(t.take(j - 11 + 1).last() == t[j - 11]);
            assert(t[j - 11] == bs[j as int]);
            assert forall|x: int| 0 <= x < j - 11 + 1 implies 48 <= #[trigger] t.take(
                j - 11 + 1,
            )[x] <= 57 by {
                assert(t.take(j - 11 + 1)[x] == t[x]);
                if x < j - 11 {
                    assert(t.take(j - 11)[x] == t[x]);
                }
            }
        }
        let wide: u128 = (value as u128) * 10 + ((d - 48) as u128);
        if wide > u64::MAX as u128 {
            proof {
                lemma_dec_value_mono_cond(t, j - 11 + 1);
            }
            return Result::Err(
                ConfigError::InvalidNumber {
                    invalid: src.to_owned(),
                    reason: "number too large".to_owned(),
                },
            );
        }
        value = wide as u64;
        j = j + 1;
    }
    proof {
        assert(t.take(n - 11) =~= t);
    }
    Result::Ok(SnapshotPolicy::LogsSinceLast(value))
}

/// When the prefix up to `i` already exceeds the range, so does the whole
/// digit string, whatever it is.
proof fn lemma_dec_value_mono_cond(s: Seq<u8>, i: int)
    requires
        0 <= i <= s.len(),
        all_digits(s.take(i)),
        dec_value(s.take(i)) > u64::MAX,
    ensures
        all_digits(s) ==> dec_value(s) > u64::MAX,
    decreases s.len() - i,
{
    if all_digits(s) {
        if i == s.len() {
            assert(s.take(i) =~= s);
        } else {
            assert(s.take(i + 1).drop_last() =~= s.take(i));
            assert(s.take(i + 1).last() == s[i]);
            assert(all_digits(s.take(i + 1))) by {
                assert forall|x: int| 0 <= x < i + 1 implies 48 <= #[trigger] s.take(i + 1)[x]
                    <= 57 by {
                    assert(s.take(i + 1)[x] == s[x]);
                    if x < i {
                        assert(s.take(i)[x] == s[x]);
                    }
                }
            }
            lemma_dec_value_mono_cond(s, i + 1);
        }
    }
}

/// What `byte_unit` makes of a size string such as `3MiB` or `8 kb`: the
/// count of bytes, as a 64-bit number, or nothing when the string does
/// not parse.  The result depends on the string alone.
pub uninterp spec fn parsed_byte_count(s: Seq<char>) -> Option<u64>;

/// Relies on `byte_unit::Byte::from_str` and `Byte::get_bytes`: parses a
/// number with an optional size unit into a count of bytes.
#[verifier::external_body]
fn byte_count_of_str(src: &str) -> (r: Result<u64, String>)
    ensures
        r is Ok <==> parsed_byte_count(src@) is Some,
        r matches Result::Ok(n) ==> parsed_byte_count(src@) == Option::Some(n),
{
    match byte_unit::Byte::from_str(src) {
        Ok(b) => Ok(b.get_bytes() as u64),
        Err(e) => Err(e.to_string()),
    }
}

/// Parse a number with a size unit, such as `5.3 KB`.
pub fn parse_bytes_with_unit(src: &str) -> (r: Result<u64, ConfigError>)
    ensures
        r is Ok <==> parsed_byte_count(src@) is Some,
        r matches Result::Ok(n) ==> parsed_byte_count(src@) == Option::Some(n),
        r matches Result::Err(ConfigError::InvalidNumber { invalid, reason }) ==> invalid@
            == src@,
        r is Err ==> r matches Result::Err(ConfigError::InvalidNumber { invalid, reason }),
{
    match byte_count_of_str(src) {
        Result::Ok(n) => Result::Ok(n),
        Result::Err(reason) => Result::Err(
            ConfigError::InvalidNumber { invalid: src.to_owned(), reason },
        ),
    }
}

/// Relies on `rand::thread_rng` and `Rng::gen_range`: a value drawn
/// uniformly from `lo..hi`.  Nothing more is assumed of the draw than its
/// range.
#[verifier::external_body]
fn rand_in_range(lo: u64, hi: u64) -> (r: u64)
    requires
        lo < hi,
    ensures
        lo <= r < hi,
{
    rand::Rng::gen_range(&mut rand::thread_rng(), lo..hi)
}

/// The runtime configuration for a Raft node.
///
/// Keep the election timeout well above the heartbeat interval and the
/// time RPCs take, and well below the mean time between failures.
#[derive(Debug, PartialEq)]
pub struct Config {
    /// The application-specific name of this Raft cluster.
    pub cluster_name: String,
    /// The minimum election timeout in milliseconds.
    pub election_timeout_min: u64,
    /// The maximum election timeout in milliseconds.
    pub election_timeout_max: u64,
    /// The interval in milliseconds at which leaders send heartbeats.
    pub heartbeat_interval: u64,
    /// The timeout in milliseconds for sending and installing the last
    /// snapshot segment; also used for other segments while
    /// `send_snapshot_timeout` is 0.
    pub install_snapshot_timeout: u64,
    /// The timeout in milliseconds for sending a non-last snapshot
    /// segment; 0 disables it in favour of `install_snapshot_timeout`.
    pub send_snapshot_timeout: u64,
    /// The maximum number of entries per replication payload.
    pub max_payload_entries: u64,
    /// How far a follower may fall behind before it is replicated by
    /// snapshot instead of by log entries.
    pub replication_lag_threshold: u64,
    /// When to take a snapshot.
    pub snapshot_policy: SnapshotPolicy,
    /// The maximum snapshot chunk size in bytes.
    pub snapshot_max_chunk_size: u64,
    /// How many logs already covered by the snapshot to keep.
    pub max_in_snapshot_log_to_keep: u64,
    /// The minimal number of applied logs to purge in a batch.
    pub purge_batch_size: u64,
    /// Whether timeout-driven events run at all.
    pub enable_tick: bool,
    /// Whether a leader sends heartbeats.
    pub enable_heartbeat: bool,
    /// Whether a follower campaigns when the leader stays silent.
    pub enable_elect: bool,
}

impl Config {
    /// A fresh random election timeout within the configured bounds.
    pub fn new_rand_election_timeout(&self) -> (r: u64)
        requires
            self.election_timeout_min < self.election_timeout_max,
        ensures
            self.election_timeout_min <= r < self.election_timeout_max,
    {
        rand_in_range(self.election_timeout_min, self.election_timeout_max)
    }

    /// The timeout in milliseconds for sending and installing the last
    /// snapshot segment.
    pub fn install_snapshot_timeout(&self) -> (r: u64)
        ensures
            r == self.install_snapshot_timeout,
    {
        self.install_snapshot_timeout
    }

    /// The timeout in milliseconds for sending a non-last snapshot
    /// segment.
    pub fn send_snapshot_timeout(&self) -> (r: u64)
        ensures
            self.send_snapshot_timeout > 0 ==> r == self.send_snapshot_timeout,
            self.send_snapshot_timeout == 0 ==> r == self.install_snapshot_timeout,
    {
        if self.send_snapshot_timeout > 0 {
            self.send_snapshot_timeout
        } else {
            self.install_snapshot_timeout()
        }
    }

    /// Check the configuration: the election timeout window must be
    /// non-empty, lie above the heartbeat interval, and payloads must
    /// carry at least one entry.
    pub fn validate(self) -> (r: Result<Config, ConfigError>)
        ensures
            self.election_timeout_min >= self.election_timeout_max ==> r == Result::<
                Config,
                ConfigError,
            >::Err(
                ConfigError::ElectionTimeout {
                    min: self.election_timeout_min,
                    max: self.election_timeout_max,
                },
            ),
            self.election_timeout_min < self.election_timeout_max
                && self.election_timeout_min <= self.heartbeat_interval ==> r == Result::<
                Config,
                ConfigError,
            >::Err(
                ConfigError::ElectionTimeoutLTHeartBeat {
                    election_timeout_min: self.election_timeout_min,
                    heartbeat_interval: self.heartbeat_interval,
                },
            ),
            self.election_timeout_min < self.election_timeout_max
                && self.election_timeout_min > self.heartbeat_interval
                && self.max_payload_entries == 0 ==> r == Result::<Config, ConfigError>::Err(
                ConfigError::MaxPayloadIs0,
            ),
            self.election_timeout_min < self.election_timeout_max
                && self.election_timeout_min > self.heartbeat_interval
                && self.max_payload_entries > 0 ==> r == Result::<Config, ConfigError>::Ok(self),
    {
        if self.election_timeout_min >= self.election_timeout_max {
            return Result::Err(
                ConfigError::ElectionTimeout {
                    min: self.election_timeout_min,
                    max: self.election_timeout_max,
                },
            );
        }
        if self.election_timeout_min <= self.heartbeat_interval {
            return Result::Err(
                ConfigError::ElectionTimeoutLTHeartBeat {
                    election_timeout_min: self.election_timeout_min,
                    heartbeat_interval: self.heartbeat_interval,
                },
            );
        }
        if self.max_payload_entries == 0 {
            return Result::Err(ConfigError::MaxPayloadIs0);
        }
        Result::Ok(self)
    }
}

} // verus!
