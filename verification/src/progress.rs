//! Replication progress tracking and the leader's vote tally.
//!
//! While a node is leading (candidate or leader) it tracks, per member, the
//! greatest log id known replicated there, and computes from a quorum of
//! those the committed log id.

use vstd::prelude::*;
use crate::log_id::{log_id_le, next_index, next_index_of, opt_log_id_le, opt_log_id_lt, opt_lt, LogId};
use crate::membership::{is_quorum_over, quorum_over, strictly_sorted, Membership};

verus! {

/// Replication progress of one member: the greatest log id known matched
/// there, and the end of the range the leader is probing.
#[derive(Clone, Copy, PartialEq, Eq, Debug)]
pub struct ProgressEntry {
    pub matching: Option<LogId>,
    pub searching_end: u64,
}

impl ProgressEntry {
    /// Progress of a member nothing is known about yet.
    pub fn empty(end: u64) -> (r: ProgressEntry)
        ensures
            r == (ProgressEntry { matching: Option::<LogId>::None, searching_end: end }),
    {
        ProgressEntry { matching: Option::None, searching_end: end }
    }

    pub fn new(matching: Option<LogId>) -> (r: ProgressEntry)
        requires
            next_index_of(matching) <= u64::MAX,
        ensures
            r.matching == matching,
            r.searching_end == next_index_of(matching),
    {
        let searching_end = next_index(&matching);
        ProgressEntry { matching, searching_end }
    }

    /// Advance the matched log id; it never moves backwards.
    pub fn update_matching(&mut self, matching: Option<LogId>)
        requires
            next_index_of(matching) <= u64::MAX,
        ensures
            *final(self) == entry_after_update(*old(self), matching),
            opt_log_id_le(old(self).matching, final(self).matching),
    {
        if opt_lt(&self.matching, &matching) {
            self.matching = matching;
            let ni = next_index(&matching);
            if ni > self.searching_end {
                self.searching_end = ni;
            }
        }
    }
}

/// What a progress entry becomes when `matching` is reported for it: the
/// matched id never moves backwards, and the probing end only grows.
pub open spec fn entry_after_update(e: ProgressEntry, matching: Option<LogId>) -> ProgressEntry {
    if opt_log_id_lt(e.matching, matching) {
        ProgressEntry {
            matching,
            searching_end: if next_index_of(matching) > e.searching_end {
                next_index_of(matching) as u64
            } else {
                e.searching_end
            },
        }
    } else {
        e
    }
}

/// Whether the progress entry `e` matches at or above `c`.
pub open spec fn entry_ge(e: (u64, ProgressEntry), c: LogId) -> bool {
    match e.1.matching {
        Option::Some(m) => log_id_le(c, m),
        Option::None => false,
    }
}

/// Progress of all members: the voter configurations this progress answers
/// quorums for, and one entry per voter and learner.
#[derive(PartialEq, Eq, Debug)]
pub struct Progress {
    pub configs: Vec<Vec<u64>>,
    pub entries: Vec<(u64, ProgressEntry)>,
}

impl Progress {
    /// The member ids never repeat.
    pub open spec fn wf(self) -> bool {
        forall|i: int, j: int|
            0 <= i < j < self.entries@.len() ==> (#[trigger] self.entries@[i]).0 != (
            #[trigger] self.entries@[j]).0
    }

    pub open spec fn cview(self) -> Seq<Seq<u64>> {
        self.configs@.map_values(|c: Vec<u64>| c@)
    }

    pub open spec fn has_id(self, node_id: u64) -> bool {
        exists|k: int| 0 <= k < self.entries@.len() && (#[trigger] self.entries@[k]).0 == node_id
    }

    pub open spec fn index_of(self, node_id: u64) -> int {
        choose|k: int| 0 <= k < self.entries@.len() && (#[trigger] self.entries@[k]).0 == node_id
    }

    /// The progress entry stored for `node_id` (meaningful when present).
    pub open spec fn entry_value(self, node_id: u64) -> ProgressEntry {
        self.entries@[self.index_of(node_id)].1
    }

    /// The ids whose matched log id is at or above `c`.
    pub open spec fn granted_ids(self, c: LogId) -> Seq<u64> {
        self.entries@.filter(|e: (u64, ProgressEntry)| entry_ge(e, c)).map_values(
            |e: (u64, ProgressEntry)| e.0,
        )
    }

    /// Whether a quorum of the voter configurations matches at or above `c`.
    pub open spec fn quorum_granted_spec(self, c: LogId) -> bool {
        quorum_over(self.cview(), self.granted_ids(c))
    }

    /// `co` is what this progress commits: a stored matched log id that a
    /// quorum matches, at or above every other quorum-matched stored id —
    /// or nothing, when no stored id is quorum-matched.
    pub open spec fn is_committed_candidate(self, co: Option<LogId>) -> bool {
        &&& (co matches Option::Some(cc) ==> self.quorum_granted_spec(cc) && exists|k: int|
            0 <= k < self.entries@.len() && (#[trigger] self.entries@[k]).1.matching
                == Option::Some(cc))
        &&& forall|k: int|
            0 <= k < self.entries@.len() && (#[trigger] self.entries@[k]).1.matching is Some
                && self.quorum_granted_spec(self.entries@[k].1.matching->Some_0)
                ==> opt_log_id_le(self.entries@[k].1.matching, co)
    }

    pub fn try_get(&self, node_id: u64) -> (r: Option<ProgressEntry>)
        requires
            self.wf(),
        ensures
            r == if self.has_id(node_id) {
                Option::Some(self.entry_value(node_id))
            } else {
                Option::<ProgressEntry>::None
            },
    {
        let n = self.entries.len();
        let mut i: usize = 0;
        while i < n
            invariant
                self.wf(),
                n == self.entries@.len(),
                i <= n,
                forall|k: int| 0 <= k < i ==> (#[trigger] self.entries@[k]).0 != node_id,
            decreases n - i,
        {
            if self.entries[i].0 == node_id {
                return Option::Some(self.entries[i].1);
            }
            i = i + 1;
        }
        Option::None
    }

    /// The progress entry for a member known to be present.
    pub fn get(&self, node_id: u64) -> (r: ProgressEntry)
        requires
            self.wf(),
            self.has_id(node_id),
        ensures
            r == self.entry_value(node_id),
    {
        let r = self.try_get(node_id);
        match r {
            Option::Some(e) => e,
            Option::None => ProgressEntry::empty(0),
        }
    }

    /// The ids whose matched log id is at or above `c`, as a vector.
    fn collect_granted(&self, c: &LogId) -> (r: Vec<u64>)
        ensures
            r@ == self.granted_ids(*c),
    {
        let ghost pred = |e: (u64, ProgressEntry)| entry_ge(e, *c);
        let ghost f = |e: (u64, ProgressEntry)| e.0;
        let mut r: Vec<u64> = Vec::new();
        let n = self.entries.len();
        let mut i: usize = 0;
        while i < n
            invariant
                n == self.entries@.len(),
                i <= n,
                pred == (|e: (u64, ProgressEntry)| entry_ge(e, *c)),
                f == (|e: (u64, ProgressEntry)| e.0),
                r@ == self.entries@.take(i as int).filter(pred).map_values(f),
            decreases n - i,
        {
            proof {
                reveal(Seq::filter);
                assert(self.entries@.take(i + 1).drop_last() =~= self.entries@.take(i as int));
                assert(self.entries@.take(i + 1).last() == self.entries@[i as int]);
            }
            let take_it = match self.entries[i].1.matching {
                Option::Some(m) => c.le(&m),
                Option::None => false,
            };
            if take_it {
                r.push(self.entries[i].0);
                proof {
                    assert(self.entries@.take(i + 1).filter(pred) =~= self.entries@.take(
                        i as int,
                    ).filter(pred).push(self.entries@[i as int]));
                    assert(self.entries@.take(i + 1).filter(pred).map_values(f) =~= self.entries@
                        .take(i as int).filter(pred).map_values(f).push(
                        self.entries@[i as int].0,
                    ));
                }
            } else {
                proof {
                    assert(self.entries@.take(i + 1).filter(pred) =~= self.entries@.take(
                        i as int,
                    ).filter(pred));
                }
            }
            i = i + 1;
        }
        proof {
            assert(self.entries@.take(n as int) =~= self.entries@);
        }
        r
    }

    /// Whether a quorum of the voter configurations matches at or above `c`.
    pub fn quorum_granted(&self, c: &LogId) -> (r: bool)
        ensures
            r == self.quorum_granted_spec(*c),
    {
        let granted = self.collect_granted(c);
        is_quorum_over(&self.configs, &granted)
    }

    /// The greatest log id matched by a quorum, among the stored entries.
    pub fn compute_committed(&self) -> (r: Option<LogId>)
        ensures
            self.is_committed_candidate(r),
    {
        let n = self.entries.len();
        let mut best: Option<LogId> = Option::None;
        let mut i: usize = 0;
        while i < n
            invariant
                n == self.entries@.len(),
                i <= n,
                best matches Option::Some(c) ==> self.quorum_granted_spec(c) && exists|k: int|
                    0 <= k < self.entries@.len() && (#[trigger] self.entries@[k]).1.matching
                        == Option::Some(c),
                forall|k: int|
                    0 <= k < i && (#[trigger] self.entries@[k]).1.matching is Some
                        && self.quorum_granted_spec(self.entries@[k].1.matching->Some_0)
                        ==> opt_log_id_le(self.entries@[k].1.matching, best),
            decreases n - i,
        {
            let e = self.entries[i].1;
            match e.matching {
                Option::Some(m) => {
                    if opt_lt(&best, &Option::Some(m)) {
                        if self.quorum_granted(&m) {
                            best = Option::Some(m);
                        }
                    }
                },
                Option::None => {},
            }
            i = i + 1;
        }
        best
    }

    /// Replace the stored entry of `node_id` and recompute the committed
    /// log id; fails when `node_id` is not tracked.
    pub fn update(&mut self, node_id: u64, entry: ProgressEntry) -> (r: Result<Option<LogId>, ()>)
        requires
            old(self).wf(),
        ensures
            final(self).wf(),
            final(self).configs == old(self).configs,
            !old(self).has_id(node_id) ==> r is Err && *final(self) == *old(self),
            old(self).has_id(node_id) ==> {
                &&& r is Ok
                &&& final(self).entries@.len() == old(self).entries@.len()
                &&& forall|k: int|
                    0 <= k < old(self).entries@.len() && (#[trigger] old(self).entries@[k]).0
                        != node_id ==> final(self).entries@[k] == old(self).entries@[k]
                &&& forall|k: int|
                    0 <= k < old(self).entries@.len() && (#[trigger] old(self).entries@[k]).0
                        == node_id ==> final(self).entries@[k] == (node_id, entry)
            },
            r matches Ok(c) ==> final(self).is_committed_candidate(c),
    {
        let n = self.entries.len();
        let mut i: usize = 0;
        while i < n
            invariant
                *self == *old(self),
                self.wf(),
                n == self.entries@.len(),
                i <= n,
                forall|k: int| 0 <= k < i ==> (#[trigger] self.entries@[k]).0 != node_id,
            decreases n - i,
        {
            if self.entries[i].0 == node_id {
                self.entries.set(i, (node_id, entry));
                let c = self.compute_committed();
                return Result::Ok(c);
            }
            i = i + 1;
        }
        Result::Err(())
    }
}

impl Progress {
    /// The stored entry of `node_id`, or `default` when it is not tracked.
    pub fn lookup_or(&self, node_id: u64, default: ProgressEntry) -> (r: ProgressEntry)
        requires
            self.wf(),
        ensures
            r == if self.has_id(node_id) {
                self.entry_value(node_id)
            } else {
                default
            },
    {
        match self.try_get(node_id) {
            Option::Some(e) => e,
            Option::None => default,
        }
    }

    /// Rebuild the progress for a changed membership: the new voters come
    /// first in sorted order, then the given learners; members that were
    /// already tracked, as voter or learner, keep their progress, new ones
    /// start at `default`.
    pub fn upgrade_quorum_set(
        &self,
        new_configs: Vec<Vec<u64>>,
        learner_ids: &Vec<u64>,
        default: ProgressEntry,
    ) -> (r: Progress)
        requires
            self.wf(),
            strictly_sorted(learner_ids@),
            forall|j: int, k: int|
                0 <= j < learner_ids@.len() && 0 <= k < new_configs@.len() ==> !(
                #[trigger] new_configs@[k]@).contains(#[trigger] learner_ids@[j]),
        ensures
            r.wf(),
            r.configs == new_configs,
            forall|id: u64|
                r.has_id(id) <==> (exists|k: int|
                    0 <= k < new_configs@.len() && (#[trigger] new_configs@[k]@).contains(id))
                    || learner_ids@.contains(id),
            forall|k: int|
                0 <= k < r.entries@.len() ==> (#[trigger] r.entries@[k]).1 == if self.has_id(
                    r.entries@[k].0,
                ) {
                    self.entry_value(r.entries@[k].0)
                } else {
                    default
                },
            r.entries@.len() >= learner_ids@.len(),
            forall|j: int|
                0 <= j < learner_ids@.len() ==> (#[trigger] r.entries@[r.entries@.len()
                    - learner_ids@.len() + j]).0 == learner_ids@[j],
    {
        let voter_ids = sorted_union(&new_configs);
        let nv = voter_ids.len();
        let mut entries: Vec<(u64, ProgressEntry)> = Vec::new();
        let mut i: usize = 0;
        while i < nv
            invariant
                self.wf(),
                nv == voter_ids@.len(),
                i <= nv,
                entries@.len() == i,
                forall|k: int|
                    0 <= k < i ==> (#[trigger] entries@[k]).0 == voter_ids@[k]
                        && entries@[k].1 == if self.has_id(voter_ids@[k]) {
                        self.entry_value(voter_ids@[k])
                    } else {
                        default
                    },
            decreases nv - i,
        {
            let id = voter_ids[i];
            entries.push((id, self.lookup_or(id, default)));
            i = i + 1;
        }
        let nl = learner_ids.len();
        let mut j: usize = 0;
        while j < nl
            invariant
                self.wf(),
                nv == voter_ids@.len(),
                nl == learner_ids@.len(),
                j <= nl,
                entries@.len() == nv + j,
                forall|k: int|
                    0 <= k < nv ==> (#[trigger] entries@[k]).0 == voter_ids@[k]
                        && entries@[k].1 == if self.has_id(voter_ids@[k]) {
                        self.entry_value(voter_ids@[k])
                    } else {
                        default
                    },
                forall|k: int|
                    nv <= k < nv + j ==> (#[trigger] entries@[k]).0 == learner_ids@[k - nv]
                        && entries@[k].1 == if self.has_id(learner_ids@[k - nv]) {
                        self.entry_value(learner_ids@[k - nv])
                    } else {
                        default
                    },
            decreases nl - j,
        {
            let id = learner_ids[j];
            entries.push((id, self.lookup_or(id, default)));
            j = j + 1;
        }
        let r = Progress { configs: new_configs, entries };
        proof {
            assert forall|a: int, b: int| 0 <= a < b < r.entries@.len() implies (
            #[trigger] r.entries@[a]).0 != (#[trigger] r.entries@[b]).0 by {
                if a < nv && b < nv {
                    assert(voter_ids@[a] < voter_ids@[b]);
                } else if a >= nv && b >= nv {
                    assert(learner_ids@[a - nv] < learner_ids@[b - nv]);
                } else {
                    // a voter id equalling a learner id would put a learner
                    // inside a voter configuration
                    assert(voter_ids@.contains(voter_ids@[a]));
                    assert(learner_ids@.contains(learner_ids@[b - nv]));
                    if voter_ids@[a] == learner_ids@[b - nv] {
                        let k = choose|k: int|
                            0 <= k < r.configs@.len() && (#[trigger] r.configs@[k]@).contains(
                                voter_ids@[a],
                            );
                        assert(false);
                    }
                }
            }
            assert forall|id: u64|
                r.has_id(id) <==> (exists|k: int|
                    0 <= k < r.configs@.len() && (#[trigger] r.configs@[k]@).contains(id))
                    || learner_ids@.contains(id) by {
                if r.has_id(id) {
                    let k = choose|k: int|
                        0 <= k < r.entries@.len() && (#[trigger] r.entries@[k]).0 == id;
                    if k < nv {
                        assert(voter_ids@[k] == id);
                        assert(voter_ids@.contains(id));
                        let k2 = choose|k2: int|
                            0 <= k2 < r.configs@.len() && (#[trigger] r.configs@[k2]@).contains(
                                id,
                            );
                        assert(r.configs@[k2]@.contains(id));
                    } else {
                        assert(learner_ids@[k - nv] == id);
                        assert(learner_ids@.contains(id));
                    }
                }
                if exists|k: int|
                    0 <= k < r.configs@.len() && (#[trigger] r.configs@[k]@).contains(id) {
                    assert(voter_ids@.contains(id));
                    let k = choose|k: int| 0 <= k < voter_ids@.len() && voter_ids@[k] == id;
                    assert(r.entries@[k].0 == id);
                    assert(r.has_id(id));
                }
                if learner_ids@.contains(id) {
                    let k = choose|k: int| 0 <= k < learner_ids@.len() && learner_ids@[k] == id;
                    assert(r.entries@[nv + k].0 == id);
                    assert(r.has_id(id));
                }
            }
        }
        r
    }
}

/// The per-follower progress and the vote tally a leading node keeps.
/// Candidate and leader share this structure.
#[derive(PartialEq, Eq, Debug)]
pub struct Leader {
    pub progress: Progress,
    pub vote_granted_by: Vec<u64>,
}

impl Leader {
    pub open spec fn wf(self) -> bool {
        self.progress.wf() && strictly_sorted(self.vote_granted_by@)
    }

    /// A fresh leading state for the given membership: progress for every
    /// voter and learner starts empty at `end`, the tally starts empty.
    pub fn new(membership: &Membership, end: u64) -> (r: Leader)
        requires
            membership.wf(),
        ensures
            r.wf(),
            r.vote_granted_by@ == Seq::<u64>::empty(),
            r.progress.cview() == membership@.0,
            forall|k: int|
                0 <= k < r.progress.entries@.len() ==> (#[trigger] r.progress.entries@[k]).1 == (
                ProgressEntry { matching: Option::<LogId>::None, searching_end: end }),
            forall|id: u64|
                r.progress.has_id(id) <==> membership.is_voter_spec(id)
                    || membership.learners@.contains(id),
    {
        let learners = membership.learner_ids();
        let empty = Progress { configs: Vec::new(), entries: Vec::new() };
        let configs = crate::membership::clone_configs(&membership.configs);
        proof {
            crate::membership::lemma_filter_non_voters(*membership, membership.learners@);
            assert forall|j: int, k: int|
                0 <= j < learners@.len() && 0 <= k < configs@.len() implies !(
            #[trigger] configs@[k]@).contains(#[trigger] learners@[j]) by {
                assert(learners@.contains(learners@[j]));
                assert(!membership.is_voter_spec(learners@[j]));
                assert(configs@[k]@ == membership.configs@[k]@);
                if membership.configs@[k]@.contains(learners@[j]) {
                    assert(membership.is_voter_spec(learners@[j]));
                }
            }
        }
        let progress = empty.upgrade_quorum_set(configs, &learners, ProgressEntry::empty(end));
        proof {
            assert forall|id: u64|
                progress.has_id(id) <==> membership.is_voter_spec(id)
                    || membership.learners@.contains(id) by {
                if membership.is_voter_spec(id) {
                    let k = choose|k: int|
                        0 <= k < membership.configs@.len() && (
                        #[trigger] membership.configs@[k]@).contains(id);
                    assert(progress.configs@[k]@.contains(id));
                }
                if progress.has_id(id) {
                }
            }
        }
        Leader { progress, vote_granted_by: Vec::new() }
    }

    /// Record that `id` granted the vote.
    pub fn grant_vote_by(&mut self, id: u64)
        requires
            old(self).wf(),
        ensures
            final(self).wf(),
            final(self).progress == old(self).progress,
            forall|x: u64|
                final(self).vote_granted_by@.contains(x) <==> old(self).vote_granted_by@.contains(
                    x,
                ) || x == id,
    {
        insert_sorted_unique(&mut self.vote_granted_by, id)
    }

    /// Whether the tally is a quorum of the tracked voter configurations.
    pub fn is_vote_granted(&self) -> (r: bool)
        ensures
            r == quorum_over(self.progress.cview(), self.vote_granted_by@),
    {
        is_quorum_over(&self.progress.configs, &self.vote_granted_by)
    }
}

/// Inserting an element adds exactly it to what the sequence holds.
proof fn lemma_insert_contains(oldv: Seq<u64>, newv: Seq<u64>, i: int, x: u64)
    requires
        0 <= i <= oldv.len(),
        newv == oldv.insert(i, x),
    ensures
        forall|id: u64| newv.contains(id) <==> oldv.contains(id) || id == x,
{
    assert forall|id: u64| newv.contains(id) <==> oldv.contains(id) || id == x by {
        if oldv.contains(id) {
            let k = choose|k: int| 0 <= k < oldv.len() && oldv[k] == id;
            if k < i {
                assert(newv[k] == id);
            } else {
                assert(newv[k + 1] == id);
            }
        }
        if id == x {
            assert(newv[i] == id);
        }
        if newv.contains(id) {
            let k = choose|k: int| 0 <= k < newv.len() && newv[k] == id;
            if k < i {
                assert(oldv[k] == id);
            } else if k == i {
                assert(newv[k] == x);
            } else {
                assert(oldv[k - 1] == id);
            }
        }
    }
}

/// Insert `x` into a strictly sorted vector, keeping it strictly sorted.
pub fn insert_sorted_unique(v: &mut Vec<u64>, x: u64)
    requires
        strictly_sorted(old(v)@),
    ensures
        strictly_sorted(final(v)@),
        forall|id: u64| final(v)@.contains(id) <==> old(v)@.contains(id) || id == x,
{
    let n = v.len();
    let mut i: usize = 0;
    while i < n && v[i] < x
        invariant
            n == v@.len(),
            i <= n,
            strictly_sorted(v@),
            forall|k: int| 0 <= k < i ==> v@[k] < x,
        decreases n - i,
    {
        i = i + 1;
    }
    if i < n && v[i] == x {
        return;
    }
    let ghost oldv = v@;
    v.insert(i, x);
    proof {
        assert forall|a: int, b: int| 0 <= a < b < v@.len() implies v@[a] < v@[b] by {
            if a < i && b < i {
            } else if a == i || b == i {
                if b == i && a < i {
                    assert(v@[a] == oldv[a]);
                } else if a == i && b > i {
                    assert(v@[b] == oldv[b - 1]);
                    assert(oldv[b - 1] >= oldv[i as int]);
                    assert(oldv[i as int] != x);
                }
            } else {
            }
        }
        lemma_insert_contains(oldv, v@, i as int, x);
    }
}

/// The sorted union of the voter configurations: every voter id, once.
pub fn sorted_union(configs: &Vec<Vec<u64>>) -> (r: Vec<u64>)
    ensures
        strictly_sorted(r@),
        forall|id: u64|
            r@.contains(id) <==> exists|k: int|
                0 <= k < configs@.len() && (#[trigger] configs@[k]@).contains(id),
{
    let mut r: Vec<u64> = Vec::new();
    let n = configs.len();
    let mut i: usize = 0;
    while i < n
        invariant
            n == configs@.len(),
            i <= n,
            strictly_sorted(r@),
            forall|id: u64|
                r@.contains(id) <==> exists|k: int|
                    0 <= k < i && (#[trigger] configs@[k]@).contains(id),
        decreases n - i,
    {
        let c = &configs[i];
        let m = c.len();
        let mut j: usize = 0;
        while j < m
            invariant
                n == configs@.len(),
                i < n,
                m == configs@[i as int]@.len(),
                c == &configs[i as int],
                j <= m,
                strictly_sorted(r@),
                forall|id: u64|
                    r@.contains(id) <==> (exists|k: int|
                        0 <= k < i && (#[trigger] configs@[k]@).contains(id))
                        || configs@[i as int]@.take(j as int).contains(id),
            decreases m - j,
        {
            insert_sorted_unique(&mut r, c[j]);
            proof {
                assert(configs@[i as int]@.take(j + 1).drop_last() =~= configs@[i as int]@.take(
                    j as int,
                ));
                assert forall|id: u64|
                    configs@[i as int]@.take(j + 1).contains(id) <==> configs@[i as int]@.take(
                        j as int,
                    ).contains(id) || id == configs@[i as int]@[j as int] by {
                    let t = configs@[i as int]@.take(j + 1);
                    if t.contains(id) {
                        let k = choose|k: int| 0 <= k < t.len() && t[k] == id;
                        if k < j {
                            assert(configs@[i as int]@.take(j as int)[k] == id);
                        }
                    }
                    if configs@[i as int]@.take(j as int).contains(id) {
                        let k = choose|k: int|
                            0 <= k < j && configs@[i as int]@.take(j as int)[k] == id;
                        assert(t[k] == id);
                    }
                    if id == configs@[i as int]@[j as int] {
                        assert(t[j as int] == id);
                    }
                }
            }
            j = j + 1;
        }
        proof {
            assert(configs@[i as int]@.take(m as int) =~= configs@[i as int]@);
        }
        i = i + 1;
    }
    r
}

} // verus!
