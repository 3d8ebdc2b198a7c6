//! Cluster membership: voter configurations, learners, and quorums.

use vstd::prelude::*;
use crate::log_id::LogId;

verus! {

/// A sequence of node ids sorted strictly ascending (hence without
/// duplicates), as a set of nodes is stored here.
pub open spec fn strictly_sorted(s: Seq<u64>) -> bool {
    forall|i: int, j: int| 0 <= i < j < s.len() ==> s[i] < s[j]
}

/// How many members of `config` occur in `granted`.
pub open spec fn count_granted(config: Seq<u64>, granted: Seq<u64>) -> int
    decreases config.len(),
{
    if config.len() == 0 {
        0
    } else {
        count_granted(config.drop_last(), granted) + if granted.contains(config.last()) {
            1int
        } else {
            0int
        }
    }
}

/// `granted` holds a majority of `config`.
pub open spec fn majority_of(config: Seq<u64>, granted: Seq<u64>) -> bool {
    2 * count_granted(config, granted) > config.len()
}

/// `granted` is a quorum of the voter configurations `configs`: it holds a
/// majority of every one of them.
pub open spec fn quorum_over(configs: Seq<Seq<u64>>, granted: Seq<u64>) -> bool {
    forall|i: int| 0 <= i < configs.len() ==> majority_of(#[trigger] configs[i], granted)
}

/// Whether `granted` is a quorum of the voter configurations `configs`.
pub fn is_quorum_over(configs: &Vec<Vec<u64>>, granted: &Vec<u64>) -> (r: bool)
    ensures
        r == quorum_over(configs@.map_values(|c: Vec<u64>| c@), granted@),
{
    let ghost cview = configs@.map_values(|c: Vec<u64>| c@);
    let n = configs.len();
    let mut i: usize = 0;
    while i < n
        invariant
            n == configs@.len(),
            cview == configs@.map_values(|c: Vec<u64>| c@),
            i <= n,
            forall|k: int| 0 <= k < i ==> majority_of(#[trigger] cview[k], granted@),
        decreases n - i,
    {
        let cnt = count_granted_in(&configs[i], granted);
        proof {
            lemma_count_granted_bound(configs@[i as int]@, granted@);
        }
        if 2 * (cnt as u128) <= configs[i].len() as u128 {
            proof {
                assert(cview[i as int] == configs@[i as int]@);
                assert(!majority_of(cview[i as int], granted@));
            }
            return false;
        }
        proof {
            assert(cview[i as int] == configs@[i as int]@);
        }
        i = i + 1;
    }
    true
}

/// A membership: an ordered list of voter configurations (two while a
/// joint-consensus change is in progress) plus explicit learners.
#[derive(Debug)]
pub struct Membership {
    pub configs: Vec<Vec<u64>>,
    pub learners: Vec<u64>,
}

/// Well-formedness depends only on the view: a copy of a well-formed
/// membership is well-formed.
pub proof fn lemma_membership_wf_from_view(a: Membership, b: Membership)
    requires
        a.wf(),
        a@ == b@,
    ensures
        b.wf(),
{
    assert(a@.0.len() == a.configs@.len());
    assert(b@.0.len() == b.configs@.len());
    assert forall|i: int| 0 <= i < b.configs@.len() implies strictly_sorted(
        #[trigger] b.configs@[i]@,
    ) by {
        assert(b@.0[i] == b.configs@[i]@);
        assert(a@.0[i] == a.configs@[i]@);
        assert(strictly_sorted(a.configs@[i]@));
    }
    assert(b.learners@ == a.learners@);
}

/// What `filter_non_voters` keeps, and that it keeps the order.
pub proof fn lemma_filter_non_voters(m: Membership, s: Seq<u64>)
    ensures
        forall|id: u64|
            filter_non_voters(m, s).contains(id) <==> s.contains(id) && !m.is_voter_spec(id),
        strictly_sorted(s) ==> strictly_sorted(filter_non_voters(m, s)),
    decreases s.len(),
{
    if s.len() == 0 {
    } else {
        let d = s.drop_last();
        let fd = filter_non_voters(m, d);
        let f = filter_non_voters(m, s);
        lemma_filter_non_voters(m, d);
        assert forall|id: u64| s.contains(id) <==> d.contains(id) || id == s.last() by {
            if s.contains(id) {
                let k = choose|k: int| 0 <= k < s.len() && s[k] == id;
                if k < s.len() - 1 {
                    assert(d[k] == id);
                }
            }
            if d.contains(id) {
                let k = choose|k: int| 0 <= k < d.len() && d[k] == id;
                assert(s[k] == id);
            }
            if id == s.last() {
                assert(s[s.len() - 1] == id);
            }
        }
        assert forall|id: u64| f.contains(id) implies s.contains(id) && !m.is_voter_spec(id) by {
            if !m.is_voter_spec(s.last()) {
                let k = choose|k: int| 0 <= k < f.len() && f[k] == id;
                if k < f.len() - 1 {
                    assert(fd[k] == id);
                }
            }
        }
        assert forall|id: u64| s.contains(id) && !m.is_voter_spec(id) implies f.contains(id) by {
            if d.contains(id) && !m.is_voter_spec(id) {
                let k = choose|k: int| 0 <= k < fd.len() && fd[k] == id;
                if m.is_voter_spec(s.last()) {
                    assert(f[k] == id);
                } else {
                    assert(f[k] == id);
                }
            }
            if id == s.last() && !m.is_voter_spec(id) {
                assert(f[f.len() - 1] == id);
            }
        }
        if strictly_sorted(s) {
            assert(strictly_sorted(d)) by {
                assert forall|i: int, j: int| 0 <= i < j < d.len() implies d[i] < d[j] by {
                    assert(d[i] == s[i] && d[j] == s[j]);
                }
            }
            if !m.is_voter_spec(s.last()) {
                assert forall|i: int, j: int| 0 <= i < j < f.len() implies f[i] < f[j] by {
                    if j < f.len() - 1 {
                        assert(f[i] == fd[i] && f[j] == fd[j]);
                    } else {
                        assert(f[i] == fd[i]);
                        assert(fd.contains(fd[i]));
                        assert(d.contains(fd[i]));
                        let k = choose|k: int| 0 <= k < d.len() && d[k] == fd[i];
                        assert(s[k] < s.last());
                    }
                }
            }
        }
    }
}

/// Copy a node vector element by element.
pub fn clone_nodes(v: &Vec<u64>) -> (r: Vec<u64>)
    ensures
        r@ == v@,
{
    let mut r: Vec<u64> = Vec::new();
    let n = v.len();
    let mut i: usize = 0;
    while i < n
        invariant
            n == v@.len(),
            i <= n,
            r@ == v@.take(i as int),
        decreases n - i,
    {
        r.push(v[i]);
        proof {
            assert(r@ =~= v@.take(i + 1));
        }
        i = i + 1;
    }
    proof {
        assert(v@.take(n as int) =~= v@);
    }
    r
}

/// Copy voter configurations element by element.
pub fn clone_configs(v: &Vec<Vec<u64>>) -> (r: Vec<Vec<u64>>)
    ensures
        r@.len() == v@.len(),
        forall|k: int| 0 <= k < v@.len() ==> (#[trigger] r@[k])@ == v@[k]@,
        r@.map_values(|c: Vec<u64>| c@) == v@.map_values(|c: Vec<u64>| c@),
{
    let mut configs: Vec<Vec<u64>> = Vec::new();
    let n = v.len();
    let mut i: usize = 0;
    while i < n
        invariant
            n == v@.len(),
            i <= n,
            configs@.len() == i,
            forall|k: int| 0 <= k < i ==> (#[trigger] configs@[k])@ == v@[k]@,
        decreases n - i,
    {
        configs.push(clone_nodes(&v[i]));
        i = i + 1;
    }
    proof {
        assert(configs@.map_values(|c: Vec<u64>| c@) =~= v@.map_values(|c: Vec<u64>| c@));
    }
    configs
}

impl Clone for Membership {
    fn clone(&self) -> (r: Self)
        ensures
            r@ == self@,
    {
        let r = Membership {
            configs: clone_configs(&self.configs),
            learners: clone_nodes(&self.learners),
        };
        proof {
            assert(r@ =~= self@);
        }
        r
    }
}

impl View for Membership {
    type V = (Seq<Seq<u64>>, Seq<u64>);

    open spec fn view(&self) -> (Seq<Seq<u64>>, Seq<u64>) {
        (self.configs@.map_values(|c: Vec<u64>| c@), self.learners@)
    }
}

impl Membership {
    pub open spec fn wf(self) -> bool {
        &&& forall|i: int|
            0 <= i < self.configs@.len() ==> strictly_sorted(#[trigger] self.configs@[i]@)
        &&& strictly_sorted(self.learners@)
    }

    /// Whether `node_id` is a voter: a member of some voter configuration.
    pub open spec fn is_voter_spec(self, node_id: u64) -> bool {
        exists|i: int| 0 <= i < self.configs@.len() && (#[trigger] self.configs@[i]@).contains(
            node_id,
        )
    }

    /// Whether `granted` is a quorum: it holds a majority of every voter
    /// configuration.
    pub open spec fn is_quorum_spec(self, granted: Seq<u64>) -> bool {
        quorum_over(self@.0, granted)
    }

    /// Build a membership from voter configurations and optional learners.
    /// Each node list must be sorted strictly ascending.
    pub fn new(configs: Vec<Vec<u64>>, learners: Option<Vec<u64>>) -> (r: Membership)
        requires
            forall|i: int| 0 <= i < configs@.len() ==> strictly_sorted(#[trigger] configs@[i]@),
            learners matches Option::Some(l) ==> strictly_sorted(l@),
        ensures
            r.configs == configs,
            r.learners@ == match learners {
                Option::Some(l) => l@,
                Option::None => Seq::<u64>::empty(),
            },
            r.wf(),
    {
        let l = match learners {
            Option::Some(l) => l,
            Option::None => Vec::new(),
        };
        proof {
            assert(l@ =~= l@);
        }
        Membership { configs, learners: l }
    }

    pub fn is_voter(&self, node_id: u64) -> (r: bool)
        ensures
            r == self.is_voter_spec(node_id),
    {
        let n = self.configs.len();
        let mut i: usize = 0;
        while i < n
            invariant
                n == self.configs@.len(),
                i <= n,
                forall|k: int| 0 <= k < i ==> !(#[trigger] self.configs@[k]@).contains(node_id),
            decreases n - i,
        {
            if vec_contains(&self.configs[i], node_id) {
                return true;
            }
            i = i + 1;
        }
        false
    }

    pub fn is_quorum(&self, granted: &Vec<u64>) -> (r: bool)
        ensures
            r == self.is_quorum_spec(granted@),
    {
        is_quorum_over(&self.configs, granted)
    }

    /// The learners of this membership that are not voters.
    pub fn learner_ids(&self) -> (r: Vec<u64>)
        ensures
            r@ == filter_non_voters(*self, self.learners@),
    {
        let mut r: Vec<u64> = Vec::new();
        let n = self.learners.len();
        let mut i: usize = 0;
        while i < n
            invariant
                n == self.learners@.len(),
                i <= n,
                r@ == filter_non_voters(*self, self.learners@.take(i as int)),
            decreases n - i,
        {
            proof {
                assert(self.learners@.take(i + 1).drop_last() =~= self.learners@.take(i as int));
                assert(self.learners@.take(i + 1).last() == self.learners@[i as int]);
            }
            let node = self.learners[i];
            if !self.is_voter(node) {
                r.push(node);
            }
            i = i + 1;
        }
        proof {
            assert(self.learners@.take(n as int) =~= self.learners@);
        }
        r
    }
}

/// The subsequence of `s` whose nodes are not voters of `m`.
pub open spec fn filter_non_voters(m: Membership, s: Seq<u64>) -> Seq<u64>
    decreases s.len(),
{
    if s.len() == 0 {
        Seq::empty()
    } else if m.is_voter_spec(s.last()) {
        filter_non_voters(m, s.drop_last())
    } else {
        filter_non_voters(m, s.drop_last()).push(s.last())
    }
}

/// Whether two node vectors hold the same nodes in the same order.
pub fn nodes_eq(a: &Vec<u64>, b: &Vec<u64>) -> (r: bool)
    ensures
        r == (a@ == b@),
{
    let n = a.len();
    if n != b.len() {
        return false;
    }
    let mut i: usize = 0;
    while i < n
        invariant
            n == a@.len(),
            n == b@.len(),
            i <= n,
            forall|k: int| 0 <= k < i ==> a@[k] == b@[k],
        decreases n - i,
    {
        if a[i] != b[i] {
            return false;
        }
        i = i + 1;
    }
    proof {
        assert(a@ =~= b@);
    }
    true
}

impl PartialEq for Membership {
    fn eq(&self, other: &Membership) -> bool {
        let n = self.configs.len();
        if n != other.configs.len() {
            proof {
                assert(self@.0.len() != other@.0.len());
            }
            return false;
        }
        let mut i: usize = 0;
        while i < n
            invariant
                n == self.configs@.len(),
                n == other.configs@.len(),
                i <= n,
                forall|k: int| 0 <= k < i ==> self.configs@[k]@ == other.configs@[k]@,
            decreases n - i,
        {
            if !nodes_eq(&self.configs[i], &other.configs[i]) {
                proof {
                    assert(self@.0[i as int] != other@.0[i as int]);
                }
                return false;
            }
            i = i + 1;
        }
        let r = nodes_eq(&self.learners, &other.learners);
        proof {
            if r {
                assert(self@.0 =~= other@.0);
            }
        }
        r
    }
}

impl vstd::std_specs::cmp::PartialEqSpecImpl for Membership {
    open spec fn obeys_eq_spec() -> bool {
        true
    }

    open spec fn eq_spec(&self, other: &Membership) -> bool {
        self@ == other@
    }
}

/// Whether a sorted node vector contains `node_id`.
pub fn vec_contains(v: &Vec<u64>, node_id: u64) -> (r: bool)
    ensures
        r == v@.contains(node_id),
{
    let n = v.len();
    let mut i: usize = 0;
    while i < n
        invariant
            n == v@.len(),
            i <= n,
            forall|k: int| 0 <= k < i ==> v@[k] != node_id,
        decreases n - i,
    {
        if v[i] == node_id {
            return true;
        }
        i = i + 1;
    }
    false
}

/// Count how many members of `config` occur in `granted`.
pub fn count_granted_in(config: &Vec<u64>, granted: &Vec<u64>) -> (r: usize)
    ensures
        r == count_granted(config@, granted@),
{
    let n = config.len();
    let mut i: usize = 0;
    let mut cnt: usize = 0;
    while i < n
        invariant
            n == config@.len(),
            i <= n,
            cnt == count_granted(config@.take(i as int), granted@),
            cnt <= i,
        decreases n - i,
    {
        proof {
            assert(config@.take(i + 1).drop_last() =~= config@.take(i as int));
            assert(config@.take(i + 1).last() == config@[i as int]);
            lemma_count_granted_bound(config@.take(i as int), granted@);
        }
        if vec_contains(granted, config[i]) {
            cnt = cnt + 1;
        }
        i = i + 1;
    }
    proof {
        assert(config@.take(n as int) =~= config@);
    }
    cnt
}

/// Quorum checks see only which nodes a tally holds, not their order.
pub proof fn lemma_count_granted_same_contains(config: Seq<u64>, g1: Seq<u64>, g2: Seq<u64>)
    requires
        forall|x: u64| g1.contains(x) <==> g2.contains(x),
    ensures
        count_granted(config, g1) == count_granted(config, g2),
    decreases config.len(),
{
    if config.len() > 0 {
        lemma_count_granted_same_contains(config.drop_last(), g1, g2);
    }
}

/// Quorums see only which nodes a tally holds, not their order.
pub proof fn lemma_quorum_same_contains(configs: Seq<Seq<u64>>, g1: Seq<u64>, g2: Seq<u64>)
    requires
        forall|x: u64| g1.contains(x) <==> g2.contains(x),
    ensures
        quorum_over(configs, g1) == quorum_over(configs, g2),
{
    assert forall|i: int| 0 <= i < configs.len() implies majority_of(#[trigger] configs[i], g1)
        == majority_of(configs[i], g2) by {
        lemma_count_granted_same_contains(configs[i], g1, g2);
    }
}

pub proof fn lemma_count_granted_bound(config: Seq<u64>, granted: Seq<u64>)
    ensures
        0 <= count_granted(config, granted) <= config.len(),
    decreases config.len(),
{
    if config.len() > 0 {
        lemma_count_granted_bound(config.drop_last(), granted);
    }
}

/// The membership last seen in the log, together with the log id of the
/// entry that defined it.
#[derive(Debug)]
pub struct EffectiveMembership {
    pub log_id: Option<LogId>,
    pub membership: Membership,
}

impl Clone for EffectiveMembership {
    fn clone(&self) -> (r: Self)
        ensures
            r@ == self@,
    {
        EffectiveMembership { log_id: self.log_id, membership: self.membership.clone() }
    }
}

impl View for EffectiveMembership {
    type V = (Option<LogId>, (Seq<Seq<u64>>, Seq<u64>));

    open spec fn view(&self) -> (Option<LogId>, (Seq<Seq<u64>>, Seq<u64>)) {
        (self.log_id, self.membership@)
    }
}

impl PartialEq for EffectiveMembership {
    fn eq(&self, other: &EffectiveMembership) -> bool {
        let ids_eq = match (&self.log_id, &other.log_id) {
            (Option::None, Option::None) => true,
            (Option::Some(a), Option::Some(b)) => *a == *b,
            _ => false,
        };
        ids_eq && self.membership == other.membership
    }
}

impl vstd::std_specs::cmp::PartialEqSpecImpl for EffectiveMembership {
    open spec fn obeys_eq_spec() -> bool {
        true
    }

    open spec fn eq_spec(&self, other: &EffectiveMembership) -> bool {
        self@ == other@
    }
}

impl EffectiveMembership {
    pub fn new(log_id: Option<LogId>, membership: Membership) -> (r: EffectiveMembership)
        ensures
            r.log_id == log_id,
            r.membership == membership,
    {
        EffectiveMembership { log_id, membership }
    }

    pub fn is_voter(&self, node_id: u64) -> (r: bool)
        ensures
            r == self.membership.is_voter_spec(node_id),
    {
        self.membership.is_voter(node_id)
    }
}

/// The two memberships a node tracks: the last committed one and the
/// effective (latest seen, possibly uncommitted) one.
#[derive(Debug, PartialEq)]
pub struct MembershipState {
    pub committed: EffectiveMembership,
    pub effective: EffectiveMembership,
}

impl Clone for MembershipState {
    fn clone(&self) -> (r: Self)
        ensures
            r@ == self@,
    {
        MembershipState { committed: self.committed.clone(), effective: self.effective.clone() }
    }
}

impl View for MembershipState {
    type V = (<EffectiveMembership as View>::V, <EffectiveMembership as View>::V);

    open spec fn view(&self) -> Self::V {
        (self.committed@, self.effective@)
    }
}

impl MembershipState {
    pub fn is_voter(&self, node_id: u64) -> (r: bool)
        ensures
            r == self.effective.membership.is_voter_spec(node_id),
    {
        self.effective.is_voter(node_id)
    }
}

} // verus!
