//! A compressed index of all log ids in the log.
//!
//! Every contiguous run of indices sharing one leader id is summarised by
//! its boundary entries: the list stores the first log id of each leader
//! run, plus the last log id of the log.  That is enough to answer what the
//! log id at any index is, what the last one is, to truncate a conflicting
//! suffix and to purge an applied prefix.

use vstd::prelude::*;
use crate::log_id::{leader_le, log_id_lt, LeaderId, LogId};

verus! {

/// Well-formed key sequence: indices strictly increase and leader ids
/// never decrease.
pub open spec fn keys_wf(keys: Seq<LogId>) -> bool {
    forall|i: int, j: int|
        0 <= i < j < keys.len() ==> (#[trigger] keys[i]).index < (#[trigger] keys[j]).index
            && leader_le(keys[i].leader_id, keys[j].leader_id)
}

/// The leader id that governs `index`, read from the key sequence: the
/// leader of the last key whose index is at or below `index`.
pub open spec fn leader_at(keys: Seq<LogId>, index: int) -> LeaderId
    decreases keys.len(),
{
    if keys.len() == 0 {
        LeaderId { term: 0, node_id: 0 }
    } else if keys.last().index <= index {
        keys.last().leader_id
    } else {
        leader_at(keys.drop_last(), index)
    }
}

#[derive(PartialEq, Eq, Debug)]
pub struct LogIdList {
    pub key_log_ids: Vec<LogId>,
}

impl LogIdList {
    pub open spec fn wf(self) -> bool {
        keys_wf(self.key_log_ids@)
    }

    /// Whether `index` lies in the range the list covers.
    pub open spec fn in_range(self, index: int) -> bool {
        self.key_log_ids@.len() > 0 && self.key_log_ids@[0].index <= index
            <= self.key_log_ids@.last().index
    }

    /// The log id the list stores for `index`, if any.
    pub open spec fn log_id_at(self, index: int) -> Option<LogId> {
        if self.in_range(index) {
            Option::Some(
                LogId { leader_id: leader_at(self.key_log_ids@, index), index: index as u64 },
            )
        } else {
            Option::None
        }
    }

    pub open spec fn first_spec(self) -> Option<LogId> {
        if self.key_log_ids@.len() == 0 {
            Option::None
        } else {
            Option::Some(self.key_log_ids@[0])
        }
    }

    pub open spec fn last_spec(self) -> Option<LogId> {
        if self.key_log_ids@.len() == 0 {
            Option::None
        } else {
            Option::Some(self.key_log_ids@.last())
        }
    }

    pub fn new(key_log_ids: Vec<LogId>) -> (r: LogIdList)
        requires
            keys_wf(key_log_ids@),
        ensures
            r.key_log_ids == key_log_ids,
            r.wf(),
    {
        LogIdList { key_log_ids }
    }

    pub fn first(&self) -> (r: Option<LogId>)
        ensures
            r == self.first_spec(),
    {
        if self.key_log_ids.len() == 0 {
            Option::None
        } else {
            Option::Some(self.key_log_ids[0])
        }
    }

    pub fn last(&self) -> (r: Option<LogId>)
        ensures
            r == self.last_spec(),
    {
        let n = self.key_log_ids.len();
        if n == 0 {
            Option::None
        } else {
            Option::Some(self.key_log_ids[n - 1])
        }
    }

    /// Look up the log id at `index`.
    pub fn get(&self, index: u64) -> (r: Option<LogId>)
        requires
            self.wf(),
        ensures
            r == self.log_id_at(index as int),
    {
        let n = self.key_log_ids.len();
        if n == 0 {
            return Option::None;
        }
        if index > self.key_log_ids[n - 1].index {
            return Option::None;
        }
        let mut i: usize = n;
        while i > 0
            invariant
                self.wf(),
                n == self.key_log_ids@.len(),
                0 < n,
                i <= n,
                index <= self.key_log_ids@[n - 1].index,
                forall|j: int| i <= j < n ==> (#[trigger] self.key_log_ids@[j]).index > index,
            decreases i,
        {
            if self.key_log_ids[i - 1].index <= index {
                proof {
                    lemma_leader_at_key(self.key_log_ids@, i - 1, index as int);
                }
                return Option::Some(
                    LogId { leader_id: self.key_log_ids[i - 1].leader_id, index },
                );
            }
            i = i - 1;
        }
        Option::None
    }

    /// Append one log id at the end of the log.
    ///
    /// The new id must come strictly after the current last one, with a
    /// leader id no smaller; indices between the old last and the new one
    /// belong to the old last run of the same leader.
    pub fn append(&mut self, new: LogId)
        requires
            old(self).wf(),
            old(self).key_log_ids@.len() > 0 ==> {
                &&& old(self).key_log_ids@.last().index < new.index
                &&& leader_le(old(self).key_log_ids@.last().leader_id, new.leader_id)
            },
        ensures
            final(self).wf(),
            final(self).last_spec() == Option::Some(new),
            final(self).first_spec() == if old(self).key_log_ids@.len() == 0 {
                Option::Some(new)
            } else {
                old(self).first_spec()
            },
            forall|idx: int|
                old(self).in_range(idx) ==> final(self).log_id_at(idx) == old(self).log_id_at(idx),
            final(self).log_id_at(new.index as int) == Option::Some(new),
            forall|idx: int|
                old(self).key_log_ids@.len() > 0 && old(self).key_log_ids@.last().index < idx
                    < new.index ==> final(self).log_id_at(idx) == Option::Some(
                    LogId {
                        leader_id: old(self).key_log_ids@.last().leader_id,
                        index: idx as u64,
                    },
                ),
            forall|idx: int|
                idx < old(self).first_key_index_spec() || idx > new.index ==> final(self).log_id_at(
                    idx,
                ) == Option::<LogId>::None,
    {
        let ghost okeys = self.key_log_ids@;
        let n = self.key_log_ids.len();
        if n >= 2 && self.key_log_ids[n - 1].leader_id == new.leader_id
            && self.key_log_ids[n - 2].leader_id == new.leader_id {
            self.key_log_ids.set(n - 1, new);
            proof {
                let keys = self.key_log_ids@;
                assert(keys.drop_last() =~= okeys.drop_last());
                assert forall|idx: int| okeys[0].index <= idx < new.index implies leader_at(
                    keys,
                    idx,
                ) == leader_at(okeys, idx) by {
                    if idx < okeys.last().index {
                        assert(leader_at(okeys, idx) == leader_at(okeys.drop_last(), idx));
                    } else {
                        // idx within the merged run of the shared leader
                        lemma_leader_at_key(okeys.drop_last(), n - 2, idx);
                        lemma_leader_at_key(okeys, n - 1, idx);
                    }
                    if idx < new.index {
                        assert(leader_at(keys, idx) == leader_at(keys.drop_last(), idx));
                    }
                    if okeys.last().index <= idx {
                        lemma_leader_at_key(okeys.drop_last(), n - 2, idx);
                    }
                }
                assert(leader_at(keys, new.index as int) == new.leader_id);
            }
        } else {
            self.key_log_ids.push(new);
            proof {
                let keys = self.key_log_ids@;
                assert(keys.drop_last() =~= okeys);
                assert forall|i: int, j: int| 0 <= i < j < keys.len() implies (
                #[trigger] keys[i]).index < (#[trigger] keys[j]).index && leader_le(
                    keys[i].leader_id,
                    keys[j].leader_id,
                ) by {
                    if j < n {
                        assert(keys[i] == okeys[i] && keys[j] == okeys[j]);
                    } else {
                        assert(keys[j] == new);
                        if i < n {
                            assert(keys[i] == okeys[i]);
                            if i < n - 1 {
                                assert(okeys[i].index < okeys[n - 1].index);
                                assert(leader_le(okeys[i].leader_id, okeys[n - 1].leader_id));
                            }
                        }
                    }
                }
                assert forall|idx: int| idx < new.index implies leader_at(keys, idx) == leader_at(
                    okeys,
                    idx,
                ) by {
                    assert(leader_at(keys, idx) == leader_at(keys.drop_last(), idx));
                }
                if n > 0 {
                    assert forall|idx: int| okeys.last().index <= idx < new.index implies leader_at(
                        okeys,
                        idx,
                    ) == okeys.last().leader_id by {
                        lemma_leader_at_key(okeys, n - 1, idx);
                    }
                }
            }
        }
    }

    /// The index of the first key, or 0 when the list is empty.
    pub open spec fn first_key_index_spec(self) -> int {
        if self.key_log_ids@.len() == 0 {
            0
        } else {
            self.key_log_ids@[0].index as int
        }
    }

    /// Remove all log ids from index `at` on, inclusive.  An index beyond
    /// the end changes nothing.
    pub fn truncate(&mut self, at: u64)
        requires
            old(self).wf(),
        ensures
            final(self).wf(),
            old(self).key_log_ids@.len() == 0 ==> *final(self) == *old(self),
            old(self).key_log_ids@.len() > 0 && at > old(self).key_log_ids@.last().index ==>
                *final(self) == *old(self),
            forall|idx: int|
                idx < at && old(self).in_range(idx) ==> final(self).log_id_at(idx) == old(self).log_id_at(idx),
            forall|idx: int| at <= idx ==> final(self).log_id_at(idx) == Option::<LogId>::None,
            old(self).in_range(at as int) && at > old(self).first_key_index_spec() ==> final(self).last_spec() == old(self).log_id_at(at - 1) && final(self).first_spec() == old(self).first_spec(),
            old(self).key_log_ids@.len() > 0 && at <= old(self).first_key_index_spec() ==> final(self).key_log_ids@.len() == 0,
    {
        let ghost okeys = self.key_log_ids@;
        let n = self.key_log_ids.len();
        if n == 0 {
            return ;
        }
        if at > self.key_log_ids[n - 1].index {
            return ;
        }
        proof {
            assert(okeys.take(okeys.len() as int) =~= okeys);
        }
        while self.key_log_ids.len() > 0 && self.key_log_ids[self.key_log_ids.len() - 1].index
            >= at
            invariant
                keys_wf(okeys),
                self.key_log_ids@.len() <= okeys.len(),
                self.key_log_ids@ == okeys.take(self.key_log_ids@.len() as int),
                forall|j: int|
                    self.key_log_ids@.len() <= j < okeys.len() ==> (#[trigger] okeys[j]).index
                        >= at,
            decreases self.key_log_ids.len(),
        {
            self.key_log_ids.pop();
            proof {
                assert(self.key_log_ids@ =~= okeys.take(self.key_log_ids@.len() as int));
            }
        }
        let m = self.key_log_ids.len();
        proof {
            assert(self.wf()) by {
                assert forall|i: int, j: int| 0 <= i < j < m implies (
                #[trigger] self.key_log_ids@[i]).index < (#[trigger] self.key_log_ids@[j]).index
                    && leader_le(
                    self.key_log_ids@[i].leader_id,
                    self.key_log_ids@[j].leader_id,
                ) by {
                    assert(self.key_log_ids@[i] == okeys[i]);
                    assert(self.key_log_ids@[j] == okeys[j]);
                }
            }
            assert forall|idx: int| idx < at implies leader_at(self.key_log_ids@, idx) == leader_at(
                okeys,
                idx,
            ) by {
                lemma_leader_at_prefix(okeys, m as int, idx);
            }
        }
        if m == 0 {
            return ;
        }
        let last = self.key_log_ids[m - 1];
        // `at` exceeds an existing index, so `at - 1` cannot underflow.
        if last.index < at - 1 {
            let ghost mid = self.key_log_ids@;
            self.key_log_ids.push(LogId { leader_id: last.leader_id, index: at - 1 });
            proof {
                assert(self.key_log_ids@.drop_last() =~= mid);
                assert forall|idx: int|
                    idx < at && old(self).in_range(idx) implies self.log_id_at(idx) == old(self).log_id_at(idx) by {
                    if idx <= last.index {
                        assert(leader_at(self.key_log_ids@, idx) == leader_at(mid, idx));
                    } else {
                        lemma_leader_at_key(mid, m - 1, idx);
                        lemma_leader_at_key(okeys, m - 1, idx);
                    }
                }
                lemma_leader_at_key(okeys, m - 1, at - 1);
            }
        } else {
            proof {
                lemma_leader_at_key(okeys, m - 1, at - 1);
            }
        }
    }

    /// Purge log ids up to `upto`, inclusive.  The first stored id then
    /// records the purged boundary.  Purging at or beyond the last log id
    /// leaves only `upto` itself; purging below the first stored id
    /// changes nothing.
    pub fn purge(&mut self, upto: LogId)
        requires
            old(self).wf(),
        ensures
            final(self).wf(),
            old(self).key_log_ids@.len() == 0 || upto.index >= old(self).key_log_ids@.last().index ==> final(self).key_log_ids@ == seq![upto],
            old(self).key_log_ids@.len() > 0 && upto.index < old(self).first_key_index_spec()
                ==> *final(self) == *old(self),
            old(self).key_log_ids@.len() > 0 && old(self).first_key_index_spec() <= upto.index
                < old(self).key_log_ids@.last().index ==> {
                &&& forall|idx: int|
                    upto.index < idx ==> final(self).log_id_at(idx) == old(self).log_id_at(idx)
                &&& final(self).last_spec() == old(self).last_spec()
                &&& final(self).first_spec() == old(self).log_id_at(upto.index as int)
                &&& final(self).log_id_at(upto.index as int) == old(self).log_id_at(
                    upto.index as int,
                )
            },
    {
        let ghost okeys = self.key_log_ids@;
        let n = self.key_log_ids.len();
        if n == 0 || upto.index >= self.key_log_ids[n - 1].index {
            let mut keys: Vec<LogId> = Vec::new();
            keys.push(upto);
            self.key_log_ids = keys;
            proof {
                assert(self.key_log_ids@ =~= seq![upto]);
            }
            return ;
        }
        if upto.index < self.key_log_ids[0].index {
            return ;
        }
        // The governing leader at the purge boundary, from the keys as
        // they stand now.
        let boundary = match self.get(upto.index) {
            Option::Some(l) => l,
            Option::None => upto,
        };
        while self.key_log_ids.len() >= 2 && self.key_log_ids[1].index <= upto.index
            invariant
                self.wf(),
                self.key_log_ids@.len() >= 1,
                self.key_log_ids@[0].index <= upto.index,
                upto.index < self.key_log_ids@.last().index,
                self.key_log_ids@.last() == okeys.last(),
                forall|idx: int|
                    self.key_log_ids@[0].index <= idx ==> self.log_id_at(idx) == old(self).log_id_at(idx),
            decreases self.key_log_ids.len(),
        {
            let ghost mid = self.key_log_ids@;
            self.key_log_ids.remove(0);
            proof {
                assert(self.key_log_ids@ =~= mid.subrange(1, mid.len() as int));
                assert(keys_wf(self.key_log_ids@)) by {
                    assert forall|i: int, j: int|
                        0 <= i < j < self.key_log_ids@.len() implies (
                    #[trigger] self.key_log_ids@[i]).index < (
                    #[trigger] self.key_log_ids@[j]).index && leader_le(
                        self.key_log_ids@[i].leader_id,
                        self.key_log_ids@[j].leader_id,
                    ) by {
                        assert(self.key_log_ids@[i] == mid[i + 1]);
                        assert(self.key_log_ids@[j] == mid[j + 1]);
                    }
                }
                assert forall|idx: int| self.key_log_ids@[0].index <= idx implies self.log_id_at(
                    idx,
                ) == old(self).log_id_at(idx) by {
                    lemma_leader_at_skip_front(mid, idx);
                    assert(self.key_log_ids@.last() == mid.last());
                }
            }
        }
        proof {
            lemma_leader_at_key(self.key_log_ids@, 0, upto.index as int);
            assert(boundary == (LogId {
                leader_id: leader_at(self.key_log_ids@, upto.index as int),
                index: upto.index,
            }));
        }
        if self.key_log_ids[0].index < upto.index {
            let ghost mid = self.key_log_ids@;
            self.key_log_ids.set(0, boundary);
            proof {
                assert(boundary.leader_id == mid[0].leader_id) by {
                    lemma_leader_at_key(mid, 0, upto.index as int);
                }
                assert(keys_wf(self.key_log_ids@)) by {
                    assert forall|i: int, j: int|
                        0 <= i < j < self.key_log_ids@.len() implies (
                    #[trigger] self.key_log_ids@[i]).index < (
                    #[trigger] self.key_log_ids@[j]).index && leader_le(
                        self.key_log_ids@[i].leader_id,
                        self.key_log_ids@[j].leader_id,
                    ) by {
                        assert(mid[i].index <= upto.index || mid[i] == self.key_log_ids@[i]);
                        if i > 0 {
                            assert(self.key_log_ids@[i] == mid[i]);
                        }
                        assert(self.key_log_ids@[j] == mid[j]);
                        if i == 0 {
                            assert(mid[1].index > upto.index);
                            if j > 1 {
                                assert(mid[1].index < mid[j].index);
                            }
                        }
                    }
                }
                assert forall|idx: int| upto.index <= idx implies self.log_id_at(idx) == old(self).log_id_at(idx) by {
                    lemma_leader_at_update_front(mid, self.key_log_ids@, idx);
                }
            }
        }
    }
}

/// Dropping a first key whose successor's index is still at or below
/// `index` does not change the governing leader.
pub proof fn lemma_leader_at_skip_front(keys: Seq<LogId>, index: int)
    requires
        keys_wf(keys),
        keys.len() >= 2,
        keys[1].index <= index,
    ensures
        leader_at(keys.subrange(1, keys.len() as int), index) == leader_at(keys, index),
    decreases keys.len(),
{
    let t = keys.subrange(1, keys.len() as int);
    if keys.last().index <= index {
        assert(t.last() == keys.last());
    } else if keys.len() == 2 {
        assert(keys[1] == keys.last());
        assert(false);
    } else {
        assert(keys_wf(keys.drop_last())) by {
            assert forall|i: int, j: int| 0 <= i < j < keys.drop_last().len() implies (
            #[trigger] keys.drop_last()[i]).index < (#[trigger] keys.drop_last()[j]).index
                && leader_le(keys.drop_last()[i].leader_id, keys.drop_last()[j].leader_id) by {
                assert(keys.drop_last()[i] == keys[i]);
                assert(keys.drop_last()[j] == keys[j]);
            }
        }
        assert(keys.drop_last()[1] == keys[1]);
        lemma_leader_at_skip_front(keys.drop_last(), index);
        assert(keys.drop_last().subrange(1, keys.drop_last().len() as int) =~= t.drop_last());
        assert(t.last() == keys.last());
    }
}

/// Replacing the first key by one with the same leader and a larger index
/// no greater than `index` does not change the governing leader.
pub proof fn lemma_leader_at_update_front(mid: Seq<LogId>, new: Seq<LogId>, index: int)
    requires
        mid.len() >= 1,
        new.len() == mid.len(),
        new[0].leader_id == mid[0].leader_id,
        mid[0].index <= new[0].index <= index,
        forall|k: int| 1 <= k < mid.len() ==> new[k] == mid[k],
    ensures
        leader_at(new, index) == leader_at(mid, index),
    decreases mid.len(),
{
    if mid.len() == 1 {
        if mid.last().index <= index {
            assert(new.last().index <= index);
        }
    } else {
        assert(new.last() == mid.last());
        if mid.last().index <= index {
        } else {
            assert(new.drop_last()[0] == new[0]);
            assert(mid.drop_last()[0] == mid[0]);
            assert forall|k: int| 1 <= k < mid.drop_last().len() implies new.drop_last()[k]
                == mid.drop_last()[k] by {
                assert(new.drop_last()[k] == new[k]);
                assert(mid.drop_last()[k] == mid[k]);
            }
            lemma_leader_at_update_front(mid.drop_last(), new.drop_last(), index);
        }
    }
}

/// `leader_at` returns the leader of key `k` when key `k` is the last one
/// at or below `index`.
pub proof fn lemma_leader_at_key(keys: Seq<LogId>, k: int, index: int)
    requires
        keys_wf(keys),
        0 <= k < keys.len(),
        keys[k].index <= index,
        k == keys.len() - 1 || keys[k + 1].index > index,
    ensures
        leader_at(keys, index) == keys[k].leader_id,
    decreases keys.len(),
{
    if k == keys.len() - 1 {
        assert(keys.last() == keys[k]);
    } else {
        assert(keys.last().index > index) by {
            if k + 1 < keys.len() - 1 {
                assert(keys[k + 1].index < keys[keys.len() - 1].index);
            }
        }
        assert(keys_wf(keys.drop_last())) by {
            assert forall|i: int, j: int| 0 <= i < j < keys.drop_last().len() implies (
            #[trigger] keys.drop_last()[i]).index < (#[trigger] keys.drop_last()[j]).index
                && leader_le(keys.drop_last()[i].leader_id, keys.drop_last()[j].leader_id) by {
                assert(keys.drop_last()[i] == keys[i]);
                assert(keys.drop_last()[j] == keys[j]);
            }
        }
        assert(keys.drop_last()[k] == keys[k]);
        if k < keys.len() - 2 {
            assert(keys.drop_last()[k + 1] == keys[k + 1]);
        }
        lemma_leader_at_key(keys.drop_last(), k, index);
    }
}

/// Keys whose indices all exceed `index` do not affect `leader_at`.
pub proof fn lemma_leader_at_prefix(keys: Seq<LogId>, m: int, index: int)
    requires
        0 <= m <= keys.len(),
        forall|j: int| m <= j < keys.len() ==> (#[trigger] keys[j]).index > index,
    ensures
        leader_at(keys.take(m), index) == leader_at(keys, index),
    decreases keys.len() - m,
{
    if m == keys.len() {
        assert(keys.take(m) =~= keys);
    } else {
        assert(keys.last().index > index);
        assert(keys.drop_last().take(m) =~= keys.take(m));
        lemma_leader_at_prefix(keys.drop_last(), m, index);
    }
}

/// The governing leader never exceeds the last key's leader.
pub proof fn lemma_leader_at_le_last(keys: Seq<LogId>, index: int)
    requires
        keys_wf(keys),
        keys.len() > 0,
    ensures
        leader_le(leader_at(keys, index), keys.last().leader_id),
    decreases keys.len(),
{
    if keys.last().index <= index {
    } else if keys.len() == 1 {
        assert(keys.drop_last().len() == 0);
        assert(leader_at(keys.drop_last(), index) == (LeaderId { term: 0, node_id: 0 }));
    } else {
        assert(keys_wf(keys.drop_last())) by {
            assert forall|i: int, j: int| 0 <= i < j < keys.drop_last().len() implies (
            #[trigger] keys.drop_last()[i]).index < (#[trigger] keys.drop_last()[j]).index
                && leader_le(keys.drop_last()[i].leader_id, keys.drop_last()[j].leader_id) by {
                assert(keys.drop_last()[i] == keys[i]);
                assert(keys.drop_last()[j] == keys[j]);
            }
        }
        lemma_leader_at_le_last(keys.drop_last(), index);
        assert(keys.drop_last().last() == keys[keys.len() - 2]);
        assert(leader_le(keys[keys.len() - 2].leader_id, keys.last().leader_id));
    }
}

/// The governing leader is monotone in the index.
pub proof fn lemma_leader_at_mono(keys: Seq<LogId>, i: int, j: int)
    requires
        keys_wf(keys),
        i <= j,
    ensures
        leader_le(leader_at(keys, i), leader_at(keys, j)),
    decreases keys.len(),
{
    if keys.len() == 0 {
    } else if keys.last().index <= i {
    } else if keys.last().index <= j {
        lemma_leader_at_le_last(keys, i);
    } else {
        assert(keys_wf(keys.drop_last())) by {
            assert forall|a: int, b: int| 0 <= a < b < keys.drop_last().len() implies (
            #[trigger] keys.drop_last()[a]).index < (#[trigger] keys.drop_last()[b]).index
                && leader_le(keys.drop_last()[a].leader_id, keys.drop_last()[b].leader_id) by {
                assert(keys.drop_last()[a] == keys[a]);
                assert(keys.drop_last()[b] == keys[b]);
            }
        }
        lemma_leader_at_mono(keys.drop_last(), i, j);
    }
}

/// Log-id monotonicity: within the range the list covers, log ids are
/// strictly increasing in the total order on log ids.
pub proof fn lemma_log_id_at_increasing(l: LogIdList, i: int, j: int)
    requires
        l.wf(),
        l.in_range(i),
        l.in_range(j),
        i < j,
    ensures
        l.log_id_at(i) matches Option::Some(a) && l.log_id_at(j) matches Option::Some(b)
            && log_id_lt(a, b),
{
    lemma_leader_at_mono(l.key_log_ids@, i, j);
}

} // verus!
