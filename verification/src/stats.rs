//! Statistics aggregation.
//!
//! The aggregator maintains the process-wide mapping from configuration id
//! to running totals: `sent`, the number of round trips attempted, and
//! `missed`, the number of Missed outcomes. An entry is created with zero
//! totals on the first outcome recorded for its id, and is never removed or
//! reset. The display layer only ever sees an immutable point-in-time copy
//! of the mapping, never the live state.

use crate::roundtrip::Outcome;
use vstd::prelude::*;

verus! {

/// Running totals for one configuration id: round trips attempted and
/// round trips missed.
#[derive(Debug, Clone, Copy, PartialEq, Eq, Structural)]
pub struct Stat {
    pub sent: usize,
    pub missed: usize,
}

impl Stat {
    /// A total can never count more misses than attempts.
    pub open spec fn wf(self) -> bool {
        self.missed <= self.sent
    }

    /// The totals an id starts from, before its first outcome.
    pub open spec fn zero() -> Stat {
        Stat { sent: 0, missed: 0 }
    }

    /// The totals after one more outcome: `sent` grows unconditionally,
    /// `missed` exactly when the outcome is Missed.
    pub open spec fn recorded(self, outcome: Outcome) -> Stat
        recommends
            self.sent < usize::MAX,
    {
        Stat {
            sent: (self.sent + 1) as usize,
            missed: if outcome is Missed {
                (self.missed + 1) as usize
            } else {
                self.missed
            },
        }
    }
}

impl Default for Stat {
    /// Zero totals, as an id starts with.
    fn default() -> (r: Stat)
        ensures
            r == Stat::zero(),
    {
        Stat { sent: 0, missed: 0 }
    }
}

/// Number of Missed outcomes in a run.
pub open spec fn count_missed(outcomes: Seq<Outcome>) -> nat
    decreases outcomes.len(),
{
    if outcomes.len() == 0 {
        0
    } else {
        count_missed(outcomes.drop_last()) + if outcomes.last() is Missed {
            1nat
        } else {
            0nat
        }
    }
}

/// The totals after a whole run of outcomes is recorded on top of `base`.
pub open spec fn recorded_all(base: Stat, outcomes: Seq<Outcome>) -> Stat
    recommends
        base.sent + outcomes.len() <= usize::MAX,
{
    Stat {
        sent: (base.sent + outcomes.len()) as usize,
        missed: (base.missed + count_missed(outcomes)) as usize,
    }
}

/// Each configuration id appears at most once among the entries.
pub open spec fn ids_unique(entries: Seq<(usize, Stat)>) -> bool {
    forall|i: int, j: int|
        #![trigger entries[i], entries[j]]
        0 <= i < j < entries.len() ==> entries[i].0 != entries[j].0
}

/// The mapping from configuration id to totals that a list of entries
/// represents; with unique ids, the pairing itself.
pub open spec fn map_of(entries: Seq<(usize, Stat)>) -> Map<usize, Stat>
    decreases entries.len(),
{
    if entries.len() == 0 {
        Map::empty()
    } else {
        map_of(entries.drop_last()).insert(entries.last().0, entries.last().1)
    }
}

proof fn lemma_ids_unique_prefix(entries: Seq<(usize, Stat)>)
    requires
        ids_unique(entries),
        entries.len() > 0,
    ensures
        ids_unique(entries.drop_last()),
{
    assert forall|i: int, j: int|
        0 <= i < j < entries.drop_last().len() implies (entries.drop_last())[i].0 != (
    entries.drop_last())[j].0 by {
        assert(entries.drop_last()[i] == entries[i]);
        assert(entries.drop_last()[j] == entries[j]);
    }
}

proof fn lemma_map_of_dom(entries: Seq<(usize, Stat)>, k: usize)
    ensures
        map_of(entries).contains_key(k) <==> exists|i: int|
            0 <= i < entries.len() && (#[trigger] entries[i]).0 == k,
    decreases entries.len(),
{
    if entries.len() > 0 {
        lemma_map_of_dom(entries.drop_last(), k);
        if entries.last().0 == k {
            assert((entries[entries.len() - 1]).0 == k);
        } else {
            if map_of(entries).contains_key(k) {
                let i = choose|i: int|
                    0 <= i < entries.drop_last().len() && (#[trigger] entries.drop_last()[i]).0
                        == k;
                assert((entries[i]).0 == k);
            }
            if exists|i: int| 0 <= i < entries.len() && (#[trigger] entries[i]).0 == k {
                let i = choose|i: int| 0 <= i < entries.len() && (#[trigger] entries[i]).0 == k;
                assert(i < entries.len() - 1);
                assert((entries.drop_last()[i]).0 == k);
            }
        }
    }
}

proof fn lemma_map_of_get(entries: Seq<(usize, Stat)>, i: int)
    requires
        ids_unique(entries),
        0 <= i < entries.len(),
    ensures
        map_of(entries).contains_key(entries[i].0),
        map_of(entries)[entries[i].0] == entries[i].1,
    decreases entries.len(),
{
    if i < entries.len() - 1 {
        lemma_ids_unique_prefix(entries);
        lemma_map_of_get(entries.drop_last(), i);
        assert(entries.drop_last()[i] == entries[i]);
        assert(entries.last().0 != entries[i].0);
    }
}

proof fn lemma_map_of_update(entries: Seq<(usize, Stat)>, i: int, v: Stat)
    requires
        ids_unique(entries),
        0 <= i < entries.len(),
    ensures
        map_of(entries.update(i, (entries[i].0, v))) == map_of(entries).insert(entries[i].0, v),
        ids_unique(entries.update(i, (entries[i].0, v))),
    decreases entries.len(),
{
    let k = entries[i].0;
    let t = entries.update(i, (k, v));
    assert forall|a: int, b: int| 0 <= a < b < t.len() implies t[a].0 != t[b].0 by {
        assert(t[a].0 == entries[a].0);
        assert(t[b].0 == entries[b].0);
    }
    if i == entries.len() - 1 {
        assert(t.drop_last() =~= entries.drop_last());
        assert(t.last() == (k, v));
        assert(map_of(t) == map_of(entries.drop_last()).insert(k, v));
        assert(map_of(entries).insert(k, v) =~= map_of(entries.drop_last()).insert(k, v));
    } else {
        lemma_ids_unique_prefix(entries);
        assert(entries.drop_last()[i] == entries[i]);
        lemma_map_of_update(entries.drop_last(), i, v);
        assert(t.drop_last() =~= entries.drop_last().update(i, (k, v)));
        assert(t.last() == entries.last());
        let lk = entries.last().0;
        let lv = entries.last().1;
        assert(entries[entries.len() - 1].0 == lk);
        assert(lk != k);
        assert(map_of(t) == map_of(entries.drop_last()).insert(k, v).insert(lk, lv));
        assert(map_of(entries.drop_last()).insert(k, v).insert(lk, lv) =~= map_of(
            entries.drop_last(),
        ).insert(lk, lv).insert(k, v));
    }
}

proof fn lemma_map_of_push(entries: Seq<(usize, Stat)>, k: usize, v: Stat)
    ensures
        map_of(entries.push((k, v))) == map_of(entries).insert(k, v),
{
    assert(entries.push((k, v)).drop_last() =~= entries);
    assert(entries.push((k, v)).last() == (k, v));
}

/// The process-wide running statistics, one entry per configuration id
/// that has recorded at least one outcome.
pub struct Aggregator {
    entries: Vec<(usize, Stat)>,
}

/// An immutable point-in-time copy of the aggregated statistics, handed to
/// the display layer.
pub struct Snapshot {
    pub entries: Vec<(usize, Stat)>,
}

impl View for Aggregator {
    type V = Map<usize, Stat>;

    closed spec fn view(&self) -> Map<usize, Stat> {
        map_of(self.entries@)
    }
}

impl View for Snapshot {
    type V = Map<usize, Stat>;

    closed spec fn view(&self) -> Map<usize, Stat> {
        map_of(self.entries@)
    }
}

impl Aggregator {
    /// Ids are paired at most once, and no total counts more misses than
    /// attempts.
    pub closed spec fn wf(&self) -> bool {
        ids_unique(self.entries@) && forall|i: int|
            0 <= i < self.entries@.len() ==> (#[trigger] self.entries@[i]).1.wf()
    }

    /// The totals currently on record for `id`: zero before its first
    /// outcome.
    pub open spec fn stat_for(&self, id: usize) -> Stat {
        if self@.contains_key(id) {
            self@[id]
        } else {
            Stat::zero()
        }
    }

    /// An aggregator with nothing recorded yet.
    pub fn new() -> (r: Aggregator)
        ensures
            r.wf(),
            r@ == Map::<usize, Stat>::empty(),
    {
        Aggregator { entries: Vec::new() }
    }

    fn find(&self, id: usize) -> (r: Option<usize>)
        ensures
            match r {
                Some(i) => i < self.entries@.len() && self.entries@[i as int].0 == id,
                None => forall|j: int|
                    0 <= j < self.entries@.len() ==> (#[trigger] self.entries@[j]).0 != id,
            },
    {
        let mut i: usize = 0;
        while i < self.entries.len()
            invariant
                i <= self.entries@.len(),
                forall|j: int| 0 <= j < i ==> (#[trigger] self.entries@[j]).0 != id,
            decreases self.entries@.len() - i,
        {
            if self.entries[i].0 == id {
                return Some(i);
            }
            i = i + 1;
        }
        None
    }

    /// Records one outcome for `id`: zero totals are created on the first
    /// outcome for the id; `sent` grows by one unconditionally and `missed`
    /// exactly when the outcome is Missed. No entry is removed or reset.
    pub fn record(&mut self, id: usize, outcome: Outcome)
        requires
            old(self).wf(),
            old(self).stat_for(id).sent < usize::MAX,
        ensures
            final(self).wf(),
            final(self)@ == old(self)@.insert(id, old(self).stat_for(id).recorded(outcome)),
    {
        let is_missed = outcome == Outcome::Missed;
        match self.find(id) {
            Some(i) => {
                proof {
                    lemma_map_of_get(self.entries@, i as int);
                }
                let cur = self.entries[i].1;
                let updated = Stat {
                    sent: cur.sent + 1,
                    missed: if is_missed {
                        cur.missed + 1
                    } else {
                        cur.missed
                    },
                };
                proof {
                    lemma_map_of_update(self.entries@, i as int, updated);
                }
                self.entries[i] = (id, updated);
                assert forall|j: int|
                    0 <= j < self.entries@.len() implies (#[trigger] self.entries@[j]).1.wf() by {
                    if j != i {
                        assert(self.entries@[j] == old(self).entries@[j]);
                    }
                }
            },
            None => {
                proof {
                    lemma_map_of_dom(self.entries@, id);
                    lemma_map_of_push(
                        self.entries@,
                        id,
                        Stat {
                            sent: 1,
                            missed: if is_missed {
                                1
                            } else {
                                0
                            },
                        },
                    );
                }
                let first = Stat {
                    sent: 1,
                    missed: if is_missed {
                        1
                    } else {
                        0
                    },
                };
                self.entries.push((id, first));
                assert forall|a: int, b: int|
                    0 <= a < b < self.entries@.len() implies (#[trigger] self.entries@[a]).0 != (
                #[trigger] self.entries@[b]).0 by {
                    if b < self.entries@.len() - 1 {
                        assert(self.entries@[a] == old(self).entries@[a]);
                        assert(self.entries@[b] == old(self).entries@[b]);
                    } else {
                        assert(self.entries@[a] == old(self).entries@[a]);
                    }
                }
                assert forall|j: int|
                    0 <= j < self.entries@.len() implies (#[trigger] self.entries@[j]).1.wf() by {
                    if j < self.entries@.len() - 1 {
                        assert(self.entries@[j] == old(self).entries@[j]);
                    }
                }
            },
        }
    }

    /// Records a whole run of outcomes for `id`, in order, as the driver
    /// does while a probe runs to completion.
    pub fn record_all(&mut self, id: usize, outcomes: &Vec<Outcome>)
        requires
            old(self).wf(),
            old(self).stat_for(id).sent + outcomes@.len() <= usize::MAX,
        ensures
            final(self).wf(),
            outcomes@.len() == 0 ==> final(self)@ == old(self)@,
            outcomes@.len() > 0 ==> final(self)@ == old(self)@.insert(
                id,
                recorded_all(old(self).stat_for(id), outcomes@),
            ),
    {
        proof {
            if self@.contains_key(id) {
                lemma_aggregator_bounded(self, id);
            }
        }
        let ghost base_map = self@;
        let ghost base = self.stat_for(id);
        let mut i: usize = 0;
        while i < outcomes.len()
            invariant
                self.wf(),
                i <= outcomes@.len(),
                base.sent + outcomes@.len() <= usize::MAX,
                base.missed <= base.sent,
                base == (if base_map.contains_key(id) {
                    base_map[id]
                } else {
                    Stat::zero()
                }),
                i == 0 ==> self@ == base_map,
                i > 0 ==> self@ == base_map.insert(
                    id,
                    recorded_all(base, outcomes@.subrange(0, i as int)),
                ),
            decreases outcomes@.len() - i,
        {
            let ghost pre = outcomes@.subrange(0, i as int);
            proof {
                lemma_count_missed_le_len(pre);
                if i > 0 {
                    assert(self@.contains_key(id));
                    assert(self.stat_for(id) == recorded_all(base, pre));
                    assert(recorded_all(base, pre).sent == base.sent + i);
                } else {
                    assert(self.stat_for(id) == base);
                }
            }
            self.record(id, outcomes[i]);
            proof {
                let post = outcomes@.subrange(0, i + 1);
                assert(post.drop_last() =~= pre);
                assert(post.last() == outcomes@[i as int]);
                assert(count_missed(post) == count_missed(pre) + if outcomes@[i as int]
                    is Missed {
                    1nat
                } else {
                    0nat
                });
                if i > 0 {
                    let x = recorded_all(base, pre).recorded(outcomes@[i as int]);
                    assert(x.sent == base.sent + i + 1);
                    assert(x.missed == base.missed + count_missed(post));
                    assert(x == recorded_all(base, post));
                    assert(base_map.insert(id, recorded_all(base, pre)).insert(id, x)
                        =~= base_map.insert(id, recorded_all(base, post)));
                } else {
                    assert(pre =~= Seq::<Outcome>::empty());
                    assert(recorded_all(base, post) == base.recorded(outcomes@[i as int]));
                }
            }
            i = i + 1;
        }
        proof {
            if outcomes@.len() > 0 {
                assert(outcomes@.subrange(0, outcomes@.len() as int) =~= outcomes@);
            }
        }
    }

    /// Copies the full mapping for the display layer: the live state is
    /// never handed out.
    pub fn snapshot(&self) -> (s: Snapshot)
        requires
            self.wf(),
        ensures
            s.wf(),
            s@ == self@,
    {
        let mut out: Vec<(usize, Stat)> = Vec::new();
        let mut i: usize = 0;
        while i < self.entries.len()
            invariant
                i <= self.entries@.len(),
                out@ == self.entries@.subrange(0, i as int),
            decreases self.entries@.len() - i,
        {
            out.push(self.entries[i]);
            proof {
                assert(out@ =~= self.entries@.subrange(0, i + 1));
            }
            i = i + 1;
        }
        proof {
            assert(out@ =~= self.entries@);
        }
        Snapshot { entries: out }
    }
}

impl Snapshot {
    /// Ids are paired at most once, and no total counts more misses than
    /// attempts.
    pub closed spec fn wf(&self) -> bool {
        ids_unique(self.entries@) && forall|i: int|
            0 <= i < self.entries@.len() ==> (#[trigger] self.entries@[i]).1.wf()
    }

    /// The totals the snapshot holds for `id`, if any outcome had been
    /// recorded for it when the snapshot was taken.
    pub fn get(&self, id: usize) -> (r: Option<Stat>)
        requires
            self.wf(),
        ensures
            r == (if self@.contains_key(id) {
                Some(self@[id])
            } else {
                None::<Stat>
            }),
    {
        let mut i: usize = 0;
        while i < self.entries.len()
            invariant
                i <= self.entries@.len(),
                forall|j: int| 0 <= j < i ==> (#[trigger] self.entries@[j]).0 != id,
                self.wf(),
            decreases self.entries@.len() - i,
        {
            if self.entries[i].0 == id {
                proof {
                    lemma_map_of_get(self.entries@, i as int);
                }
                return Some(self.entries[i].1);
            }
            i = i + 1;
        }
        proof {
            lemma_map_of_dom(self.entries@, id);
        }
        None
    }
}

/// Law: a run never records more misses than it has outcomes.
pub proof fn lemma_count_missed_le_len(outcomes: Seq<Outcome>)
    ensures
        count_missed(outcomes) <= outcomes.len(),
    decreases outcomes.len(),
{
    if outcomes.len() > 0 {
        lemma_count_missed_le_len(outcomes.drop_last());
    }
}

/// Law: after a full run of outcomes is recorded for a configuration id
/// starting from zero totals, `sent` equals the run's length, `missed`
/// counts exactly the Missed outcomes, and `missed` never exceeds `sent`.
pub proof fn lemma_full_run_totals(outcomes: Seq<Outcome>)
    requires
        outcomes.len() <= usize::MAX,
    ensures
        recorded_all(Stat::zero(), outcomes).sent == outcomes.len(),
        recorded_all(Stat::zero(), outcomes).missed == count_missed(outcomes),
        recorded_all(Stat::zero(), outcomes).wf(),
{
    lemma_count_missed_le_len(outcomes);
}

/// Law: a run in which every outcome is Delivered records zero misses.
pub proof fn lemma_all_delivered_zero_missed(outcomes: Seq<Outcome>)
    requires
        forall|i: int| 0 <= i < outcomes.len() ==> outcomes[i] is Delivered,
    ensures
        count_missed(outcomes) == 0,
    decreases outcomes.len(),
{
    if outcomes.len() > 0 {
        lemma_all_delivered_zero_missed(outcomes.drop_last());
    }
}

/// Law: a run in which every outcome is Missed records a miss for each
/// round trip.
pub proof fn lemma_all_missed(outcomes: Seq<Outcome>)
    requires
        forall|i: int| 0 <= i < outcomes.len() ==> outcomes[i] is Missed,
    ensures
        count_missed(outcomes) == outcomes.len(),
    decreases outcomes.len(),
{
    if outcomes.len() > 0 {
        lemma_all_missed(outcomes.drop_last());
    }
}

/// Law: recording an outcome for one configuration id leaves every other
/// id's totals untouched, so interleaved updates for different ids are
/// independent and a snapshot taken between them shows each id either
/// before or after its own update, never a mixture.
pub proof fn lemma_record_isolated(m: Map<usize, Stat>, id: usize, s: Stat, other: usize)
    requires
        other != id,
    ensures
        m.insert(id, s).contains_key(other) == m.contains_key(other),
        m.contains_key(other) ==> m.insert(id, s)[other] == m[other],
{
}

/// Law: every id a well-formed aggregator holds shows `missed <= sent`.
pub proof fn lemma_aggregator_bounded(agg: &Aggregator, id: usize)
    requires
        agg.wf(),
        agg@.contains_key(id),
    ensures
        agg@[id].missed <= agg@[id].sent,
{
    lemma_map_of_dom(agg.entries@, id);
    let i = choose|i: int| 0 <= i < agg.entries@.len() && (#[trigger] agg.entries@[i]).0 == id;
    lemma_map_of_get(agg.entries@, i);
}

/// Law: every id a well-formed snapshot holds shows `missed <= sent`.
pub proof fn lemma_snapshot_bounded(s: &Snapshot, id: usize)
    requires
        s.wf(),
        s@.contains_key(id),
    ensures
        s@[id].missed <= s@[id].sent,
{
    lemma_map_of_dom(s.entries@, id);
    let i = choose|i: int| 0 <= i < s.entries@.len() && (#[trigger] s.entries@[i]).0 == id;
    lemma_map_of_get(s.entries@, i);
}

} // verus!
