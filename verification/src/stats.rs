//! Cumulative statistics for a single play session.

use vstd::prelude::*;

verus! {

/// Sum of a sequence of counters.
pub open spec fn sum_counts(counts: Seq<u32>) -> nat
    decreases counts.len(),
{
    if counts.len() == 0 {
        0
    } else {
        sum_counts(counts.drop_last()) + counts.last() as nat
    }
}

/// Kill counters keyed by blueprint name. A new enemy type adds a new
/// entry; names are never listed twice.
pub struct KillCounts {
    names: Vec<String>,
    counts: Vec<u32>,
}

impl KillCounts {
    /// Names and counters line up, and no name is listed twice.
    pub closed spec fn wf(&self) -> bool {
        &&& self.names@.len() == self.counts@.len()
        &&& forall|i: int, j: int|
            0 <= i < self.names@.len() && 0 <= j < self.names@.len() && i != j ==> self.names@[i]@
                != self.names@[j]@
    }

    /// Whether some entry is called `name`.
    pub closed spec fn has(&self, name: Seq<char>) -> bool {
        exists|i: int| 0 <= i < self.names@.len() && self.names@[i]@ == name
    }

    /// Kills recorded for `name` (0 for a name never recorded).
    pub closed spec fn count(&self, name: Seq<char>) -> nat {
        if self.has(name) {
            self.counts@[choose|i: int| 0 <= i < self.names@.len() && self.names@[i]@ == name] as nat
        } else {
            0
        }
    }

    /// Kills recorded over all names.
    pub closed spec fn total(&self) -> nat {
        sum_counts(self.counts@)
    }

    /// No kills recorded.
    pub fn new() -> (k: KillCounts)
        ensures
            k.wf(),
            forall|name: Seq<char>| #[trigger] k.count(name) == 0,
            k.total() == 0,
    {
        KillCounts { names: Vec::new(), counts: Vec::new() }
    }

    /// Kills recorded for `name`.
    pub fn get(&self, name: &str) -> (n: u32)
        requires
            self.wf(),
        ensures
            n == self.count(name@),
    {
        match self.index_of(name) {
            Some(i) => self.counts[i],
            None => 0,
        }
    }

    fn index_of(&self, name: &str) -> (r: Option<usize>)
        requires
            self.wf(),
        ensures
            r is None <==> !self.has(name@),
            r matches Some(i) ==> i < self.names@.len() && self.names@[i as int]@ == name@
                && self.count(name@) == self.counts@[i as int],
    {
        let wanted: String = name.to_owned();
        let mut i: usize = 0;
        while i < self.names.len()
            invariant
                self.wf(),
                wanted@ == name@,
                i <= self.names@.len(),
                forall|j: int| 0 <= j < i ==> (#[trigger] self.names@[j])@ != name@,
            decreases self.names@.len() - i,
        {
            if self.names[i] == wanted {
                proof {
                    let k = choose|k: int| 0 <= k < self.names@.len() && self.names@[k]@ == name@;
                    assert(k == i);
                }
                return Some(i);
            }
            i = i + 1;
        }
        None
    }

    /// Add one kill for `name`; every other name keeps its count.
    pub fn record(&mut self, name: &str)
        requires
            old(self).wf(),
            old(self).count(name@) < u32::MAX,
        ensures
            final(self).wf(),
            final(self).count(name@) == old(self).count(name@) + 1,
            forall|other: Seq<char>|
                other != name@ ==> #[trigger] final(self).count(other) == old(self).count(other),
            final(self).total() == old(self).total() + 1,
    {
        let ghost old_self = *self;
        match self.index_of(name) {
            Some(i) => {
                let bumped = self.counts[i] + 1;
                let ghost old_counts = self.counts@;
                self.counts.set(i, bumped);
                proof {
                    lemma_sum_update(old_counts, i as int, bumped);
                    assert forall|other: Seq<char>| #[trigger] self.has(other) == old_self.has(other) by {
                        if old_self.has(other) {
                            let k = choose|k: int|
                                0 <= k < old_self.names@.len() && old_self.names@[k]@ == other;
                            assert(self.names@[k]@ == other);
                        }
                    }
                    assert forall|other: Seq<char>| other != name@ implies #[trigger] self.count(other)
                        == old_self.count(other) by {
                        if self.has(other) {
                            let k = choose|k: int|
                                0 <= k < self.names@.len() && self.names@[k]@ == other;
                            assert(k != i);
                        }
                    }
                    let k = choose|k: int| 0 <= k < self.names@.len() && self.names@[k]@ == name@;
                    assert(k == i);
                }
            },
            None => {
                let ghost old_counts = self.counts@;
                self.names.push(name.to_owned());
                self.counts.push(1);
                proof {
                    assert(self.counts@.drop_last() =~= old_counts);
                    let n = self.names@.len() - 1;
                    assert(self.names@[n]@ == name@);
                    assert forall|other: Seq<char>| other != name@ implies #[trigger] self.count(other)
                        == old_self.count(other) by {
                        if self.has(other) {
                            let k = choose|k: int|
                                0 <= k < self.names@.len() && self.names@[k]@ == other;
                            assert(k != n);
                            assert(old_self.names@[k]@ == other);
                            assert(old_self.has(other));
                            let k2 = choose|k2: int|
                                0 <= k2 < old_self.names@.len() && old_self.names@[k2]@ == other;
                            assert(self.names@[k2]@ == other);
                        } else {
                            if old_self.has(other) {
                                let k2 = choose|k2: int|
                                    0 <= k2 < old_self.names@.len() && old_self.names@[k2]@ == other;
                                assert(self.names@[k2]@ == other);
                            }
                        }
                    }
                    assert(self.has(name@));
                    let k = choose|k: int| 0 <= k < self.names@.len() && self.names@[k]@ == name@;
                    assert(k == n);
                }
            },
        }
    }

    /// Kills over every enemy type.
    pub fn total_count(&self) -> (n: u32)
        requires
            self.wf(),
            self.total() <= u32::MAX,
        ensures
            n == self.total(),
    {
        let mut sum: u32 = 0;
        let mut i: usize = 0;
        while i < self.counts.len()
            invariant
                i <= self.counts@.len(),
                sum == sum_counts(self.counts@.take(i as int)),
                sum_counts(self.counts@) <= u32::MAX,
            decreases self.counts@.len() - i,
        {
            proof {
                assert(self.counts@.take(i + 1).drop_last() =~= self.counts@.take(i as int));
                lemma_sum_prefix_le(self.counts@, i + 1);
            }
            sum = sum + self.counts[i];
            i = i + 1;
        }
        assert(self.counts@.take(i as int) =~= self.counts@);
        sum
    }
}

impl KillCounts {
    /// Kills over every enemy type, or `None` when that total does not fit
    /// in a `u32`.
    pub fn checked_total(&self) -> (n: Option<u32>)
        requires
            self.wf(),
        ensures
            n == (if self.total() <= u32::MAX {
                Some(self.total() as u32)
            } else {
                None::<u32>
            }),
    {
        let mut sum: u32 = 0;
        let mut i: usize = 0;
        while i < self.counts.len()
            invariant
                i <= self.counts@.len(),
                sum == sum_counts(self.counts@.take(i as int)),
            decreases self.counts@.len() - i,
        {
            proof {
                assert(self.counts@.take(i + 1).drop_last() =~= self.counts@.take(i as int));
            }
            match sum.checked_add(self.counts[i]) {
                Some(next) => {
                    sum = next;
                },
                None => {
                    proof {
                        lemma_sum_prefix_le(self.counts@, i + 1);
                    }
                    return None;
                },
            }
            i = i + 1;
        }
        assert(self.counts@.take(i as int) =~= self.counts@);
        Some(sum)
    }
}

/// The sum of a prefix never exceeds the sum of the whole sequence.
proof fn lemma_sum_prefix_le(s: Seq<u32>, n: int)
    requires
        0 <= n <= s.len(),
    ensures
        sum_counts(s.take(n)) <= sum_counts(s),
    decreases s.len(),
{
    if n < s.len() {
        lemma_sum_prefix_le(s.drop_last(), n);
        assert(s.drop_last().take(n) =~= s.take(n));
    } else {
        assert(s.take(n) =~= s);
    }
}

/// Replacing one counter changes the sum by the difference.
proof fn lemma_sum_update(s: Seq<u32>, i: int, v: u32)
    requires
        0 <= i < s.len(),
    ensures
        sum_counts(s.update(i, v)) + s[i] == sum_counts(s) + v,
    decreases s.len(),
{
    let u = s.update(i, v);
    if i == s.len() - 1 {
        assert(u.drop_last() =~= s.drop_last());
    } else {
        lemma_sum_update(s.drop_last(), i, v);
        assert(u.drop_last() =~= s.drop_last().update(i, v));
    }
}

/// Counters of one play session. The elapsed-time part of a run is kept by
/// the application, next to this record.
pub struct RunStats {
    /// Per-blueprint kill counts, keyed by blueprint name.
    pub kills: KillCounts,
    pub scrap_collected: u32,
    pub scrap_spent: u32,
    pub towers_placed: u32,
    pub towers_sold: u32,
}

impl RunStats {
    /// A fresh record with every counter zeroed.
    pub fn new() -> (s: RunStats)
        ensures
            s.kills.wf(),
            forall|name: Seq<char>| #[trigger] s.kills.count(name) == 0,
            s.kills.total() == 0,
            s.scrap_collected == 0,
            s.scrap_spent == 0,
            s.towers_placed == 0,
            s.towers_sold == 0,
    {
        RunStats {
            kills: KillCounts::new(),
            scrap_collected: 0,
            scrap_spent: 0,
            towers_placed: 0,
            towers_sold: 0,
        }
    }

    /// Increment the kill counter for the given blueprint name.
    pub fn record_kill(&mut self, blueprint_name: &str)
        requires
            old(self).kills.wf(),
            old(self).kills.count(blueprint_name@) < u32::MAX,
        ensures
            final(self).kills.wf(),
            final(self).kills.count(blueprint_name@) == old(self).kills.count(blueprint_name@) + 1,
            forall|other: Seq<char>|
                other != blueprint_name@ ==> #[trigger] final(self).kills.count(other) == old(
                    self,
                ).kills.count(other),
            final(self).kills.total() == old(self).kills.total() + 1,
            final(self).scrap_collected == old(self).scrap_collected,
            final(self).scrap_spent == old(self).scrap_spent,
            final(self).towers_placed == old(self).towers_placed,
            final(self).towers_sold == old(self).towers_sold,
    {
        self.kills.record(blueprint_name);
    }

    /// Total kills across every enemy type.
    pub fn total_kills(&self) -> (n: u32)
        requires
            self.kills.wf(),
            self.kills.total() <= u32::MAX,
        ensures
            n == self.kills.total(),
    {
        self.kills.total_count()
    }

    /// Total kills, or `None` when the total does not fit in a `u32`.
    pub fn checked_total_kills(&self) -> (n: Option<u32>)
        requires
            self.kills.wf(),
        ensures
            n == (if self.kills.total() <= u32::MAX {
                Some(self.kills.total() as u32)
            } else {
                None::<u32>
            }),
    {
        self.kills.checked_total()
    }

    /// Kills recorded for one blueprint name (0 if none).
    pub fn kills_of(&self, blueprint_name: &str) -> (n: u32)
        requires
            self.kills.wf(),
        ensures
            n == self.kills.count(blueprint_name@),
    {
        self.kills.get(blueprint_name)
    }
}

} // verus!
