//! The counter-rate tracker: keeps, per counter name, the cumulative values
//! observed at the previous sampling tick, and turns the current observation
//! into a utilization percentage or a throughput rate.

use vstd::prelude::*;
use crate::text::str_eq;

verus! {

/// The values recorded for a counter name at its previous observation.
#[derive(Clone, Copy, PartialEq, Eq, Structural, Debug)]
pub struct Baseline {
    /// Cumulative primary counter (total ticks, or total bytes).
    pub total: u64,
    /// Cumulative secondary counter (idle ticks; unused for throughput).
    pub secondary: u64,
    /// The instant the observation was made, in milliseconds.
    pub instant_ms: u64,
}

/// What one observation of a counter yields.
#[derive(Clone, Copy, PartialEq, Eq, Structural, Debug)]
pub enum RateOutcome {
    /// First observation of this counter name: a baseline exists now, but no
    /// rate can be reported yet.
    First,
    /// No time has passed at the counter's granularity; no rate this tick.
    NoElapsed,
    /// The observation is inconsistent with the baseline (a cumulative
    /// counter moved backwards, idle outran total, or the rate does not fit):
    /// upstream data is malformed.
    Malformed,
    /// The computed rate.
    Rate(u64),
}

impl DeepView for RateOutcome {
    type V = RateOutcome;

    open spec fn deep_view(&self) -> RateOutcome {
        *self
    }
}

/// Utilization percentage obtained by comparing an observation against the
/// baseline: `100 - (idle_delta * 100) / total_delta`.
pub open spec fn utilization_of(prev: Baseline, total: u64, idle: u64) -> RateOutcome {
    if total < prev.total || idle < prev.secondary {
        RateOutcome::Malformed
    } else if total == prev.total {
        RateOutcome::NoElapsed
    } else if idle - prev.secondary > total - prev.total {
        RateOutcome::Malformed
    } else {
        RateOutcome::Rate((100 - ((idle - prev.secondary) * 100) / (total - prev.total)) as u64)
    }
}

/// Throughput in bytes per second obtained by comparing an observation
/// against the baseline: `byte_delta * 1000 / elapsed_milliseconds`.
pub open spec fn throughput_of(prev: Baseline, total: u64, now_ms: u64) -> RateOutcome {
    if total < prev.total || now_ms < prev.instant_ms {
        RateOutcome::Malformed
    } else if now_ms == prev.instant_ms {
        RateOutcome::NoElapsed
    } else if ((total - prev.total) * 1000) / (now_ms - prev.instant_ms) > u64::MAX {
        RateOutcome::Malformed
    } else {
        RateOutcome::Rate((((total - prev.total) * 1000) / (now_ms - prev.instant_ms)) as u64)
    }
}

/// The mapping described by a sequence of name/baseline pairs; a later pair
/// overrides an earlier one with the same name.
pub open spec fn bmap_of(s: Seq<(String, Baseline)>) -> Map<Seq<char>, Baseline>
    decreases s.len(),
{
    if s.len() == 0 {
        Map::empty()
    } else {
        bmap_of(s.drop_last()).insert(s.last().0@, s.last().1)
    }
}

/// Name/baseline pair sequences whose names never repeat.
pub open spec fn names_unique(s: Seq<(String, Baseline)>) -> bool {
    forall|i: int, j: int| 0 <= i < j < s.len() ==> (#[trigger] s[i]).0@ != (#[trigger] s[j]).0@
}

proof fn lemma_bmap_of_dom(s: Seq<(String, Baseline)>, k: Seq<char>)
    ensures
        bmap_of(s).dom().contains(k) <==> exists|i: int|
            0 <= i < s.len() && (#[trigger] s[i]).0@ == k,
    decreases s.len(),
{
    if s.len() > 0 {
        lemma_bmap_of_dom(s.drop_last(), k);
        if s.last().0@ == k {
            assert(s[s.len() - 1].0@ == k);
        } else if bmap_of(s).dom().contains(k) {
            let i = choose|i: int| 0 <= i < s.len() - 1 && (#[trigger] s.drop_last()[i]).0@ == k;
            assert(s[i].0@ == k);
        } else {
            assert(forall|i: int| 0 <= i < s.len() - 1 ==> (#[trigger] s[i]) == s.drop_last()[i]);
        }
    }
}

proof fn lemma_bmap_of_found(s: Seq<(String, Baseline)>, k: Seq<char>, i: int)
    requires
        0 <= i < s.len(),
        s[i].0@ == k,
        forall|j: int| i < j < s.len() ==> (#[trigger] s[j]).0@ != k,
    ensures
        bmap_of(s).dom().contains(k),
        bmap_of(s)[k] == s[i].1,
    decreases s.len(),
{
    if i < s.len() - 1 {
        assert(forall|j: int| i < j < s.len() - 1 ==> (#[trigger] s.drop_last()[j]) == s[j]);
        lemma_bmap_of_found(s.drop_last(), k, i);
    }
}

proof fn lemma_bmap_of_update(s: Seq<(String, Baseline)>, i: int, p: (String, Baseline))
    requires
        names_unique(s),
        0 <= i < s.len(),
        p.0@ == s[i].0@,
    ensures
        bmap_of(s.update(i, p)) == bmap_of(s).insert(p.0@, p.1),
    decreases s.len(),
{
    if i == s.len() - 1 {
        assert(s.update(i, p).drop_last() =~= s.drop_last());
        assert(bmap_of(s.update(i, p)) =~= bmap_of(s).insert(p.0@, p.1));
    } else {
        assert(forall|j: int| 0 <= j < s.len() - 1 ==> (#[trigger] s.drop_last()[j]) == s[j]);
        lemma_bmap_of_update(s.drop_last(), i, p);
        assert(s.update(i, p).drop_last() =~= s.drop_last().update(i, p));
        assert(s.update(i, p).last() == s.last());
        assert(s[i].0@ != s.last().0@);
        assert(bmap_of(s.update(i, p)) =~= bmap_of(s).insert(p.0@, p.1));
    }
}

/// Keeps one baseline per counter name across sampling ticks.
pub struct RateTracker {
    entries: Vec<(String, Baseline)>,
}

impl View for RateTracker {
    type V = Map<Seq<char>, Baseline>;

    closed spec fn view(&self) -> Map<Seq<char>, Baseline> {
        bmap_of(self.entries@)
    }
}

impl RateTracker {
    /// The stored names are pairwise distinct, so an in-place overwrite of a
    /// name's baseline is the mapping's update at that name.
    pub closed spec fn wf(&self) -> bool {
        names_unique(self.entries@)
    }

    /// A tracker with no baseline recorded yet.
    pub fn new() -> (r: RateTracker)
        ensures
            r.wf(),
            r@ == Map::<Seq<char>, Baseline>::empty(),
    {
        RateTracker { entries: Vec::new() }
    }

    /// Records the observation as the name's new baseline and hands back the
    /// previous baseline, if one existed.
    pub fn observe(&mut self, name: &str, total: u64, secondary: u64, now_ms: u64) -> (r: Option<
        Baseline,
    >)
        requires
            old(self).wf(),
        ensures
            final(self).wf(),
            final(self)@ == old(self)@.insert(
                name@,
                Baseline { total, secondary, instant_ms: now_ms },
            ),
            r == if old(self)@.dom().contains(name@) {
                Some(old(self)@[name@])
            } else {
                None::<Baseline>
            },
    {
        let n = self.entries.len();
        let mut i: usize = 0;
        while i < n
            invariant
                0 <= i <= n,
                self == old(self),
                n == self.entries@.len(),
                names_unique(self.entries@),
                forall|j: int| 0 <= j < i ==> (#[trigger] self.entries@[j]).0@ != name@,
            decreases n - i,
        {
            if str_eq(self.entries[i].0.as_str(), name) {
                let prev = self.entries[i].1;
                proof {
                    assert(self.entries@[i as int].0@ == name@);
                    assert forall|j: int|
                        i < j < self.entries@.len() implies (#[trigger] self.entries@[j]).0@
                            != name@ by {
                        assert(self.entries@[i as int].0@ == name@);
                    }
                    lemma_bmap_of_found(self.entries@, name@, i as int);
                }
                let pair = (name.to_owned(), Baseline { total, secondary, instant_ms: now_ms });
                proof {
                    lemma_bmap_of_update(self.entries@, i as int, pair);
                    assert(names_unique(self.entries@.update(i as int, pair)));
                }
                self.entries[i] = pair;
                return Some(prev);
            }
            i += 1;
        }
        proof {
            lemma_bmap_of_dom(self.entries@, name@);
        }
        let pair = (name.to_owned(), Baseline { total, secondary, instant_ms: now_ms });
        proof {
            assert(self.entries@.push(pair).drop_last() =~= self.entries@);
            assert(names_unique(self.entries@.push(pair)));
        }
        self.entries.push(pair);
        None
    }

    /// Records the observation of a cumulative tick counter and reports the
    /// utilization percentage since the previous observation of this name.
    pub fn update_utilization(&mut self, name: &str, total: u64, idle: u64, now_ms: u64) -> (r:
        RateOutcome)
        requires
            old(self).wf(),
        ensures
            final(self).wf(),
            final(self)@ == old(self)@.insert(
                name@,
                Baseline { total, secondary: idle, instant_ms: now_ms },
            ),
            r == if old(self)@.dom().contains(name@) {
                utilization_of(old(self)@[name@], total, idle)
            } else {
                RateOutcome::First
            },
    {
        match self.observe(name, total, idle, now_ms) {
            None => RateOutcome::First,
            Some(prev) => {
                if total < prev.total || idle < prev.secondary {
                    RateOutcome::Malformed
                } else if total == prev.total {
                    RateOutcome::NoElapsed
                } else {
                    let total_delta = total - prev.total;
                    let idle_delta = idle - prev.secondary;
                    if idle_delta > total_delta {
                        RateOutcome::Malformed
                    } else {
                        let pct = ((idle_delta as u128 * 100) / (total_delta as u128)) as u64;
                        proof {
                            assert((idle_delta as int * 100) / (total_delta as int) <= 100)
                                by (nonlinear_arith)
                                requires
                                    0 < total_delta,
                                    idle_delta <= total_delta,
                            ;
                        }
                        RateOutcome::Rate(100 - pct)
                    }
                }
            },
        }
    }

    /// Records the observation of a cumulative byte counter and reports the
    /// throughput in bytes per second since the previous observation of this
    /// name, over the wall-clock time between the two observations.
    pub fn update_throughput(&mut self, name: &str, total: u64, now_ms: u64) -> (r: RateOutcome)
        requires
            old(self).wf(),
        ensures
            final(self).wf(),
            final(self)@ == old(self)@.insert(
                name@,
                Baseline { total, secondary: total, instant_ms: now_ms },
            ),
            r == if old(self)@.dom().contains(name@) {
                throughput_of(old(self)@[name@], total, now_ms)
            } else {
                RateOutcome::First
            },
    {
        match self.observe(name, total, total, now_ms) {
            None => RateOutcome::First,
            Some(prev) => {
                if total < prev.total || now_ms < prev.instant_ms {
                    RateOutcome::Malformed
                } else if now_ms == prev.instant_ms {
                    RateOutcome::NoElapsed
                } else {
                    let delta = total - prev.total;
                    let elapsed = now_ms - prev.instant_ms;
                    let rate = (delta as u128 * 1000) / (elapsed as u128);
                    if rate > u64::MAX as u128 {
                        RateOutcome::Malformed
                    } else {
                        RateOutcome::Rate(rate as u64)
                    }
                }
            },
        }
    }
}

/// The first observation of a counter name yields no rate and establishes
/// the baseline; a second, consistent observation of the same name yields
/// exactly the rate the formulas give.
pub proof fn lemma_first_then_rate(
    m: Map<Seq<char>, Baseline>,
    name: Seq<char>,
    t1: u64,
    s1: u64,
    n1: u64,
    t2: u64,
    s2: u64,
    n2: u64,
)
    requires
        !m.dom().contains(name),
        t1 < t2,
        s1 <= s2,
        s2 - s1 <= t2 - t1,
        n1 < n2,
    ensures
        ({
            let m1 = m.insert(name, Baseline { total: t1, secondary: s1, instant_ms: n1 });
            &&& m1.dom().contains(name)
            &&& utilization_of(m1[name], t2, s2) == RateOutcome::Rate(
                (100 - ((s2 - s1) * 100) / (t2 - t1)) as u64,
            )
            &&& (((t2 - t1) * 1000) / (n2 - n1) <= u64::MAX ==> throughput_of(
                Baseline { total: t1, secondary: t1, instant_ms: n1 },
                t2,
                n2,
            ) == RateOutcome::Rate((((t2 - t1) * 1000) / (n2 - n1)) as u64))
        }),
{
}

} // verus!
