use std::sync::Arc;

use vstd::prelude::*;
use vstd::rwlock::{RwLock, RwLockPredicate, WriteHandle};

use crate::keyed::{
    has_key, keyed_map, keys_unique, lemma_keyed_at, lemma_keyed_empty, lemma_keyed_push,
    lemma_keyed_remove, lemma_keyed_update,
};
use crate::histogram::{
    law_percentile_monotone, law_percentile_within_range, lemma_min_max, max_of, min_of,
    percentile_of, saturate, seq_max, seq_min, seq_total, FastHistogram,
};
use crate::quantile::Quantile;

verus! {

/// The least value a registry keeps by default: 1 ns.
pub const DEFAULT_LOWEST: u64 = 1;

/// The greatest value a registry keeps by default: one hour in ns.
pub const DEFAULT_HIGHEST: u64 = 3_600_000_000_000;

/// The statistics of one metric at the time of a snapshot. A metric with
/// no samples has every field zero.
#[derive(Clone, Copy, Debug, PartialEq, Eq, Structural)]
pub struct WatchStats {
    pub count: u64,
    pub min: u64,
    pub max: u64,
    pub p50: u64,
    pub p90: u64,
    pub p95: u64,
    pub p99: u64,
    pub p999: u64,
    /// The sum of the samples, saturated at `u64::MAX`.
    pub sum: u64,
}

/// The statistics of the samples `s`.
pub open spec fn stats_of_samples(s: Seq<u64>) -> WatchStats {
    if s.len() == 0 {
        WatchStats { count: 0, min: 0, max: 0, p50: 0, p90: 0, p95: 0, p99: 0, p999: 0, sum: 0 }
    } else {
        WatchStats {
            count: s.len() as u64,
            min: min_of(s).unwrap(),
            max: max_of(s).unwrap(),
            p50: percentile_of(s, (50nat, 100nat)).unwrap(),
            p90: percentile_of(s, (90nat, 100nat)).unwrap(),
            p95: percentile_of(s, (95nat, 100nat)).unwrap(),
            p99: percentile_of(s, (99nat, 100nat)).unwrap(),
            p999: percentile_of(s, (999nat, 1000nat)).unwrap(),
            sum: saturate(seq_total(s)),
        }
    }
}

/// The statistics of a snapshot are in order:
/// `min <= p50 <= p90 <= p95 <= p99 <= p999 <= max`.
pub proof fn law_stats_ordered(s: Seq<u64>)
    ensures
        ({
            let st = stats_of_samples(s);
            st.min <= st.p50 <= st.p90 <= st.p95 <= st.p99 <= st.p999 <= st.max
        }),
{
    if s.len() > 0 {
        law_percentile_within_range(s, (50nat, 100nat));
        law_percentile_within_range(s, (999nat, 1000nat));
        law_percentile_monotone(s, (50nat, 100nat), (90nat, 100nat));
        law_percentile_monotone(s, (90nat, 100nat), (95nat, 100nat));
        law_percentile_monotone(s, (95nat, 100nat), (99nat, 100nat));
        law_percentile_monotone(s, (99nat, 100nat), (999nat, 1000nat));
        assert(seq_min(s) <= seq_max(s));
    }
}

impl WatchStats {
    /// The statistics of a histogram.
    pub fn of(h: &FastHistogram) -> (r: WatchStats)
        requires
            h.wf(),
        ensures
            r == stats_of_samples(h@),
    {
        let count = h.count();
        if count == 0 {
            return WatchStats {
                count: 0,
                min: 0,
                max: 0,
                p50: 0,
                p90: 0,
                p95: 0,
                p99: 0,
                p999: 0,
                sum: 0,
            };
        }
        let min = h.min().unwrap();
        let max = h.max().unwrap();
        let p50 = h.percentile(Quantile::new(50, 100)).unwrap();
        let p90 = h.percentile(Quantile::new(90, 100)).unwrap();
        let p95 = h.percentile(Quantile::new(95, 100)).unwrap();
        let p99 = h.percentile(Quantile::new(99, 100)).unwrap();
        let p999 = h.percentile(Quantile::new(999, 1000)).unwrap();
        WatchStats { count, min, max, p50, p90, p95, p99, p999, sum: h.sum() }
    }

    /// The mean of the samples in whole nanoseconds, rounded down; zero
    /// when there are none.
    pub fn mean_ns(&self) -> (r: u64)
        ensures
            self.count == 0 ==> r == 0,
            self.count > 0 ==> r == self.sum / self.count,
    {
        if self.count == 0 {
            0
        } else {
            self.sum / self.count
        }
    }
}

/// Every sample lies in `[lo, hi]`.
pub open spec fn samples_within(s: Seq<u64>, lo: u64, hi: u64) -> bool {
    forall|i: int| 0 <= i < s.len() ==> lo <= #[trigger] s[i] <= hi
}

/// `st` is the statistics of some samples, all within `[lo, hi]`.
pub open spec fn stats_of_some_samples(st: WatchStats, lo: u64, hi: u64) -> bool {
    exists|s: Seq<u64>| samples_within(s, lo, hi) && st == stats_of_samples(s)
}

/// The statistics are in order and within `[lo, hi]`; all zero for a
/// metric without samples.
pub open spec fn stats_in_order(st: WatchStats, lo: u64, hi: u64) -> bool {
    if st.count == 0 {
        st == (WatchStats { count: 0, min: 0, max: 0, p50: 0, p90: 0, p95: 0, p99: 0, p999: 0, sum: 0 })
    } else {
        lo <= st.min <= st.p50 <= st.p90 <= st.p95 <= st.p99 <= st.p999 <= st.max <= hi
    }
}

/// The statistics of samples within `[lo, hi]` are in order and within it.
pub proof fn law_stats_within_bounds(s: Seq<u64>, lo: u64, hi: u64)
    requires
        samples_within(s, lo, hi),
        s.len() <= u64::MAX,
    ensures
        stats_in_order(stats_of_samples(s), lo, hi),
{
    law_stats_ordered(s);
    if s.len() > 0 {
        lemma_min_max(s);
        let a = choose|j: int| 0 <= j < s.len() && s[j] == seq_min(s);
        let b = choose|j: int| 0 <= j < s.len() && s[j] == seq_max(s);
        assert(lo <= s[a]);
        assert(s[b] <= hi);
        assert(s.len() as u64 > 0);
    }
}

/// The statistics of each metric at one moment, one entry per name.
pub struct Snapshot {
    entries: Vec<(String, WatchStats)>,
}

/// No two entries of a snapshot share a name.
pub open spec fn snapshot_names_unique(v: Seq<(Seq<char>, WatchStats)>) -> bool {
    forall|i: int, j: int| 0 <= i < j < v.len() ==> (#[trigger] v[i]).0 != (#[trigger] v[j]).0
}

impl View for Snapshot {
    type V = Seq<(Seq<char>, WatchStats)>;

    closed spec fn view(&self) -> Seq<(Seq<char>, WatchStats)> {
        self.entries@.map_values(|e: (String, WatchStats)| (e.0@, e.1))
    }
}

impl Snapshot {
    /// The snapshot of the named histograms `items`: entry `i` is the name
    /// of item `i` with the statistics of its samples.
    pub fn of(items: &Vec<(String, FastHistogram)>) -> (r: Snapshot)
        requires
            forall|i: int| 0 <= i < items@.len() ==> (#[trigger] items@[i]).1.wf(),
        ensures
            r@.len() == items@.len(),
            forall|i: int|
                0 <= i < items@.len() ==> #[trigger] r@[i] == (
                items@[i].0@,
                stats_of_samples(items@[i].1@),
            ),
    {
        let mut entries: Vec<(String, WatchStats)> = Vec::new();
        let mut i: usize = 0;
        while i < items.len()
            invariant
                i <= items@.len(),
                forall|j: int| 0 <= j < items@.len() ==> (#[trigger] items@[j]).1.wf(),
                entries@.len() == i,
                forall|j: int|
                    0 <= j < i ==> (#[trigger] entries@[j]).0@ == items@[j].0@ && entries@[j].1
                        == stats_of_samples(items@[j].1@),
            decreases items@.len() - i,
        {
            let st = WatchStats::of(&items[i].1);
            entries.push((items[i].0.clone(), st));
            i = i + 1;
        }
        let r = Snapshot { entries };
        assert forall|j: int| 0 <= j < items@.len() implies #[trigger] r@[j] == (
            items@[j].0@,
            stats_of_samples(items@[j].1@),
        ) by {
            assert(r@[j] == (r.entries@[j].0@, r.entries@[j].1));
        }
        r
    }

    /// The number of metrics.
    pub fn len(&self) -> (r: usize)
        ensures
            r == self@.len(),
    {
        self.entries.len()
    }

    /// Whether there is no metric.
    pub fn is_empty(&self) -> (r: bool)
        ensures
            r == (self@.len() == 0),
    {
        self.entries.len() == 0
    }

    /// The statistics of the metric `name`, if it is there.
    pub fn get(&self, name: &str) -> (r: Option<WatchStats>)
        ensures
            match r {
                Some(st) => exists|i: int|
                    0 <= i < self@.len() && (#[trigger] self@[i]).0 == name@ && self@[i].1 == st,
                None => forall|i: int| 0 <= i < self@.len() ==> (#[trigger] self@[i]).0 != name@,
            },
    {
        let key = name.to_owned();
        let mut i: usize = 0;
        while i < self.entries.len()
            invariant
                i <= self.entries@.len(),
                self@.len() == self.entries@.len(),
                key@ == name@,
                forall|j: int| 0 <= j < i ==> (#[trigger] self@[j]).0 != name@,
            decreases self.entries@.len() - i,
        {
            assert(self@[i as int] == (self.entries@[i as int].0@, self.entries@[i as int].1));
            if self.entries[i].0 == key {
                assert(self@[i as int].0 == name@ && self@[i as int].1 == self.entries@[i as int].1);
                return Some(self.entries[i].1);
            }
            i = i + 1;
        }
        None
    }

    /// Whether the metric `name` is there.
    pub fn contains_key(&self, name: &str) -> (r: bool)
        ensures
            r == exists|i: int| 0 <= i < self@.len() && (#[trigger] self@[i]).0 == name@,
    {
        self.get(name).is_some()
    }

    /// The entries, name and statistics.
    pub fn entries(&self) -> (r: &Vec<(String, WatchStats)>)
        ensures
            r@.map_values(|e: (String, WatchStats)| (e.0@, e.1)) == self@,
    {
        &self.entries
    }
}

/// The bounds a registry keeps for `lowest` and `highest` asked for: the
/// least at least `1`, the greatest above the least (where it can be).
pub open spec fn normal_bounds(lowest: u64, highest: u64) -> (u64, u64) {
    let lo = if lowest < 1 {
        1u64
    } else {
        lowest
    };
    let above = if lo == u64::MAX {
        u64::MAX
    } else {
        (lo + 1) as u64
    };
    (lo, if highest < above {
        above
    } else {
        highest
    })
}

/// `v` clamped to `[lo, hi]`.
pub open spec fn clamp_to(v: u64, lo: u64, hi: u64) -> u64 {
    if v < lo {
        lo
    } else if v > hi {
        hi
    } else {
        v
    }
}

/// The name and samples of each entry.
pub open spec fn named_samples(e: Seq<(String, FastHistogram)>) -> Seq<(Seq<char>, Seq<u64>)> {
    e.map_values(|x: (String, FastHistogram)| (x.0@, x.1@))
}

/// The samples recorded under `name` so far; none when it is absent.
pub open spec fn samples_under(m: Map<Seq<char>, Seq<u64>>, name: Seq<char>) -> Seq<u64> {
    if m.contains_key(name) {
        m[name]
    } else {
        Seq::empty()
    }
}

fn find_metric(entries: &Vec<(String, FastHistogram)>, name: &String) -> (r: Option<usize>)
    ensures
        match r {
            Some(i) => i < entries@.len() && entries@[i as int].0@ == name@,
            None => forall|j: int| 0 <= j < entries@.len() ==> (#[trigger] entries@[j]).0@ != name@,
        },
{
    let mut i: usize = 0;
    while i < entries.len()
        invariant
            i <= entries@.len(),
            forall|j: int| 0 <= j < i ==> (#[trigger] entries@[j]).0@ != name@,
        decreases entries@.len() - i,
    {
        if entries[i].0 == *name {
            return Some(i);
        }
        i = i + 1;
    }
    None
}

/// A registry of named histograms, one per name, made the first time a
/// value is recorded under it. Its view maps each name to the samples
/// recorded under it, clamped to the registry's bounds.
pub struct Registry {
    entries: Vec<(String, FastHistogram)>,
    lowest: u64,
    highest: u64,
}

impl View for Registry {
    type V = Map<Seq<char>, Seq<u64>>;

    closed spec fn view(&self) -> Map<Seq<char>, Seq<u64>> {
        keyed_map(named_samples(self.entries@))
    }
}

impl Registry {
    /// The least value kept; smaller values are raised to it.
    pub closed spec fn lowest(&self) -> u64 {
        self.lowest
    }

    /// The greatest value kept; larger values are lowered to it.
    pub closed spec fn highest(&self) -> u64 {
        self.highest
    }

    /// Names are unique, histograms well formed, samples within the bounds.
    pub closed spec fn wf(&self) -> bool {
        &&& 1 <= self.lowest <= self.highest
        &&& keys_unique(named_samples(self.entries@))
        &&& forall|i: int|
            0 <= i < self.entries@.len() ==> (#[trigger] self.entries@[i]).1.wf()
                && samples_within(self.entries@[i].1@, self.lowest, self.highest)
                && self.entries@[i].1@.len() <= u64::MAX
    }

    /// What a well-formed registry holds: samples within its bounds.
    pub proof fn lemma_wf(&self)
        requires
            self.wf(),
        ensures
            1 <= self.lowest() <= self.highest(),
            forall|k: Seq<char>|
                #[trigger] self@.contains_key(k) ==> samples_within(
                    self@[k],
                    self.lowest(),
                    self.highest(),
                ) && self@[k].len() <= u64::MAX,
    {
        let n = named_samples(self.entries@);
        assert forall|k: Seq<char>| #[trigger] self@.contains_key(k) implies samples_within(
            self@[k],
            self.lowest(),
            self.highest(),
        ) && self@[k].len() <= u64::MAX by {
            let j = choose|j: int| 0 <= j < n.len() && (#[trigger] n[j]).0 == k;
            lemma_keyed_at(n, j);
            assert(n[j].1 == self.entries@[j].1@);
        }
    }

    /// An empty registry keeping values in `[lowest, highest]`, after the
    /// bounds are made sensible.
    pub fn with_bounds(lowest_discernible: u64, highest_trackable: u64) -> (r: Registry)
        ensures
            r.wf(),
            r@ == Map::<Seq<char>, Seq<u64>>::empty(),
            (r.lowest(), r.highest()) == normal_bounds(lowest_discernible, highest_trackable),
    {
        let lowest = if lowest_discernible < 1 {
            1
        } else {
            lowest_discernible
        };
        let above = lowest.saturating_add(1);
        let highest = if highest_trackable < above {
            above
        } else {
            highest_trackable
        };
        let r = Registry { entries: Vec::new(), lowest, highest };
        proof {
            lemma_keyed_empty(named_samples(r.entries@));
        }
        r
    }

    /// An empty registry keeping values in `[1 ns, 1 h]`.
    pub fn new() -> (r: Registry)
        ensures
            r.wf(),
            r@ == Map::<Seq<char>, Seq<u64>>::empty(),
            r.lowest() == DEFAULT_LOWEST,
            r.highest() == DEFAULT_HIGHEST,
    {
        Registry::with_bounds(DEFAULT_LOWEST, DEFAULT_HIGHEST)
    }

    /// `value` clamped to the registry's bounds.
    pub fn clamp(&self, value: u64) -> (r: u64)
        ensures
            r == clamp_to(value, self.lowest(), self.highest()),
    {
        if value < self.lowest {
            self.lowest
        } else if value > self.highest {
            self.highest
        } else {
            value
        }
    }

    /// Records `value`, clamped to the bounds, under `name`, making its
    /// histogram if it has none. Other names are untouched. A histogram
    /// already holding `u64::MAX` samples is full and keeps them.
    pub fn record(&mut self, name: &str, value: u64)
        requires
            old(self).wf(),
        ensures
            final(self).wf(),
            final(self).lowest() == old(self).lowest(),
            final(self).highest() == old(self).highest(),
            samples_under(old(self)@, name@).len() < u64::MAX ==> final(self)@ == old(self)@.insert(
                name@,
                samples_under(old(self)@, name@).push(
                    clamp_to(value, old(self).lowest(), old(self).highest()),
                ),
            ),
            samples_under(old(self)@, name@).len() >= u64::MAX ==> final(self)@ == old(self)@,
    {
        let c = self.clamp(value);
        let key = name.to_owned();
        let ghost old_entries = self.entries@;
        let ghost old_named = named_samples(old_entries);
        match find_metric(&self.entries, &key) {
            Some(i) => {
                proof {
                    lemma_keyed_at(old_named, i as int);
                    assert(old_named[i as int] == (old_entries[i as int].0@, old_entries[i as int].1@));
                }
                let (k, mut h) = self.entries.remove(i);
                let ghost before = h@;
                proof {
                    h.lemma_len_bounded();
                }
                h.record(c);
                self.entries.insert(i, (k, h));
                proof {
                    assert(self.entries@ =~= old_entries.update(i as int, (k, h)));
                    assert(named_samples(self.entries@) =~= old_named.update(
                        i as int,
                        (old_named[i as int].0, h@),
                    ));
                    lemma_keyed_update(old_named, i as int, h@);
                    if before.len() < u64::MAX {
                        assert(h@ == before.push(c));
                        assert forall|j: int| 0 <= j < h@.len() implies self.lowest <= #[trigger] h@[j]
                            <= self.highest by {
                            if j < before.len() {
                                assert(h@[j] == before[j]);
                            }
                        }
                    } else {
                        assert(h@ == before);
                        assert(old_named[i as int].1 == before);
                        assert(self@ =~= old(self)@);
                    }
                    assert forall|j: int| 0 <= j < self.entries@.len() implies (
                    #[trigger] self.entries@[j]).1.wf() && samples_within(
                        self.entries@[j].1@,
                        self.lowest,
                        self.highest,
                    ) && self.entries@[j].1@.len() <= u64::MAX by {
                        if j != i {
                            assert(self.entries@[j] == old_entries[j]);
                        }
                    }
                }
            },
            None => {
                let mut h = FastHistogram::new();
                h.record(c);
                proof {
                    assert(h@ =~= seq![c]);
                    assert(!has_key(old_named, name@)) by {
                        if has_key(old_named, name@) {
                            let j = choose|j: int| 0 <= j < old_named.len() && (#[trigger] old_named[j]).0 == name@;
                            assert(old_entries[j].0@ != name@);
                        }
                    }
                    assert(!old(self)@.contains_key(name@));
                    assert(seq![c] =~= Seq::<u64>::empty().push(c));
                }
                self.entries.push((key, h));
                proof {
                    assert(named_samples(self.entries@) =~= old_named.push((name@, h@)));
                    lemma_keyed_push(old_named, name@, h@);
                    assert forall|j: int| 0 <= j < self.entries@.len() implies (
                    #[trigger] self.entries@[j]).1.wf() && samples_within(
                        self.entries@[j].1@,
                        self.lowest,
                        self.highest,
                    ) && self.entries@[j].1@.len() <= u64::MAX by {
                        if j < old_entries.len() {
                            assert(self.entries@[j] == old_entries[j]);
                        }
                    }
                }
            },
        }
    }

    /// The statistics of every metric, one entry per name: the names are
    /// those of the registry, each with the statistics of its samples.
    pub fn snapshot(&self) -> (r: Snapshot)
        requires
            self.wf(),
        ensures
            snapshot_names_unique(r@),
            forall|k: Seq<char>|
                #[trigger] self@.contains_key(k) <==> exists|i: int|
                    0 <= i < r@.len() && (#[trigger] r@[i]).0 == k,
            forall|i: int|
                0 <= i < r@.len() ==> self@.contains_key((#[trigger] r@[i]).0) && r@[i].1
                    == stats_of_samples(self@[r@[i].0]),
    {
        let r = Snapshot::of(&self.entries);
        proof {
            let n = named_samples(self.entries@);
            assert forall|i: int| 0 <= i < r@.len() implies self@.contains_key(
                (#[trigger] r@[i]).0,
            ) && r@[i].1 == stats_of_samples(self@[r@[i].0]) by {
                assert(n[i] == (self.entries@[i].0@, self.entries@[i].1@));
                lemma_keyed_at(n, i);
            }
            assert forall|k: Seq<char>| #[trigger] self@.contains_key(k) implies exists|i: int|
                0 <= i < r@.len() && (#[trigger] r@[i]).0 == k by {
                let j = choose|j: int| 0 <= j < n.len() && (#[trigger] n[j]).0 == k;
                assert(r@[j].0 == k);
            }
            assert forall|a: int, b: int| 0 <= a < b < r@.len() implies (#[trigger] r@[a]).0 != (
            #[trigger] r@[b]).0 by {
                assert(n[a].0 == r@[a].0 && n[b].0 == r@[b].0);
            }
        }
        r
    }

    /// Forgets every metric.
    pub fn clear(&mut self)
        requires
            old(self).wf(),
        ensures
            final(self).wf(),
            final(self)@ == Map::<Seq<char>, Seq<u64>>::empty(),
            final(self).lowest() == old(self).lowest(),
            final(self).highest() == old(self).highest(),
    {
        self.entries = Vec::new();
        proof {
            lemma_keyed_empty(named_samples(self.entries@));
        }
    }

    /// Forgets the metric `name`; other names are untouched.
    pub fn clear_name(&mut self, name: &str)
        requires
            old(self).wf(),
        ensures
            final(self).wf(),
            final(self)@ == old(self)@.remove(name@),
            final(self).lowest() == old(self).lowest(),
            final(self).highest() == old(self).highest(),
    {
        let key = name.to_owned();
        let ghost old_entries = self.entries@;
        let ghost old_named = named_samples(old_entries);
        match find_metric(&self.entries, &key) {
            Some(i) => {
                self.entries.remove(i);
                proof {
                    assert(named_samples(self.entries@) =~= old_named.remove(i as int));
                    assert(old_named[i as int].0 == name@);
                    lemma_keyed_remove(old_named, i as int);
                    assert forall|j: int| 0 <= j < self.entries@.len() implies (
                    #[trigger] self.entries@[j]).1.wf() && samples_within(
                        self.entries@[j].1@,
                        self.lowest,
                        self.highest,
                    ) && self.entries@[j].1@.len() <= u64::MAX by {
                        assert(self.entries@[j] == old_entries[if j < i { j } else { j + 1 }]);
                    }
                }
            },
            None => {
                proof {
                    assert(!has_key(old_named, name@)) by {
                        if has_key(old_named, name@) {
                            let j = choose|j: int| 0 <= j < old_named.len() && (#[trigger] old_named[j]).0 == name@;
                            assert(old_entries[j].0@ != name@);
                        }
                    }
                    assert(old(self)@.remove(name@) =~= old(self)@);
                }
            },
        }
    }
}

/// The lock's invariant over a shared registry: well formed, with the
/// bounds it was made with.
pub struct RegistryOk {
    pub lo: u64,
    pub hi: u64,
}

impl RwLockPredicate<Registry> for RegistryOk {
    open spec fn inv(self, r: Registry) -> bool {
        r.wf() && r.lowest() == self.lo && r.highest() == self.hi
    }
}

/// A shared handle on a `Registry`. Clones share one registry, so it can
/// be handed to many threads; each call takes the registry's lock.
pub struct Watch {
    inner: Arc<RwLock<Registry, RegistryOk>>,
    lowest: u64,
    highest: u64,
}

impl Clone for Watch {
    /// Another handle on the same registry.
    fn clone(&self) -> (w: Watch)
        ensures
            w.lowest() == self.lowest(),
            w.highest() == self.highest(),
    {
        proof {
            use_type_invariant(self);
        }
        Watch { inner: self.inner.clone(), lowest: self.lowest, highest: self.highest }
    }
}

impl Watch {
    #[verifier::type_invariant]
    spec fn inv(self) -> bool {
        &&& self.inner.pred() == (RegistryOk { lo: self.lowest, hi: self.highest })
        &&& 1 <= self.lowest <= self.highest
    }

    /// The least value kept; smaller values are raised to it.
    pub closed spec fn lowest(&self) -> u64 {
        self.lowest
    }

    /// The greatest value kept; larger values are lowered to it.
    pub closed spec fn highest(&self) -> u64 {
        self.highest
    }

    /// A registry keeping values in `[1 ns, 1 h]`.
    pub fn new() -> (w: Watch)
        ensures
            w.lowest() == DEFAULT_LOWEST,
            w.highest() == DEFAULT_HIGHEST,
    {
        Watch::with_bounds(DEFAULT_LOWEST, DEFAULT_HIGHEST)
    }

    /// A builder for a registry with other bounds.
    pub fn builder() -> (b: WatchBuilder)
        ensures
            b.lowest == DEFAULT_LOWEST,
            b.highest == DEFAULT_HIGHEST,
    {
        WatchBuilder::new()
    }

    /// A shared empty registry keeping values in `[lowest, highest]`, after
    /// the bounds are made sensible as `Registry::with_bounds` does.
    pub fn with_bounds(lowest_discernible: u64, highest_trackable: u64) -> (w: Watch)
        ensures
            (w.lowest(), w.highest()) == normal_bounds(lowest_discernible, highest_trackable),
            1 <= w.lowest() <= w.highest(),
    {
        let reg = Registry::with_bounds(lowest_discernible, highest_trackable);
        let lowest = reg.lowest;
        let highest = reg.highest;
        let inv = Ghost(RegistryOk { lo: lowest, hi: highest });
        Watch { inner: Arc::new(RwLock::new(reg, inv)), lowest, highest }
    }

    /// `value` clamped to the registry's bounds.
    pub fn clamp(&self, value: u64) -> (r: u64)
        ensures
            r == clamp_to(value, self.lowest(), self.highest()),
    {
        if value < self.lowest {
            self.lowest
        } else if value > self.highest {
            self.highest
        } else {
            value
        }
    }

    /// Records `duration_ns`, clamped to the registry's bounds, under
    /// `name`, as `Registry::record` does, under the write lock.
    pub fn record(&self, name: &str, duration_ns: u64) {
        proof {
            use_type_invariant(self);
        }
        let (mut reg, handle) = self.inner.acquire_write();
        reg.record(name, duration_ns);
        handle.release_write(reg);
    }

    /// The statistics of every metric, as `Registry::snapshot` gives them,
    /// under the read lock. Other threads may record meanwhile; whatever the
    /// registry held, every entry is the statistics of samples within the
    /// bounds, in order, and names appear once.
    pub fn snapshot(&self) -> (r: Snapshot)
        ensures
            snapshot_names_unique(r@),
            forall|i: int|
                0 <= i < r@.len() ==> stats_of_some_samples(
                    #[trigger] r@[i].1,
                    self.lowest(),
                    self.highest(),
                ),
            forall|i: int|
                0 <= i < r@.len() ==> stats_in_order(#[trigger] r@[i].1, self.lowest(), self.highest()),
    {
        proof {
            use_type_invariant(self);
        }
        let handle = self.inner.acquire_read();
        let reg = handle.borrow();
        let r = reg.snapshot();
        proof {
            reg.lemma_wf();
            assert forall|i: int| 0 <= i < r@.len() implies stats_of_some_samples(
                #[trigger] r@[i].1,
                self.lowest,
                self.highest,
            ) && stats_in_order(r@[i].1, self.lowest, self.highest) by {
                let s = reg@[r@[i].0];
                assert(reg@.contains_key(r@[i].0));
                law_stats_within_bounds(s, self.lowest, self.highest);
            }
        }
        handle.release_read();
        r
    }

    /// The registry, taken under the write lock; hand it back through the
    /// handle.
    pub(crate) fn acquire_registry(&self) -> (r: (Registry, WriteHandle<'_, Registry, RegistryOk>))
        ensures
            r.1.rwlock().inv(r.0),
            r.0.wf(),
    {
        self.inner.acquire_write()
    }

    /// Forgets every metric, for every handle.
    pub fn clear(&self) {
        proof {
            use_type_invariant(self);
        }
        let (mut reg, handle) = self.inner.acquire_write();
        reg.clear();
        handle.release_write(reg);
    }

    /// Forgets the metric `name`, for every handle.
    pub fn clear_name(&self, name: &str) {
        proof {
            use_type_invariant(self);
        }
        let (mut reg, handle) = self.inner.acquire_write();
        reg.clear_name(name);
        handle.release_write(reg);
    }
}

/// Settings for a `Watch`: the bounds of the values it keeps.
#[derive(Clone, Copy, Debug)]
pub struct WatchBuilder {
    pub lowest: u64,
    pub highest: u64,
}

impl WatchBuilder {
    /// The default bounds, `[1 ns, 1 h]`.
    pub fn new() -> (b: WatchBuilder)
        ensures
            b.lowest == DEFAULT_LOWEST,
            b.highest == DEFAULT_HIGHEST,
    {
        WatchBuilder { lowest: DEFAULT_LOWEST, highest: DEFAULT_HIGHEST }
    }

    /// Sets the least value kept, raised to at least `1`.
    pub fn lowest(self, ns: u64) -> (b: WatchBuilder)
        ensures
            b.lowest == (if ns < 1 {
                1
            } else {
                ns
            }),
            b.highest == self.highest,
    {
        WatchBuilder {
            lowest: if ns < 1 {
                1
            } else {
                ns
            },
            highest: self.highest,
        }
    }

    /// Sets the greatest value kept.
    pub fn highest(self, ns: u64) -> (b: WatchBuilder)
        ensures
            b.lowest == self.lowest,
            b.highest == ns,
    {
        WatchBuilder { lowest: self.lowest, highest: ns }
    }

    /// The registry with these bounds, made sensible as `with_bounds` does.
    pub fn build(self) -> (w: Watch)
        ensures
            (w.lowest(), w.highest()) == normal_bounds(self.lowest, self.highest),
    {
        Watch::with_bounds(self.lowest, self.highest)
    }
}

impl Default for Watch {
    fn default() -> (w: Watch)
        ensures
            w.lowest() == DEFAULT_LOWEST,
            w.highest() == DEFAULT_HIGHEST,
    {
        Watch::new()
    }
}

impl Default for WatchBuilder {
    fn default() -> (b: WatchBuilder)
        ensures
            b.lowest == DEFAULT_LOWEST,
            b.highest == DEFAULT_HIGHEST,
    {
        WatchBuilder::new()
    }
}

} // verus!
