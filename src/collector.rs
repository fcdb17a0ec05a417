use std::sync::Arc;

use vstd::prelude::*;
use vstd::rwlock::{RwLock, RwLockPredicate};

use crate::duration::Duration;
use crate::keyed::{
    has_key, keyed_map, keys_unique, lemma_keyed_at, lemma_keyed_empty, lemma_keyed_push,
    lemma_keyed_remove, lemma_keyed_update,
};
use crate::measurement::Measurement;

verus! {

/// Count, total, least, greatest and mean of a set of durations.
#[derive(Clone, Copy, Debug, PartialEq, Eq, Structural)]
pub struct Stats {
    pub count: u64,
    pub total: Duration,
    pub min: Duration,
    pub max: Duration,
    pub mean: Duration,
}

/// The exact sum of the nanoseconds of `s`.
pub open spec fn total_nanos(s: Seq<Duration>) -> int
    decreases s.len(),
{
    if s.len() == 0 {
        0
    } else {
        total_nanos(s.drop_last()) + s.last().nanos
    }
}

/// The least nanoseconds of a non-empty `s`.
pub open spec fn min_nanos(s: Seq<Duration>) -> u128
    decreases s.len(),
{
    if s.len() <= 1 {
        s[0].nanos
    } else {
        let m = min_nanos(s.drop_last());
        if s.last().nanos < m {
            s.last().nanos
        } else {
            m
        }
    }
}

/// The greatest nanoseconds of a non-empty `s`.
pub open spec fn max_nanos(s: Seq<Duration>) -> u128
    decreases s.len(),
{
    if s.len() <= 1 {
        s[0].nanos
    } else {
        let m = max_nanos(s.drop_last());
        if s.last().nanos > m {
            s.last().nanos
        } else {
            m
        }
    }
}

/// `x` saturated at `u128::MAX`.
pub open spec fn saturate_u128(x: int) -> u128 {
    if x >= u128::MAX {
        u128::MAX
    } else {
        x as u128
    }
}

/// What `summarize` returns for `s`: none when empty; else the count, the
/// total saturated at `u128::MAX`, the least and greatest, and the mean as
/// that total divided by the count, rounded down.
pub open spec fn stats_of(s: Seq<Duration>) -> Option<Stats> {
    if s.len() == 0 {
        None
    } else {
        let total = saturate_u128(total_nanos(s));
        Some(
            Stats {
                count: s.len() as u64,
                total: Duration { nanos: total },
                min: Duration { nanos: min_nanos(s) },
                max: Duration { nanos: max_nanos(s) },
                mean: Duration { nanos: (total / (s.len() as u128)) as u128 },
            },
        )
    }
}

proof fn lemma_total_nonneg(s: Seq<Duration>)
    ensures
        total_nanos(s) >= 0,
    decreases s.len(),
{
    if s.len() > 0 {
        lemma_total_nonneg(s.drop_last());
    }
}

/// The statistics of `durations`, in one pass.
pub fn summarize(durations: &Vec<Duration>) -> (r: Option<Stats>)
    ensures
        r == stats_of(durations@),
        r.is_some() ==> r.unwrap().count > 0 && r.unwrap().min.nanos <= r.unwrap().max.nanos,
{
    let n = durations.len();
    if n == 0 {
        return None;
    }
    let first = durations[0];
    let mut total: u128 = first.nanos;
    let mut min = first;
    let mut max = first;
    let mut i: usize = 1;
    proof {
        let p = durations@.subrange(0, 1);
        assert(p.drop_last() =~= Seq::<Duration>::empty());
        assert(p.last() == first);
        assert(total_nanos(p.drop_last()) == 0);
        assert(total_nanos(p) == first.nanos);
    }
    while i < n
        invariant
            n == durations@.len(),
            1 <= i <= n,
            total == saturate_u128(total_nanos(durations@.subrange(0, i as int))),
            min.nanos == min_nanos(durations@.subrange(0, i as int)),
            max.nanos == max_nanos(durations@.subrange(0, i as int)),
        decreases n - i,
    {
        let d = durations[i];
        proof {
            let p = durations@.subrange(0, i as int + 1);
            assert(p.drop_last() =~= durations@.subrange(0, i as int));
            assert(p.last() == d);
            lemma_total_nonneg(durations@.subrange(0, i as int));
        }
        total = total.saturating_add(d.nanos);
        if d.nanos < min.nanos {
            min = d;
        }
        if d.nanos > max.nanos {
            max = d;
        }
        i = i + 1;
    }
    proof {
        assert(durations@.subrange(0, n as int) =~= durations@);
    }
    let count = n as u64;
    proof {
        lemma_min_le_max(durations@);
    }
    Some(
        Stats {
            count,
            total: Duration::from_nanos(total),
            min,
            max,
            mean: Duration::from_nanos(total / (count as u128)),
        },
    )
}

/// `st` is the statistics of some non-empty sequence of durations.
pub open spec fn stats_of_some_durations(st: Stats) -> bool {
    exists|ds: Seq<Duration>| ds.len() > 0 && stats_of(ds) == Some(st)
}

/// The name and durations of each entry.
pub open spec fn named_durations(e: Seq<(String, Vec<Duration>)>) -> Seq<(Seq<char>, Seq<Duration>)> {
    e.map_values(|x: (String, Vec<Duration>)| (x.0@, x.1@))
}

/// The durations recorded under `name` so far; none when it is absent.
pub open spec fn durations_under(m: Map<Seq<char>, Seq<Duration>>, name: Seq<char>) -> Seq<Duration> {
    if m.contains_key(name) {
        m[name]
    } else {
        Seq::empty()
    }
}

/// The statistics of each named sequence of durations: entry `i` is the
/// name of entry `i` of `entries` with the statistics of its durations.
pub fn summarize_all(entries: &Vec<(String, Vec<Duration>)>) -> (r: Vec<(String, Stats)>)
    requires
        forall|i: int| 0 <= i < entries@.len() ==> (#[trigger] entries@[i]).1@.len() > 0,
    ensures
        r@.len() == entries@.len(),
        forall|i: int|
            0 <= i < entries@.len() ==> (#[trigger] r@[i]).0@ == entries@[i].0@ && Some(r@[i].1)
                == stats_of(entries@[i].1@),
{
    let mut out: Vec<(String, Stats)> = Vec::new();
    let mut j: usize = 0;
    while j < entries.len()
        invariant
            j <= entries@.len(),
            forall|i: int| 0 <= i < entries@.len() ==> (#[trigger] entries@[i]).1@.len() > 0,
            out@.len() == j,
            forall|i: int|
                0 <= i < j ==> (#[trigger] out@[i]).0@ == entries@[i].0@ && Some(out@[i].1)
                    == stats_of(entries@[i].1@),
        decreases entries@.len() - j,
    {
        let durations = &entries[j].1;
        match summarize(durations) {
            Some(st) => {
                out.push((entries[j].0.clone(), st));
            },
            None => {
                assert(false);
                return out;
            },
        }
        j = j + 1;
    }
    out
}

/// The index of the entry named `name`, if there is one.
fn find_entry(entries: &Vec<(String, Vec<Duration>)>, name: &String) -> (r: Option<usize>)
    ensures
        match r {
            Some(i) => i < entries@.len() && entries@[i as int].0@ == name@,
            None => forall|j: int| 0 <= j < entries@.len() ==> (#[trigger] entries@[j]).0@ != name@,
        },
{
    let mut i: usize = 0;
    while i < entries.len()
        invariant
            i <= entries@.len(),
            forall|j: int| 0 <= j < i ==> (#[trigger] entries@[j]).0@ != name@,
        decreases entries@.len() - i,
    {
        if entries[i].0 == *name {
            return Some(i);
        }
        i = i + 1;
    }
    None
}

/// Every duration recorded under each name, in recording order. Its view
/// maps each name that has durations to them.
pub struct DurationStore {
    entries: Vec<(String, Vec<Duration>)>,
}

impl View for DurationStore {
    type V = Map<Seq<char>, Seq<Duration>>;

    closed spec fn view(&self) -> Map<Seq<char>, Seq<Duration>> {
        keyed_map(named_durations(self.entries@))
    }
}

impl DurationStore {
    /// Names are unique and every name has a duration.
    pub closed spec fn wf(&self) -> bool {
        &&& keys_unique(named_durations(self.entries@))
        &&& forall|i: int| 0 <= i < self.entries@.len() ==> (#[trigger] self.entries@[i]).1@.len() > 0
    }

    /// An empty store with room for `capacity` names.
    pub fn with_capacity(capacity: usize) -> (r: DurationStore)
        ensures
            r.wf(),
            r@ == Map::<Seq<char>, Seq<Duration>>::empty(),
    {
        let r = DurationStore { entries: Vec::with_capacity(capacity) };
        proof {
            lemma_keyed_empty(named_durations(r.entries@));
        }
        r
    }

    /// An empty store.
    pub fn new() -> (r: DurationStore)
        ensures
            r.wf(),
            r@ == Map::<Seq<char>, Seq<Duration>>::empty(),
    {
        DurationStore::with_capacity(0)
    }

    /// Appends `duration` to those of `name`; other names are untouched.
    pub fn record_duration(&mut self, name: &str, duration: Duration)
        requires
            old(self).wf(),
        ensures
            final(self).wf(),
            final(self)@ == old(self)@.insert(name@, durations_under(old(self)@, name@).push(duration)),
    {
        let key = name.to_owned();
        let ghost old_entries = self.entries@;
        let ghost old_named = named_durations(old_entries);
        match find_entry(&self.entries, &key) {
            Some(i) => {
                proof {
                    lemma_keyed_at(old_named, i as int);
                    assert(old_named[i as int] == (old_entries[i as int].0@, old_entries[i as int].1@));
                }
                let (k, mut durations) = self.entries.remove(i);
                durations.push(duration);
                self.entries.insert(i, (k, durations));
                proof {
                    assert(self.entries@ =~= old_entries.update(i as int, (k, durations)));
                    assert(named_durations(self.entries@) =~= old_named.update(
                        i as int,
                        (old_named[i as int].0, durations@),
                    ));
                    lemma_keyed_update(old_named, i as int, durations@);
                    assert forall|j: int| 0 <= j < self.entries@.len() implies (
                    #[trigger] self.entries@[j]).1@.len() > 0 by {
                        if j != i {
                            assert(self.entries@[j] == old_entries[j]);
                        }
                    }
                }
            },
            None => {
                let mut durations: Vec<Duration> = Vec::new();
                durations.push(duration);
                proof {
                    assert(!has_key(old_named, name@)) by {
                        if has_key(old_named, name@) {
                            let j = choose|j: int| 0 <= j < old_named.len() && (#[trigger] old_named[j]).0 == name@;
                            assert(old_entries[j].0@ != name@);
                        }
                    }
                    assert(durations@ =~= Seq::<Duration>::empty().push(duration));
                }
                self.entries.push((key, durations));
                proof {
                    assert(named_durations(self.entries@) =~= old_named.push((name@, durations@)));
                    lemma_keyed_push(old_named, name@, durations@);
                    assert forall|j: int| 0 <= j < self.entries@.len() implies (
                    #[trigger] self.entries@[j]).1@.len() > 0 by {
                        if j < old_entries.len() {
                            assert(self.entries@[j] == old_entries[j]);
                        }
                    }
                }
            },
        }
    }

    /// The statistics of the durations under `name`; `None` when it has none.
    pub fn stats(&self, name: &str) -> (r: Option<Stats>)
        requires
            self.wf(),
        ensures
            r == stats_of(durations_under(self@, name@)),
            r matches Some(st) ==> stats_of_some_durations(st),
    {
        let key = name.to_owned();
        let ghost named = named_durations(self.entries@);
        match find_entry(&self.entries, &key) {
            Some(i) => {
                proof {
                    lemma_keyed_at(named, i as int);
                    assert(named[i as int] == (self.entries@[i as int].0@, self.entries@[i as int].1@));
                }
                summarize(&self.entries[i].1)
            },
            None => {
                proof {
                    assert(!has_key(named, name@)) by {
                        if has_key(named, name@) {
                            let j = choose|j: int| 0 <= j < named.len() && (#[trigger] named[j]).0 == name@;
                            assert(self.entries@[j].0@ != name@);
                        }
                    }
                }
                None
            },
        }
    }

    /// The statistics of every name, one entry per name: the names are those
    /// of the store, each with the statistics of its durations.
    pub fn all_stats(&self) -> (r: Vec<(String, Stats)>)
        requires
            self.wf(),
        ensures
            forall|a: int, b: int| 0 <= a < b < r@.len() ==> (#[trigger] r@[a]).0@ != (#[trigger] r@[b]).0@,
            forall|k: Seq<char>|
                #[trigger] self@.contains_key(k) <==> exists|i: int|
                    0 <= i < r@.len() && (#[trigger] r@[i]).0@ == k,
            forall|i: int|
                0 <= i < r@.len() ==> self@.contains_key((#[trigger] r@[i]).0@) && Some(r@[i].1)
                    == stats_of(self@[r@[i].0@]),
    {
        let r = summarize_all(&self.entries);
        proof {
            let n = named_durations(self.entries@);
            assert forall|i: int| 0 <= i < r@.len() implies self@.contains_key(
                (#[trigger] r@[i]).0@,
            ) && Some(r@[i].1) == stats_of(self@[r@[i].0@]) by {
                assert(n[i] == (self.entries@[i].0@, self.entries@[i].1@));
                lemma_keyed_at(n, i);
            }
            assert forall|k: Seq<char>| #[trigger] self@.contains_key(k) implies exists|i: int|
                0 <= i < r@.len() && (#[trigger] r@[i]).0@ == k by {
                let j = choose|j: int| 0 <= j < n.len() && (#[trigger] n[j]).0 == k;
                assert(r@[j].0@ == k);
            }
            assert forall|a: int, b: int| 0 <= a < b < r@.len() implies (#[trigger] r@[a]).0@ != (
            #[trigger] r@[b]).0@ by {
                assert(n[a].0 == r@[a].0@ && n[b].0 == r@[b].0@);
            }
        }
        r
    }

    /// Forgets every name.
    pub fn clear(&mut self)
        ensures
            final(self).wf(),
            final(self)@ == Map::<Seq<char>, Seq<Duration>>::empty(),
    {
        self.entries = Vec::new();
        proof {
            lemma_keyed_empty(named_durations(self.entries@));
        }
    }

    /// Forgets `name`; other names are untouched.
    pub fn clear_name(&mut self, name: &str)
        requires
            old(self).wf(),
        ensures
            final(self).wf(),
            final(self)@ == old(self)@.remove(name@),
    {
        let key = name.to_owned();
        let ghost old_entries = self.entries@;
        let ghost old_named = named_durations(old_entries);
        match find_entry(&self.entries, &key) {
            Some(i) => {
                self.entries.remove(i);
                proof {
                    assert(named_durations(self.entries@) =~= old_named.remove(i as int));
                    assert(old_named[i as int].0 == name@);
                    lemma_keyed_remove(old_named, i as int);
                    assert forall|j: int| 0 <= j < self.entries@.len() implies (
                    #[trigger] self.entries@[j]).1@.len() > 0 by {
                        assert(self.entries@[j] == old_entries[if j < i { j } else { j + 1 }]);
                    }
                }
            },
            None => {
                proof {
                    assert(!has_key(old_named, name@)) by {
                        if has_key(old_named, name@) {
                            let j = choose|j: int| 0 <= j < old_named.len() && (#[trigger] old_named[j]).0 == name@;
                            assert(old_entries[j].0@ != name@);
                        }
                    }
                    assert(old(self)@.remove(name@) =~= old(self)@);
                }
            },
        }
    }
}

/// The lock's invariant over a shared store: it is well formed.
pub struct StoreOk;

impl RwLockPredicate<DurationStore> for StoreOk {
    open spec fn inv(self, s: DurationStore) -> bool {
        s.wf()
    }
}

/// A shared handle on a `DurationStore`. Clones share one store, so a
/// collector can be handed to many threads; each call takes its lock.
#[derive(Clone)]
pub struct Collector {
    store: Arc<RwLock<DurationStore, StoreOk>>,
}

impl Collector {
    /// An empty collector.
    pub fn new() -> (c: Collector) {
        Collector::with_capacity(0)
    }

    /// An empty collector with room for `capacity` names.
    pub fn with_capacity(capacity: usize) -> (c: Collector) {
        Collector { store: Arc::new(RwLock::new(DurationStore::with_capacity(capacity), Ghost(StoreOk))) }
    }

    /// Records the duration of a measurement under its name.
    pub fn record(&self, measurement: &Measurement) {
        self.record_duration(measurement.name, measurement.duration);
    }

    /// Records `duration` under `name`, as `DurationStore::record_duration`
    /// does, under the write lock.
    pub fn record_duration(&self, name: &'static str, duration: Duration) {
        let (mut store, handle) = self.store.acquire_write();
        store.record_duration(name, duration);
        handle.release_write(store);
    }

    /// The statistics of the durations under `name`, as
    /// `DurationStore::stats` gives them, under the read lock.
    pub fn stats(&self, name: &str) -> (r: Option<Stats>)
        ensures
            r matches Some(st) ==> stats_of_some_durations(st),
    {
        let handle = self.store.acquire_read();
        let r = handle.borrow().stats(name);
        handle.release_read();
        r
    }

    /// The statistics of every name, as `DurationStore::all_stats` gives
    /// them, under the read lock.
    pub fn all_stats(&self) -> (r: Vec<(String, Stats)>)
        ensures
            forall|a: int, b: int| 0 <= a < b < r@.len() ==> (#[trigger] r@[a]).0@ != (#[trigger] r@[b]).0@,
            forall|i: int| 0 <= i < r@.len() ==> stats_of_some_durations((#[trigger] r@[i]).1),
    {
        let handle = self.store.acquire_read();
        let store = handle.borrow();
        let r = store.all_stats();
        proof {
            assert forall|i: int| 0 <= i < r@.len() implies stats_of_some_durations(
                (#[trigger] r@[i]).1,
            ) by {
                assert(store@.contains_key(r@[i].0@));
                let ds = store@[r@[i].0@];
                assert(stats_of(ds) == Some(r@[i].1));
                assert(ds.len() > 0);
            }
        }
        handle.release_read();
        r
    }

    /// Forgets every name, for every handle.
    pub fn clear(&self) {
        let (mut store, handle) = self.store.acquire_write();
        store.clear();
        handle.release_write(store);
    }

    /// Forgets `name`, for every handle.
    pub fn clear_name(&self, name: &str) {
        let (mut store, handle) = self.store.acquire_write();
        store.clear_name(name);
        handle.release_write(store);
    }
}

/// Taking one duration out of a sequence takes it out of the total, the
/// least and the greatest.
proof fn lemma_remove_duration(s: Seq<Duration>, i: int)
    requires
        0 <= i < s.len(),
    ensures
        total_nanos(s) == total_nanos(s.remove(i)) + s[i].nanos,
        s.len() >= 2 ==> min_nanos(s) == if s[i].nanos < min_nanos(s.remove(i)) {
            s[i].nanos
        } else {
            min_nanos(s.remove(i))
        },
        s.len() >= 2 ==> max_nanos(s) == if s[i].nanos > max_nanos(s.remove(i)) {
            s[i].nanos
        } else {
            max_nanos(s.remove(i))
        },
    decreases s.len(),
{
    let t = s.remove(i);
    if i == s.len() - 1 {
        assert(t =~= s.drop_last());
        assert(s[i] == s.last());
    } else {
        let d = s.drop_last();
        lemma_remove_duration(d, i);
        assert(t.drop_last() =~= d.remove(i));
        assert(t.last() == s.last());
        assert(d[i] == s[i]);
        if s.len() == 2 {
            assert(t.len() == 1 && t[0] == s[1]);
            assert(d.len() == 1 && d[0] == s[0]);
            assert(min_nanos(d) == s[0].nanos);
            assert(max_nanos(d) == s[0].nanos);
            assert(min_nanos(t) == s[1].nanos);
            assert(max_nanos(t) == s[1].nanos);
        } else {
            assert(min_nanos(t) == (if t.last().nanos < min_nanos(t.drop_last()) {
                t.last().nanos
            } else {
                min_nanos(t.drop_last())
            }));
            assert(max_nanos(t) == (if t.last().nanos > max_nanos(t.drop_last()) {
                t.last().nanos
            } else {
                max_nanos(t.drop_last())
            }));
        }
    }
}

/// Recording the same durations in any order gives the same statistics.
pub proof fn law_stats_order_independent(d1: Seq<Duration>, d2: Seq<Duration>)
    requires
        d1.to_multiset() == d2.to_multiset(),
    ensures
        stats_of(d1) == stats_of(d2),
    decreases d1.len(),
{
    law_stats_parts_order_independent(d1, d2);
}

proof fn law_stats_parts_order_independent(d1: Seq<Duration>, d2: Seq<Duration>)
    requires
        d1.to_multiset() == d2.to_multiset(),
    ensures
        d1.len() == d2.len(),
        total_nanos(d1) == total_nanos(d2),
        d1.len() > 0 ==> min_nanos(d1) == min_nanos(d2) && max_nanos(d1) == max_nanos(d2),
    decreases d1.len(),
{
    broadcast use vstd::seq_lib::group_to_multiset_ensures;
    broadcast use vstd::multiset::group_multiset_axioms;

    if d1.len() == 0 {
        assert(d2.to_multiset().len() == 0);
        assert(d1 =~= d2);
    } else {
        let x = d1.last();
        let t1 = d1.drop_last();
        assert(d1 =~= t1.push(x));
        assert(d1.to_multiset() =~= t1.to_multiset().insert(x));
        assert(d2.to_multiset().count(x) > 0);
        assert(d2.contains(x));
        let i = choose|i: int| 0 <= i < d2.len() && d2[i] == x;
        let t2 = d2.remove(i);
        assert(t2.to_multiset() =~= d2.to_multiset().remove(x));
        assert(t2.to_multiset() =~= t1.to_multiset());
        law_stats_parts_order_independent(t1, t2);
        lemma_remove_duration(d2, i);
        if d1.len() == 1 {
            assert(t2.len() == 0);
            assert(d2.len() == 1 && d2[0] == x);
            assert(d1[0] == x);
        }
    }
}

/// The least of a non-empty sequence is at most its greatest.
pub proof fn lemma_min_le_max(s: Seq<Duration>)
    requires
        s.len() > 0,
    ensures
        min_nanos(s) <= max_nanos(s),
    decreases s.len(),
{
    if s.len() > 1 {
        lemma_min_le_max(s.drop_last());
    }
}

impl Default for Collector {
    fn default() -> (c: Collector) {
        Collector::new()
    }
}

} // verus!
