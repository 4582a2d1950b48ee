//! A bounded cache of decoded images that evicts the least recently used one.

use crate::numeric::{sat_mul, saturated};
use crate::rollout::{at_least_one, max_one};
use std::collections::{HashMap, VecDeque};
use vstd::prelude::*;

verus! {

/// How many order records the cache keeps per slot before it drops the outdated ones.
pub const ORDER_GC_MULTIPLIER: usize = 4;

/// A cache of at most `capacity` images, keyed by the number of their file.
///
/// Every use of an image is recorded with a running tick. A record is live while its tick is the
/// last one of its image; outdated records are skipped on eviction and dropped in bulk.
pub struct ImageCache<V> {
    capacity: usize,
    entries: HashMap<u64, V>,
    ticks: HashMap<u64, u64>,
    order: VecDeque<(u64, u64)>,
    tick: u64,
}

/// Whether a record is the last one of its image.
pub open spec fn is_live(ticks: Map<u64, u64>, record: (u64, u64)) -> bool {
    ticks.contains_key(record.0) && ticks[record.0] == record.1
}

/// The images of the live records, in the order of the records.
pub open spec fn live_keys(order: Seq<(u64, u64)>, ticks: Map<u64, u64>) -> Seq<u64>
    decreases order.len(),
{
    if order.len() == 0 {
        Seq::empty()
    } else {
        let earlier = live_keys(order.drop_last(), ticks);
        if is_live(ticks, order.last()) {
            earlier.push(order.last().0)
        } else {
            earlier
        }
    }
}

/// `keys` without `key`.
pub open spec fn without(keys: Seq<u64>, key: u64) -> Seq<u64>
    decreases keys.len(),
{
    if keys.len() == 0 {
        Seq::empty()
    } else if keys.last() == key {
        without(keys.drop_last(), key)
    } else {
        without(keys.drop_last(), key).push(keys.last())
    }
}

/// `keys` with `key` moved to (or put at) the end.
pub open spec fn used(keys: Seq<u64>, key: u64) -> Seq<u64> {
    without(keys, key).push(key)
}

/// The last `capacity` of `keys`.
pub open spec fn newest(keys: Seq<u64>, capacity: int) -> Seq<u64> {
    if keys.len() > capacity {
        keys.skip(keys.len() - capacity)
    } else {
        keys
    }
}

/// Records carry increasing ticks, none later than `tick`, and none of an image later than its
/// live one; every image has a live record.
spec fn records_ok(order: Seq<(u64, u64)>, ticks: Map<u64, u64>, tick: u64) -> bool {
    &&& forall|i: int, j: int| 0 <= i < j < order.len() ==> (#[trigger] order[i]).1 < (
    #[trigger] order[j]).1
    &&& forall|i: int| 0 <= i < order.len() ==> (#[trigger] order[i]).1 <= tick
    &&& forall|i: int|
        0 <= i < order.len() && ticks.contains_key((#[trigger] order[i]).0) ==> order[i].1
            <= ticks[order[i].0]
    &&& forall|k: u64| #[trigger]
        ticks.contains_key(k) ==> exists|i: int|
            0 <= i < order.len() && #[trigger] order[i] == (k, ticks[k])
}

proof fn lemma_live_key_has_record(order: Seq<(u64, u64)>, ticks: Map<u64, u64>, key: u64)
    ensures
        live_keys(order, ticks).contains(key) <==> exists|i: int|
            0 <= i < order.len() && #[trigger] order[i] == (key, ticks[key]) && ticks.contains_key(
                key,
            ),
        live_keys(order, ticks).len() <= order.len(),
    decreases order.len(),
{
    if order.len() > 0 {
        let init = order.drop_last();
        lemma_live_key_has_record(init, ticks, key);
        let earlier = live_keys(init, ticks);
        let all = live_keys(order, ticks);
        if all.contains(key) {
            let k = choose|k: int| 0 <= k < all.len() && all[k] == key;
            if k < earlier.len() {
                assert(earlier[k] == key);
                let i = choose|i: int|
                    0 <= i < init.len() && #[trigger] init[i] == (key, ticks[key]);
                assert(order[i] == (key, ticks[key]));
            } else {
                assert(order[order.len() - 1] == (key, ticks[key]));
            }
        }
        if exists|i: int|
            0 <= i < order.len() && #[trigger] order[i] == (key, ticks[key]) && ticks.contains_key(
                key,
            ) {
            let i = choose|i: int|
                0 <= i < order.len() && #[trigger] order[i] == (key, ticks[key])
                    && ticks.contains_key(key);
            if i < init.len() {
                assert(init[i] == (key, ticks[key]));
                let k = choose|k: int| 0 <= k < earlier.len() && earlier[k] == key;
                assert(all[k] == key);
            } else {
                assert(all[earlier.len() as int] == key);
            }
        }
    }
}

/// The live keys are the keys of `ticks`, each once.
proof fn lemma_live_keys_are_the_entries(order: Seq<(u64, u64)>, ticks: Map<u64, u64>, tick: u64)
    requires
        records_ok(order, ticks, tick),
    ensures
        live_keys(order, ticks).no_duplicates(),
        live_keys(order, ticks).to_set() =~= ticks.dom(),
        live_keys(order, ticks).len() == ticks.dom().len(),
        ticks.dom().finite(),
{
    lemma_live_keys_distinct(order, ticks);
    let keys = live_keys(order, ticks);
    assert forall|k: u64| #[trigger] keys.contains(k) <==> ticks.contains_key(k) by {
        lemma_live_key_has_record(order, ticks, k);
    }
    assert(keys.to_set() =~= ticks.dom());
    keys.unique_seq_to_set();
    vstd::seq_lib::seq_to_set_is_finite(keys);
}

proof fn lemma_live_keys_distinct(order: Seq<(u64, u64)>, ticks: Map<u64, u64>)
    requires
        forall|i: int, j: int| 0 <= i < j < order.len() ==> (#[trigger] order[i]).1 < (
        #[trigger] order[j]).1,
    ensures
        live_keys(order, ticks).no_duplicates(),
    decreases order.len(),
{
    if order.len() > 0 {
        let init = order.drop_last();
        lemma_live_keys_distinct(init, ticks);
        let earlier = live_keys(init, ticks);
        if is_live(ticks, order.last()) {
            let key = order.last().0;
            lemma_live_key_has_record(init, ticks, key);
            if earlier.contains(key) {
                let i = choose|i: int|
                    0 <= i < init.len() && #[trigger] init[i] == (key, ticks[key]);
                assert(order[i].1 < order[order.len() - 1].1);
            }
            let all = live_keys(order, ticks);
            assert forall|i: int, j: int| 0 <= i < all.len() && 0 <= j < all.len() && i != j implies
                all[i] != all[j] by {
                if i == earlier.len() {
                    assert(earlier.contains(earlier[j]));
                } else if j == earlier.len() {
                    assert(earlier.contains(earlier[i]));
                }
            }
        }
    }
}

/// Giving `key` a fresh tick removes it from the live keys of the older records.
proof fn lemma_fresh_tick(order: Seq<(u64, u64)>, ticks: Map<u64, u64>, key: u64, tick: u64)
    requires
        forall|i: int| 0 <= i < order.len() ==> (#[trigger] order[i]).1 < tick,
    ensures
        live_keys(order, ticks.insert(key, tick)) == without(live_keys(order, ticks), key),
    decreases order.len(),
{
    if order.len() > 0 {
        let init = order.drop_last();
        assert forall|i: int| 0 <= i < init.len() implies (#[trigger] init[i]).1 < tick by {
            assert(init[i] == order[i]);
        }
        lemma_fresh_tick(init, ticks, key, tick);
        assert(order[order.len() - 1].1 < tick);
        let earlier = live_keys(init, ticks);
        let all = live_keys(order, ticks);
        if is_live(ticks, order.last()) {
            assert(all.drop_last() =~= earlier);
        }
    }
}

/// The live keys are those of the first record followed by those of the others.
proof fn lemma_live_keys_front(order: Seq<(u64, u64)>, ticks: Map<u64, u64>)
    requires
        order.len() > 0,
    ensures
        live_keys(order, ticks) == (if is_live(ticks, order[0]) {
            seq![order[0].0]
        } else {
            Seq::empty()
        }) + live_keys(order.skip(1), ticks),
    decreases order.len(),
{
    let front: Seq<u64> = if is_live(ticks, order[0]) {
        seq![order[0].0]
    } else {
        Seq::empty()
    };
    let init = order.drop_last();
    if init.len() == 0 {
        assert(live_keys(init, ticks) =~= Seq::<u64>::empty());
        assert(order.skip(1) =~= Seq::<(u64, u64)>::empty());
        assert(live_keys(order.skip(1), ticks) =~= Seq::<u64>::empty());
        assert(live_keys(order, ticks) =~= front + live_keys(order.skip(1), ticks));
    } else {
        lemma_live_keys_front(init, ticks);
        assert(order.skip(1).drop_last() =~= init.skip(1));
        assert(order.skip(1).last() == order.last());
        assert(live_keys(order, ticks) =~= front + live_keys(order.skip(1), ticks));
    }
}

/// Forgetting an image that has no live record leaves the live keys as they are.
proof fn lemma_forget(order: Seq<(u64, u64)>, ticks: Map<u64, u64>, key: u64)
    requires
        forall|i: int| 0 <= i < order.len() ==> !(#[trigger] order[i] == (key, ticks[key])),
    ensures
        live_keys(order, ticks.remove(key)) == live_keys(order, ticks),
    decreases order.len(),
{
    if order.len() > 0 {
        let init = order.drop_last();
        assert forall|i: int| 0 <= i < init.len() implies !(#[trigger] init[i] == (
            key,
            ticks[key],
        )) by {
            assert(init[i] == order[i]);
        }
        lemma_forget(init, ticks, key);
        assert(order[order.len() - 1] != (key, ticks[key]));
    }
}

proof fn lemma_without_absent(keys: Seq<u64>, key: u64)
    ensures
        !keys.contains(key) ==> without(keys, key) == keys,
        without(keys, key).len() <= keys.len(),
    decreases keys.len(),
{
    if keys.len() > 0 {
        let init = keys.drop_last();
        lemma_without_absent(init, key);
        if !keys.contains(key) {
            assert(keys[keys.len() - 1] == keys.last());
            assert forall|i: int| 0 <= i < init.len() implies init[i] != key by {
                assert(keys.contains(keys[i]));
            }
            assert(init.push(keys.last()) =~= keys);
        }
    }
}

proof fn lemma_without_removes(keys: Seq<u64>, key: u64, x: u64)
    ensures
        without(keys, key).contains(x) <==> (keys.contains(x) && x != key),
    decreases keys.len(),
{
    if keys.len() > 0 {
        let init = keys.drop_last();
        lemma_without_removes(init, key, x);
        let rest = without(init, key);
        let all = without(keys, key);
        if keys.contains(x) && x != key {
            let i = choose|i: int| 0 <= i < keys.len() && keys[i] == x;
            if i < init.len() {
                assert(init[i] == x);
                let j = choose|j: int| 0 <= j < rest.len() && rest[j] == x;
                assert(all[j] == x);
            } else {
                assert(all[rest.len() as int] == x);
            }
        }
        if all.contains(x) {
            let j = choose|j: int| 0 <= j < all.len() && all[j] == x;
            if j < rest.len() {
                assert(rest[j] == x);
                let i = choose|i: int| 0 <= i < init.len() && init[i] == x;
                assert(keys[i] == x);
            } else {
                assert(keys[keys.len() - 1] == x);
            }
        }
    }
}

impl<V> ImageCache<V> {
    /// The images that the cache holds.
    pub closed spec fn contents(&self) -> Map<u64, V> {
        self.entries@
    }

    /// Their keys, from the least to the most recently used.
    pub closed spec fn recency(&self) -> Seq<u64> {
        live_keys(self.order@, self.ticks@)
    }

    /// How many images the cache may hold.
    pub closed spec fn limit(&self) -> nat {
        self.capacity as nat
    }

    /// How many use records the cache keeps.
    pub closed spec fn records(&self) -> nat {
        self.order@.len()
    }

    /// How many uses the cache has recorded since it was made.
    pub closed spec fn uses(&self) -> nat {
        self.tick as nat
    }

    /// How many use records may pile up before the outdated ones are dropped.
    pub open spec fn record_limit(&self) -> int {
        at_least_one(saturated(self.limit() * ORDER_GC_MULTIPLIER))
    }

    /// The records are consistent with the images, apart from the two size limits.
    closed spec fn consistent(&self) -> bool {
        &&& self.capacity >= 1
        &&& self.entries@.dom() == self.ticks@.dom()
        &&& records_ok(self.order@, self.ticks@, self.tick)
    }

    /// The cache is within both of its limits, and its records are consistent.
    pub closed spec fn wf(&self) -> bool {
        &&& self.consistent()
        &&& self.entries@.dom().len() <= self.capacity
        &&& self.order@.len() <= self.record_limit()
    }

    /// A cache of at most `capacity` images, and of one where that is zero.
    pub fn new(capacity: usize) -> (cache: Self)
        ensures
            cache.wf(),
            cache.contents() == Map::<u64, V>::empty(),
            cache.recency() == Seq::<u64>::empty(),
            cache.limit() == at_least_one(capacity as int),
            cache.uses() == 0,
    {
        let cache = Self {
            capacity: max_one(capacity),
            entries: HashMap::new(),
            ticks: HashMap::new(),
            order: VecDeque::new(),
            tick: 0,
        };
        assert(cache.entries@.dom() =~= cache.ticks@.dom());
        assert(cache.entries@.dom() =~= Set::<u64>::empty());
        cache
    }

    /// What holds of every cache: its images are its recency list, each once, and it keeps to its
    /// limits.
    pub proof fn law_cache_is_bounded(&self)
        requires
            self.wf(),
        ensures
            self.recency().no_duplicates(),
            forall|k: u64| #[trigger]
                self.recency().contains(k) <==> self.contents().contains_key(k),
            self.recency().len() <= self.limit(),
            self.records() <= self.record_limit(),
    {
        lemma_live_keys_are_the_entries(self.order@, self.ticks@, self.tick);
        let keys = self.recency();
        assert forall|k: u64| #[trigger] keys.contains(k) <==> self.contents().contains_key(k) by {
            assert(keys.to_set().contains(k) <==> self.ticks@.dom().contains(k));
            assert(self.entries@.dom().contains(k) <==> self.ticks@.dom().contains(k));
        }
    }

    /// How many images the cache may hold.
    pub fn capacity(&self) -> (r: usize)
        ensures
            r as nat == self.limit(),
    {
        self.capacity
    }

    /// How many images the cache holds.
    pub fn len(&self) -> (r: usize)
        requires
            self.wf(),
        ensures
            r as nat == self.recency().len(),
    {
        broadcast use vstd::std_specs::hash::group_hash_axioms;

        proof {
            lemma_live_keys_are_the_entries(self.order@, self.ticks@, self.tick);
        }
        self.entries.len()
    }

    /// How many use records the cache keeps.
    pub fn order_len(&self) -> (r: usize)
        ensures
            r as nat == self.records(),
    {
        self.order.len()
    }

    /// Drops the outdated records once too many have piled up.
    fn prune_order(&mut self)
        requires
            old(self).consistent(),
            old(self).entries@.dom().len() <= old(self).capacity,
        ensures
            final(self).wf(),
            final(self).capacity == old(self).capacity,
            final(self).tick == old(self).tick,
            final(self).entries@ == old(self).entries@,
            final(self).recency() == old(self).recency(),
    {
        broadcast use vstd::std_specs::hash::group_hash_axioms;

        let max_len: usize = max_one(sat_mul(self.capacity, ORDER_GC_MULTIPLIER));
        if self.order.len() <= max_len {
            return;
        }
        let ghost order = self.order@;
        let ghost ticks = self.ticks@;
        let ghost tick = self.tick;
        let mut pruned: VecDeque<(u64, u64)> = VecDeque::new();
        let mut i: usize = 0;
        while i < self.order.len()
            invariant
                self.order@ == order,
                self.ticks@ == ticks,
                self.tick == tick,
                self.capacity == old(self).capacity,
                self.entries@ == old(self).entries@,
                i <= order.len(),
                records_ok(order, ticks, tick),
                live_keys(pruned@, ticks) == live_keys(order.take(i as int), ticks),
                pruned@.len() == live_keys(order.take(i as int), ticks).len(),
                forall|a: int, b: int| 0 <= a < b < pruned@.len() ==> (#[trigger] pruned@[a]).1
                    < (#[trigger] pruned@[b]).1,
                forall|a: int|
                    0 <= a < pruned@.len() ==> exists|j: int|
                        0 <= j < i && order[j] == #[trigger] pruned@[a],
                forall|j: int|
                    0 <= j < i && is_live(ticks, #[trigger] order[j]) ==> exists|a: int|
                        0 <= a < pruned@.len() && #[trigger] pruned@[a] == order[j],
            decreases order.len() - i,
        {
            broadcast use vstd::std_specs::hash::group_hash_axioms;

            let record: (u64, u64) = self.order[i];
            let live: bool = match self.ticks.get(&record.0) {
                Some(last) => *last == record.1,
                None => false,
            };
            let ghost before = pruned@;
            assert(live == is_live(ticks, record));
            assert(order.take(i + 1).drop_last() =~= order.take(i as int));
            if live {
                pruned.push_back(record);
                assert(pruned@ =~= before.push(record));
                assert(pruned@.drop_last() =~= before);
                assert forall|a: int, b: int| 0 <= a < b < pruned@.len() implies (
                #[trigger] pruned@[a]).1 < (#[trigger] pruned@[b]).1 by {
                    if b == before.len() {
                        let j = choose|j: int| 0 <= j < i && order[j] == before[a];
                        assert(order[j].1 < order[i as int].1);
                    }
                }
            }
            i += 1;
            assert forall|a: int| 0 <= a < pruned@.len() implies exists|j: int|
                0 <= j < i && order[j] == #[trigger] pruned@[a] by {
                if a < before.len() {
                    let j = choose|j: int| 0 <= j < i - 1 && order[j] == before[a];
                    assert(order[j] == pruned@[a]);
                } else {
                    assert(order[i - 1] == pruned@[a]);
                }
            }
            assert forall|j: int| 0 <= j < i && is_live(ticks, #[trigger] order[j]) implies exists|
                a: int,
            | 0 <= a < pruned@.len() && #[trigger] pruned@[a] == order[j] by {
                if j < i - 1 {
                    let a = choose|a: int| 0 <= a < before.len() && #[trigger] before[a] == order[j];
                    assert(pruned@[a] == order[j]);
                } else {
                    assert(pruned@[before.len() as int] == order[j]);
                }
            }
        }
        assert(order.take(i as int) =~= order);
        proof {
            lemma_live_keys_are_the_entries(order, ticks, tick);
            assert forall|k: u64| #[trigger] ticks.contains_key(k) implies exists|a: int|
                0 <= a < pruned@.len() && #[trigger] pruned@[a] == (k, ticks[k]) by {
                let j = choose|j: int| 0 <= j < order.len() && #[trigger] order[j] == (k, ticks[k]);
                assert(is_live(ticks, order[j]));
            }
            assert forall|a: int| 0 <= a < pruned@.len() implies (#[trigger] pruned@[a]).1 <= tick
                && (ticks.contains_key(pruned@[a].0) ==> pruned@[a].1 <= ticks[pruned@[a].0]) by {
                let j = choose|j: int| 0 <= j < order.len() && order[j] == pruned@[a];
            }
            assert(records_ok(pruned@, ticks, tick));
            assert(self.entries@.dom() == ticks.dom());
            assert(self.capacity <= self.record_limit()) by (nonlinear_arith)
                requires
                    self.record_limit() == at_least_one(
                        saturated(self.capacity as nat * ORDER_GC_MULTIPLIER),
                    ),
                    ORDER_GC_MULTIPLIER == 4,
                    self.capacity <= usize::MAX,
            ;
        }
        self.order = pruned;
    }

    /// The image of `key`. A hit makes it the most recently used one; a miss changes nothing.
    pub fn get(&mut self, key: u64) -> (image: Option<&V>)
        requires
            old(self).wf(),
            old(self).uses() < u64::MAX,
        ensures
            final(self).wf(),
            final(self).limit() == old(self).limit(),
            final(self).contents() == old(self).contents(),
            match image {
                Some(v) => {
                    &&& old(self).contents().contains_key(key)
                    &&& old(self).contents()[key] == *v
                    &&& final(self).recency() == used(old(self).recency(), key)
                    &&& final(self).uses() == old(self).uses() + 1
                },
                None => !old(self).contents().contains_key(key) && *final(self) == *old(self),
            },
    {
        self.touch(key);
        self.peek(key)
    }

    /// Makes `key` the most recently used image, where the cache holds it.
    pub fn touch(&mut self, key: u64) -> (hit: bool)
        requires
            old(self).wf(),
            old(self).uses() < u64::MAX,
        ensures
            final(self).wf(),
            final(self).limit() == old(self).limit(),
            final(self).contents() == old(self).contents(),
            hit == old(self).contents().contains_key(key),
            hit ==> final(self).recency() == used(old(self).recency(), key)
                && final(self).uses() == old(self).uses() + 1,
            !hit ==> *final(self) == *old(self),
    {
        broadcast use vstd::std_specs::hash::group_hash_axioms;

        if !self.entries.contains_key(&key) {
            return false;
        }
        self.record_use(key);
        assert(self.entries@.dom() =~= self.ticks@.dom());
        self.prune_order();
        true
    }

    /// Records a use of `key`, which then has an entry.
    fn record_use(&mut self, key: u64)
        requires
            old(self).tick < u64::MAX,
            records_ok(old(self).order@, old(self).ticks@, old(self).tick),
        ensures
            records_ok(final(self).order@, final(self).ticks@, final(self).tick),
            final(self).ticks@ == old(self).ticks@.insert(key, final(self).tick),
            final(self).order@ == old(self).order@.push((key, final(self).tick)),
            final(self).tick == old(self).tick + 1,
            final(self).capacity == old(self).capacity,
            final(self).entries == old(self).entries,
            final(self).recency() == used(old(self).recency(), key),
    {
        broadcast use vstd::std_specs::hash::group_hash_axioms;

        let ghost order = self.order@;
        let ghost ticks = self.ticks@;
        self.tick = self.tick + 1;
        let tick: u64 = self.tick;
        self.ticks.insert(key, tick);
        self.order.push_back((key, tick));
        proof {
            let now = self.order@;
            assert(now =~= order.push((key, tick)));
            assert(now.drop_last() =~= order);
            lemma_fresh_tick(order, ticks, key, tick);
            assert forall|k: u64| #[trigger] self.ticks@.contains_key(k) implies exists|i: int|
                0 <= i < now.len() && #[trigger] now[i] == (k, self.ticks@[k]) by {
                if k == key {
                    assert(now[order.len() as int] == (k, self.ticks@[k]));
                } else {
                    assert(ticks.contains_key(k));
                    let i = choose|i: int|
                        0 <= i < order.len() && #[trigger] order[i] == (k, ticks[k]);
                    assert(now[i] == (k, self.ticks@[k]));
                }
            }
            assert forall|i: int, j: int| 0 <= i < j < now.len() implies (#[trigger] now[i]).1 < (
            #[trigger] now[j]).1 by {
                if j == order.len() {
                    assert(order[i].1 <= old(self).tick);
                }
            }
            assert forall|i: int|
                0 <= i < now.len() && self.ticks@.contains_key(
                    (#[trigger] now[i]).0,
                ) implies now[i].1 <= self.ticks@[now[i].0] by {
                if i < order.len() {
                    assert(order[i].1 <= old(self).tick);
                }
            }
        }
    }

    /// Puts an image into the cache as the most recently used one, and evicts the least recently
    /// used one where the cache is over its limit.
    pub fn insert(&mut self, key: u64, image: V)
        requires
            old(self).wf(),
            old(self).uses() < u64::MAX,
        ensures
            final(self).wf(),
            final(self).limit() == old(self).limit(),
            final(self).uses() == old(self).uses() + 1,
            final(self).recency() == newest(
                used(old(self).recency(), key),
                old(self).limit() as int,
            ),
            forall|k: u64| #[trigger]
                final(self).contents().contains_key(k) <==> final(self).recency().contains(k),
            forall|k: u64| #[trigger]
                final(self).contents().contains_key(k) ==> final(self).contents()[k] == old(
                    self,
                ).contents().insert(key, image)[k],
    {
        broadcast use vstd::std_specs::hash::group_hash_axioms;

        proof {
            lemma_live_keys_are_the_entries(self.order@, self.ticks@, self.tick);
            lemma_without_absent(self.recency(), key);
        }
        self.record_use(key);
        self.entries.insert(key, image);
        assert(self.entries@.dom() =~= self.ticks@.dom());
        let ghost keys = self.recency();
        proof {
            lemma_live_keys_are_the_entries(self.order@, self.ticks@, self.tick);
        }
        if self.entries.len() > self.capacity {
            self.evict_oldest();
        }
        assert(self.recency() == newest(keys, self.capacity as int));
        self.prune_order();
        proof {
            self.law_cache_is_bounded();
        }
    }

    /// Drops the least recently used image, and the outdated records in front of its own.
    fn evict_oldest(&mut self)
        requires
            old(self).consistent(),
            old(self).recency().len() > 0,
        ensures
            final(self).consistent(),
            final(self).capacity == old(self).capacity,
            final(self).tick == old(self).tick,
            final(self).recency() == old(self).recency().skip(1),
            final(self).entries@ == old(self).entries@.remove(old(self).recency()[0]),
            final(self).entries@.dom().len() == old(self).recency().len() - 1,
    {
        broadcast use vstd::std_specs::hash::group_hash_axioms;

        let ghost keys = self.recency();
        loop
            invariant_except_break
                self.consistent(),
                self.recency() == keys,
                self.entries@ == old(self).entries@,
            invariant
                self.capacity == old(self).capacity,
                self.tick == old(self).tick,
                keys == old(self).recency(),
                keys.len() > 0,
            ensures
                self.consistent(),
                self.recency() == keys.skip(1),
                self.entries@ == old(self).entries@.remove(keys[0]),
            decreases self.order@.len(),
        {
            broadcast use vstd::std_specs::hash::group_hash_axioms;

            let ghost order = self.order@;
            let ghost ticks = self.ticks@;
            let ghost rest = order.skip(1);
            assert(order.len() > 0) by {
                if order.len() == 0 {
                    assert(live_keys(order, ticks) =~= Seq::<u64>::empty());
                }
            }
            proof {
                lemma_live_keys_front(order, ticks);
            }
            let record: (u64, u64) = match self.order.pop_front() {
                Some(record) => record,
                None => (0, 0),
            };
            assert(self.order@ =~= rest);
            assert(record == order[0]);
            assert forall|i: int| 0 <= i < rest.len() implies rest[i] == #[trigger] order[i + 1] by {}
            let live: bool = match self.ticks.get(&record.0) {
                Some(last) => *last == record.1,
                None => false,
            };
            assert(live == is_live(ticks, record));
            assert forall|i: int, j: int| 0 <= i < j < rest.len() implies (#[trigger] rest[i]).1 < (
            #[trigger] rest[j]).1 by {
                assert(order[i + 1].1 < order[j + 1].1);
            }
            assert forall|i: int| 0 <= i < rest.len() implies (#[trigger] rest[i]).1 <= self.tick
                && (ticks.contains_key(rest[i].0) ==> rest[i].1 <= ticks[rest[i].0]) by {
                assert(order[i + 1] == rest[i]);
            }
            if live {
                let key: u64 = record.0;
                self.entries.remove(&key);
                self.ticks.remove(&key);
                proof {
                    assert forall|i: int| 0 <= i < rest.len() implies !(#[trigger] rest[i] == (
                        key,
                        ticks[key],
                    )) by {
                        assert(order[0].1 < order[i + 1].1);
                    }
                    lemma_forget(rest, ticks, key);
                    assert(self.ticks@ =~= ticks.remove(key));
                    assert(keys =~= seq![key] + live_keys(rest, ticks));
                    assert(keys.skip(1) =~= live_keys(rest, ticks));
                    assert forall|k: u64| #[trigger] self.ticks@.contains_key(k) implies exists|
                        i: int,
                    | 0 <= i < rest.len() && #[trigger] rest[i] == (k, self.ticks@[k]) by {
                        assert(ticks.contains_key(k));
                        let i = choose|i: int|
                            0 <= i < order.len() && #[trigger] order[i] == (k, ticks[k]);
                        assert(i > 0);
                        assert(rest[i - 1] == (k, self.ticks@[k]));
                    }
                    assert(self.entries@.dom() =~= self.ticks@.dom());
                    assert(self.entries@ =~= old(self).entries@.remove(keys[0]));
                }
                break;
            }
            proof {
                assert(Seq::<u64>::empty() + live_keys(rest, ticks) =~= live_keys(rest, ticks));
                assert forall|k: u64| #[trigger] ticks.contains_key(k) implies exists|i: int|
                    0 <= i < rest.len() && #[trigger] rest[i] == (k, ticks[k]) by {
                    let i = choose|i: int|
                        0 <= i < order.len() && #[trigger] order[i] == (k, ticks[k]);
                    assert(i > 0);
                    assert(rest[i - 1] == (k, ticks[k]));
                }
            }
        }
        proof {
            lemma_live_keys_are_the_entries(self.order@, self.ticks@, self.tick);
        }
    }

    /// The cached image of `key`.
    pub fn peek(&self, key: u64) -> (image: Option<&V>)
        ensures
            match image {
                Some(v) => self.contents().contains_key(key) && self.contents()[key] == *v,
                None => !self.contents().contains_key(key),
            },
    {
        broadcast use vstd::std_specs::hash::group_hash_axioms;

        self.entries.get(&key)
    }
}

/// An image that was just used is the last one to be evicted, and the others keep their order.
pub proof fn law_use_moves_to_the_end(keys: Seq<u64>, key: u64, x: u64)
    ensures
        used(keys, key).last() == key,
        used(keys, key).contains(x) <==> (keys.contains(x) || x == key),
        !keys.contains(key) ==> used(keys, key) == keys.push(key),
{
    lemma_without_absent(keys, key);
    lemma_without_removes(keys, key, x);
    let rest = without(keys, key);
    let all = used(keys, key);
    if rest.contains(x) {
        let i = choose|i: int| 0 <= i < rest.len() && rest[i] == x;
        assert(all[i] == x);
    }
    if x == key {
        assert(all[rest.len() as int] == x);
    }
    if all.contains(x) && x != key {
        let i = choose|i: int| 0 <= i < all.len() && all[i] == x;
        assert(rest[i] == x);
    }
}

/// Taking a key out leaves all the others, in their order.
pub proof fn law_the_others_keep_their_order(keys: Seq<u64>, key: u64)
    ensures
        without(keys, key) == keys.filter(|k: u64| k != key),
        used(keys, key) == keys.filter(|k: u64| k != key) + seq![key],
    decreases keys.len(),
{
    reveal(Seq::filter);
    if keys.len() > 0 {
        law_the_others_keep_their_order(keys.drop_last(), key);
    }
    assert(without(keys, key).push(key) =~= without(keys, key) + seq![key]);
}

/// A cache over its limit gives up its least recently used images, and no more than it has to.
pub proof fn law_the_oldest_are_given_up(keys: Seq<u64>, capacity: nat)
    ensures
        exists|dropped: Seq<u64>|
            #[trigger] (dropped + newest(keys, capacity as int)) == keys && (dropped.len() > 0
                ==> newest(keys, capacity as int).len() == capacity),
        newest(keys, capacity as int).len() <= capacity,
        keys.len() <= capacity ==> newest(keys, capacity as int) == keys,
{
    if keys.len() > capacity {
        let dropped = keys.take(keys.len() - capacity);
        assert(dropped + newest(keys, capacity as int) =~= keys);
    } else {
        let dropped = Seq::<u64>::empty();
        assert(dropped + newest(keys, capacity as int) =~= keys);
    }
}

} // verus!
