//! A frame cache: values kept from one frame to the next while they are used.
//!
//! Each entry remembers the generation (frame) in which it was last used.
//! `evict_cache`, called once per frame, drops the entries that have not been
//! used for more than `TTL` generations and starts a new generation; the
//! generation counter wraps around, and ages are measured modulo 2^32.

use std::collections::HashMap;
use std::hash::Hash;
use vstd::prelude::*;
use vstd::std_specs::iter::IteratorSpec;

verus! {

broadcast use vstd::std_specs::hash::group_hash_axioms;

/// A frame counter.
pub type Generation = u32;

/// How many generations ago `then` was, seen from `now`: `now - then` modulo
/// 2^32, as `u32::wrapping_sub` computes it.
pub open spec fn age(now: u32, then: u32) -> int {
    if now >= then {
        now - then
    } else {
        now - then + 0x1_0000_0000
    }
}

/// The generation after `g`, wrapping to 0 after `u32::MAX`.
pub open spec fn next_generation(g: u32) -> u32 {
    if g == u32::MAX {
        0
    } else {
        (g + 1) as u32
    }
}

/// The entries that survive an eviction at generation `now`: those used at
/// most `ttl` generations ago.
pub open spec fn surviving<V>(entries: Map<u64, (u32, V)>, now: u32, ttl: u32) -> Map<u64, (u32, V)> {
    entries.restrict(entries.dom().filter(|k: u64| age(now, entries[k].0) <= ttl))
}

/// A cache of values by hash, dropping what has not been used recently.
pub struct FrameCacheDyn<Value, const TTL: u32> {
    generation: Generation,
    cache: HashMap<u64, (Generation, Value)>,
}

impl<Value, const TTL: u32> FrameCacheDyn<Value, TTL> {
    /// The current generation.
    pub closed spec fn spec_generation(&self) -> u32 {
        self.generation
    }

    /// The entries: hash to the generation of last use and the value.
    pub closed spec fn spec_entries(&self) -> Map<u64, (u32, Value)> {
        self.cache@
    }

    /// An empty cache at generation 0.
    pub fn new() -> (r: Self)
        ensures
            r.spec_generation() == 0,
            r.spec_entries() == Map::<u64, (u32, Value)>::empty(),
            r.spec_entries().dom().finite(),
    {
        FrameCacheDyn { generation: 0, cache: HashMap::new() }
    }

    /// The number of entries.
    pub fn len(&self) -> (n: usize)
        ensures
            n == self.spec_entries().len(),
            self.spec_entries().dom().finite(),
    {
        self.cache.len()
    }

    /// The current generation.
    pub fn generation(&self) -> (g: u32)
        ensures
            g == self.spec_generation(),
    {
        self.generation
    }

    /// Must be called once per frame to clear the cache: drops every entry last
    /// used more than `TTL` generations ago, then moves to the next generation.
    pub fn evict_cache(&mut self)
        ensures
            final(self).spec_entries() == surviving(
                old(self).spec_entries(),
                old(self).spec_generation(),
                TTL,
            ),
            final(self).spec_generation() == next_generation(old(self).spec_generation()),
            old(self).spec_entries().dom().finite(),
            final(self).spec_entries().dom().finite(),
            final(self).spec_entries().len() <= old(self).spec_entries().len(),
    {
        let current_generation = self.generation;
        let ghost entries = self.cache@;
        let mut stale: Vec<u64> = Vec::new();
        let ghost mut seen: Set<u64> = Set::empty();
        proof {
            assert(self.cache.keys().remaining().unref().to_set() == entries.dom());
        }
        for key in it: self.cache.keys()
            invariant
                self.cache@ == entries,
                seen == it.seq().take(it.index()).unref().to_set(),
                it.seq().take(it.seq().len() as int) =~= it.seq(),
                self.generation == current_generation,
                it.seq().unref().to_set() == entries.dom(),
                forall|j: int|
                    0 <= j < stale@.len() ==> entries.contains_key(#[trigger] stale@[j]) && age(
                        current_generation,
                        entries[stale@[j]].0,
                    ) > TTL,
                forall|k: u64|
                    #[trigger] seen.contains(k) && entries.contains_key(k) && age(
                        current_generation,
                        entries[k].0,
                    ) > TTL ==> stale@.contains(k),
            ensures
                seen == entries.dom(),
        {
            let ghost stale_before = stale@;
            match self.cache.get(key) {
                Some(entry) => {
                    proof {
                        assert(entries.contains_key(*key) && entries[*key] == *entry);
                    }
                    if current_generation.wrapping_sub(entry.0) > TTL {
                        stale.push(*key);
                        proof {
                            assert(stale@.last() == *key);
                        }
                    }
                },
                None => {},
            }
            proof {
                assert forall|k: u64| #[trigger] stale_before.contains(k) implies stale@.contains(k) by {
                    let t = choose|t: int| 0 <= t < stale_before.len() && stale_before[t] == k;
                    assert(stale@[t] == k);
                }
                seen = seen.insert(*key);
                assert(*it.seq()[it.index()] == *key);
                assert(it.seq().take(it.index() + 1).unref() =~= it.seq().take(it.index()).unref().push(*key));
                it.seq().take(it.index()).unref().lemma_push_to_set_commute(*key);
            }
        }
        let ghost stale_set = stale@.to_set();
        proof {
            assert forall|k: u64|
                entries.contains_key(k) && age(current_generation, entries[k].0) > TTL implies stale_set.contains(k) by {
                assert(seen.contains(k));
            }
        }
        for j in 0..stale.len()
            invariant
                self.generation == current_generation,
                forall|t: int|
                    0 <= t < stale@.len() ==> entries.contains_key(#[trigger] stale@[t]) && age(
                        current_generation,
                        entries[stale@[t]].0,
                    ) > TTL,
                self.cache@ == entries.remove_keys(stale@.take(j as int).to_set()),
        {
            let ghost before = self.cache@;
            self.cache.remove(&stale[j]);
            proof {
                assert(stale@.take(j + 1) == stale@.take(j as int).push(stale@[j as int]));
                stale@.take(j as int).lemma_push_to_set_commute(stale@[j as int]);
                assert(stale@.take(j + 1).to_set() =~= stale@.take(j as int).to_set().insert(
                    stale@[j as int],
                ));
                assert(self.cache@ =~= entries.remove_keys(stale@.take(j + 1).to_set()));
            }
        }
        proof {
            assert(stale@.take(stale@.len() as int) == stale@);
            let surv = surviving(entries, current_generation, TTL);
            assert forall|k: u64| stale_set.contains(k) implies entries.contains_key(k) && age(current_generation, entries[k].0) > TTL by {
                let t = choose|t: int| 0 <= t < stale@.len() && stale@[t] == k;
                assert(entries.contains_key(stale@[t]));
            }
            assert(self.cache@ =~= surv);
            assert(surv.dom().subset_of(entries.dom()));
            vstd::set_lib::lemma_len_subset(surv.dom(), entries.dom());
        }
        self.generation = self.generation.wrapping_add(1);
    }
}

impl<Value, const TTL: u32> Default for FrameCacheDyn<Value, TTL> {
    /// An empty cache at generation 0, as `new` makes it.
    fn default() -> (r: Self)
        ensures
            r.spec_generation() == 0,
            r.spec_entries() == Map::<u64, (u32, Value)>::empty(),
            r.spec_entries().dom().finite(),
    {
        Self::new()
    }
}

/// What looking up `h` does to a cache that held `before` at generation
/// `generation`, leaving `after` and returning `r`: an entry for `h` is marked
/// as used now and a clone of its value returned; a missing entry is computed
/// by `computer`, stored (as a clone) and returned.
pub open spec fn lookup_outcome<Value: Clone, F: FnOnce() -> Value>(
    before: Map<u64, (u32, Value)>,
    generation: u32,
    after: Map<u64, (u32, Value)>,
    h: u64,
    computer: F,
    r: Value,
) -> bool {
    if before.contains_key(h) {
        &&& after == before.insert(h, (generation, before[h].1))
        &&& cloned(before[h].1, r)
    } else {
        &&& call_ensures(computer, (), r)
        &&& after.contains_key(h)
        &&& after == before.insert(h, (generation, after[h].1))
        &&& cloned(r, after[h].1)
    }
}

impl<Value: Clone, const TTL: u32> FrameCacheDyn<Value, TTL> {
    /// Get from cache (if the same hash was used recently) or compute with
    /// `computer` and store in the cache.
    pub fn get_or_else_insert_hashed<F: FnOnce() -> Value>(&mut self, hash: u64, computer: F) -> (r:
        Value)
        requires
            call_requires(computer, ()),
        ensures
            final(self).spec_generation() == old(self).spec_generation(),
            lookup_outcome(
                old(self).spec_entries(),
                old(self).spec_generation(),
                final(self).spec_entries(),
                hash,
                computer,
                r,
            ),
            old(self).spec_entries().dom().finite(),
            final(self).spec_entries().dom().finite(),
            final(self).spec_entries().len() == old(self).spec_entries().len() + if old(
                self,
            ).spec_entries().contains_key(hash) {
                0int
            } else {
                1int
            },
    {
        let ghost before = self.cache@;
        match self.cache.remove(&hash) {
            Some(entry) => {
                let (_, value) = entry;
                let out = value.clone();
                proof {
                    assert(before.contains_key(hash) && before[hash].1 == value);
                    assert(cloned(value, out));
                }
                self.cache.insert(hash, (self.generation, value));
                proof {
                    assert(self.cache@ =~= before.insert(hash, (self.generation, before[hash].1)));
                }
                out
            },
            None => {
                let value = computer();
                let stored = value.clone();
                proof {
                    assert(!before.contains_key(hash));
                    assert(cloned(value, stored));
                }
                self.cache.insert(hash, (self.generation, stored));
                proof {
                    assert(self.cache@ =~= before.insert(hash, (self.generation, stored)));
                }
                value
            },
        }
    }

    /// Get from cache (if the same key was used recently) or compute with
    /// `computer` and store in the cache. The key is looked up by its hash.
    pub fn get_or_else_insert<Key: Hash + Copy, F: FnOnce() -> Value>(
        &mut self,
        key: Key,
        computer: F,
    ) -> (r: Value)
        requires
            call_requires(computer, ()),
        ensures
            final(self).spec_generation() == old(self).spec_generation(),
            exists|h: u64|
                #[trigger] lookup_outcome(
                    old(self).spec_entries(),
                    old(self).spec_generation(),
                    final(self).spec_entries(),
                    h,
                    computer,
                    r,
                ) && final(self).spec_entries().len() == old(self).spec_entries().len() + if old(
                    self,
                ).spec_entries().contains_key(h) {
                    0int
                } else {
                    1int
                },
            old(self).spec_entries().dom().finite(),
            final(self).spec_entries().dom().finite(),
    {
        let hash = hash_key(key);
        self.get_or_else_insert_hashed(hash, computer)
    }
}

/// `egui::util::hash`: a 64-bit hash of `key`, by `ahash` with fixed seeds.
/// What it returns depends on how `ahash` was built for the machine (it uses
/// hardware AES where available), so nothing is stated of its result.
#[verifier::external_body]
fn hash_key<Key: Hash>(key: Key) -> u64 {
    egui::util::hash(key)
}

/// A value looked up in some generation is still cached after the eviction
/// that ends that generation, whatever the time to live.
pub proof fn law_lookup_survives_eviction<Value: Clone, F: FnOnce() -> Value>(
    before: Map<u64, (u32, Value)>,
    generation: u32,
    after: Map<u64, (u32, Value)>,
    h: u64,
    computer: F,
    r: Value,
    ttl: u32,
)
    requires
        lookup_outcome(before, generation, after, h, computer, r),
    ensures
        surviving(after, generation, ttl).contains_key(h),
        surviving(after, generation, ttl)[h] == after[h],
{
    assert(after.contains_key(h));
    assert(age(generation, after[h].0) == 0);
}

/// Looking up the same hash twice computes nothing the second time: the second
/// lookup returns a clone of what the first one left in the cache, and leaves
/// the cache as it was.
pub proof fn law_second_lookup_hits<Value: Clone, F: FnOnce() -> Value, G: FnOnce() -> Value>(
    before: Map<u64, (u32, Value)>,
    generation: u32,
    middle: Map<u64, (u32, Value)>,
    after: Map<u64, (u32, Value)>,
    h: u64,
    first: F,
    r1: Value,
    second: G,
    r2: Value,
)
    requires
        lookup_outcome(before, generation, middle, h, first, r1),
        lookup_outcome(middle, generation, after, h, second, r2),
    ensures
        middle.contains_key(h),
        cloned(middle[h].1, r2),
        after == middle,
{
    assert(middle.contains_key(h));
    assert(after =~= middle);
}

/// An entry survives an eviction exactly when it was last used at most `ttl`
/// generations before; eviction never adds or changes entries.
pub proof fn law_eviction_keeps_recent_entries<Value>(
    entries: Map<u64, (u32, Value)>,
    now: u32,
    ttl: u32,
    h: u64,
)
    ensures
        surviving(entries, now, ttl).contains_key(h) <==> entries.contains_key(h) && age(
            now,
            entries[h].0,
        ) <= ttl,
        surviving(entries, now, ttl).contains_key(h) ==> surviving(entries, now, ttl)[h]
            == entries[h],
{
}

/// The entries left after `m` evictions starting at generation `g`.
pub open spec fn entries_after_evictions<V>(
    entries: Map<u64, (u32, V)>,
    g: u32,
    ttl: u32,
    m: nat,
) -> Map<u64, (u32, V)>
    decreases m,
{
    if m == 0 {
        entries
    } else {
        entries_after_evictions(surviving(entries, g, ttl), next_generation(g), ttl, (m - 1) as nat)
    }
}

/// The generation after `m` evictions starting at generation `g`.
pub open spec fn generation_after_evictions(g: u32, m: nat) -> u32
    decreases m,
{
    if m == 0 {
        g
    } else {
        generation_after_evictions(next_generation(g), (m - 1) as nat)
    }
}

/// One generation later is one generation older, while the age stays below
/// 2^32.
proof fn lemma_age_step(g: u32, then: u32)
    requires
        age(g, then) + 1 < 0x1_0000_0000,
    ensures
        age(next_generation(g), then) == age(g, then) + 1,
{
}

/// An entry that is gone stays gone through further evictions.
proof fn lemma_gone_stays_gone<V>(entries: Map<u64, (u32, V)>, g: u32, ttl: u32, m: nat, h: u64)
    requires
        !entries.contains_key(h),
    ensures
        !entries_after_evictions(entries, g, ttl, m).contains_key(h),
    decreases m,
{
    if m > 0 {
        lemma_gone_stays_gone(surviving(entries, g, ttl), next_generation(g), ttl, (m - 1) as nat, h);
    }
}

/// An entry of age `i` survives `m` more evictions exactly when it is at most
/// `ttl` generations old at the last of them, and is then unchanged.
proof fn lemma_survives_evictions<V>(
    entries: Map<u64, (u32, V)>,
    g: u32,
    ttl: u32,
    m: nat,
    h: u64,
)
    requires
        entries.contains_key(h),
        age(g, entries[h].0) + m < 0x1_0000_0000,
    ensures
        entries_after_evictions(entries, g, ttl, m).contains_key(h) <==> (m == 0 || age(
            g,
            entries[h].0,
        ) + m - 1 <= ttl),
        entries_after_evictions(entries, g, ttl, m).contains_key(h) ==> entries_after_evictions(
            entries,
            g,
            ttl,
            m,
        )[h] == entries[h],
    decreases m,
{
    if m > 0 {
        let s = surviving(entries, g, ttl);
        let m1 = (m - 1) as nat;
        if age(g, entries[h].0) <= ttl {
            assert(s.contains_key(h) && s[h] == entries[h]);
            lemma_age_step(g, entries[h].0);
            lemma_survives_evictions(s, next_generation(g), ttl, m1, h);
        } else {
            assert(!s.contains_key(h));
            lemma_gone_stays_gone(s, next_generation(g), ttl, m1, h);
        }
    }
}

/// A key looked up in some generation and then left alone through `m`
/// evictions (`m < 2^32`) is still cached exactly when `m <= ttl + 1`, so a key
/// used in the previous frame is always a hit. The next lookup of it then
/// returns a clone of what the first lookup stored and computes nothing;
/// otherwise it calls its `computer` and returns that value.
pub proof fn law_hit_after_evictions<Value: Clone, F: FnOnce() -> Value, G: FnOnce() -> Value>(
    before: Map<u64, (u32, Value)>,
    generation: u32,
    stored: Map<u64, (u32, Value)>,
    h: u64,
    first: F,
    r1: Value,
    ttl: u32,
    m: nat,
    after: Map<u64, (u32, Value)>,
    second: G,
    r2: Value,
)
    requires
        lookup_outcome(before, generation, stored, h, first, r1),
        m < 0x1_0000_0000,
        lookup_outcome(
            entries_after_evictions(stored, generation, ttl, m),
            generation_after_evictions(generation, m),
            after,
            h,
            second,
            r2,
        ),
    ensures
        stored.contains_key(h),
        entries_after_evictions(stored, generation, ttl, m).contains_key(h) <==> m <= ttl + 1,
        m <= ttl + 1 ==> cloned(stored[h].1, r2),
        m > ttl + 1 ==> call_ensures(second, (), r2),
{
    assert(stored.contains_key(h));
    assert(age(generation, stored[h].0) == 0);
    lemma_survives_evictions(stored, generation, ttl, m, h);
}

} // verus!
