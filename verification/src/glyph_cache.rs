//! The rasterized-glyph cache: a second-chance (CLOCK) cache. A hit only flags
//! its entry; when the cache is full, the sweep gives each flagged entry one
//! more lap and evicts the first unflagged one, so a burst of unique glyphs does
//! not push out the working set that every frame draws.
//!
//! The slots live in one queue, in sweep order, searched by key, rather than
//! in a hash map beside an order queue: the keys' `Hash` and `Eq` come from
//! `derive`, which Verus does not read, so lookups in such a map could not be
//! proved, while the search over the queue compares keys field by field.

use vstd::prelude::*;
use std::collections::VecDeque;
use std::sync::Arc;
use crate::fonts::GlyphCacheKey;

verus! {

/// One cached glyph, in sweep order.
pub struct CacheSlot<V> {
    pub key: GlyphCacheKey,
    pub bitmap: Arc<V>,
    /// Set on every hit and cleared when the sweep passes over the entry.
    pub referenced: bool,
}

/// A glyph cache holding at most `capacity` bitmaps.
pub struct GlyphCache<V> {
    capacity: usize,
    slots: VecDeque<CacheSlot<V>>,
}

/// A slot with its flag cleared.
pub open spec fn unflagged<V>(slot: CacheSlot<V>) -> CacheSlot<V> {
    CacheSlot { key: slot.key, bitmap: slot.bitmap, referenced: false }
}

pub open spec fn cleared<V>(s: Seq<CacheSlot<V>>) -> Seq<CacheSlot<V>> {
    s.map_values(|slot: CacheSlot<V>| unflagged(slot))
}

/// The index of the first unflagged slot at or after `i`, or the length.
pub open spec fn first_unflagged_from<V>(s: Seq<CacheSlot<V>>, i: int) -> int
    decreases s.len() - i,
{
    if i >= s.len() {
        s.len() as int
    } else if !s[i].referenced {
        i
    } else {
        first_unflagged_from(s, i + 1)
    }
}

/// One sweep of a non-empty queue: the flagged slots before the first unflagged
/// one move to the back with their flags cleared, and that unflagged slot leaves.
/// When every slot is flagged, a whole lap clears them and the first one leaves.
pub open spec fn after_sweep<V>(s: Seq<CacheSlot<V>>) -> Seq<CacheSlot<V>> {
    let j = first_unflagged_from(s, 0);
    if j < s.len() {
        s.subrange(j + 1, s.len() as int) + cleared(s.subrange(0, j))
    } else {
        cleared(s).drop_first()
    }
}

/// The queue after a new slot enters a cache of `capacity`: a full cache sweeps
/// first.
pub open spec fn after_insert<V>(s: Seq<CacheSlot<V>>, capacity: int, slot: CacheSlot<V>) -> Seq<CacheSlot<V>> {
    if s.len() >= capacity {
        after_sweep(s).push(slot)
    } else {
        s.push(slot)
    }
}

pub open spec fn holds_key<V>(s: Seq<CacheSlot<V>>, key: GlyphCacheKey) -> bool {
    exists|i: int| 0 <= i < s.len() && (#[trigger] s[i]).key == key
}

pub open spec fn distinct_keys<V>(s: Seq<CacheSlot<V>>) -> bool {
    forall|i: int, j: int| 0 <= i < j < s.len() ==> (#[trigger] s[i]).key != (#[trigger] s[j]).key
}

/// `Arc::clone`: another handle to the same allocation, so the same value.
#[verifier::external_body]
pub(crate) fn share<V>(bitmap: &Arc<V>) -> (r: Arc<V>)
    ensures
        r == *bitmap,
{
    Arc::clone(bitmap)
}

proof fn lemma_first_unflagged_skip<V>(s: Seq<CacheSlot<V>>, t: int)
    requires
        0 <= t <= s.len(),
        forall|i: int| 0 <= i < t ==> (#[trigger] s[i]).referenced,
    ensures
        first_unflagged_from(s, 0) == first_unflagged_from(s, t),
    decreases t,
{
    if t > 0 {
        lemma_first_unflagged_skip(s, t - 1);
        assert(s[t - 1].referenced);
    }
}

/// Where slot `i` of a swept queue came from.
pub open spec fn sweep_source<V>(s: Seq<CacheSlot<V>>, i: int) -> int {
    let j = first_unflagged_from(s, 0);
    let n = s.len() as int;
    if j < n {
        if i < n - j - 1 {
            j + 1 + i
        } else {
            i - (n - j - 1)
        }
    } else {
        i + 1
    }
}

proof fn lemma_first_unflagged_bounds<V>(s: Seq<CacheSlot<V>>, i: int)
    requires
        0 <= i <= s.len(),
    ensures
        i <= first_unflagged_from(s, i) <= s.len(),
    decreases s.len() - i,
{
    if i < s.len() && s[i].referenced {
        lemma_first_unflagged_bounds(s, i + 1);
    }
}

/// A sweep drops exactly one slot and keeps the keys of the others, each once.
proof fn lemma_after_sweep<V>(s: Seq<CacheSlot<V>>)
    requires
        s.len() >= 1,
        distinct_keys(s),
    ensures
        after_sweep(s).len() == s.len() - 1,
        forall|i: int| 0 <= i < after_sweep(s).len() ==> 0 <= sweep_source(s, i) < s.len()
            && (#[trigger] after_sweep(s)[i]).key == s[sweep_source(s, i)].key
            && after_sweep(s)[i].bitmap == s[sweep_source(s, i)].bitmap,
        distinct_keys(after_sweep(s)),
        forall|k: GlyphCacheKey| #[trigger] holds_key(after_sweep(s), k) ==> holds_key(s, k),
{
    let r = after_sweep(s);
    let n = s.len() as int;
    let j = first_unflagged_from(s, 0);
    lemma_first_unflagged_bounds(s, 0);
    assert forall|i: int| 0 <= i < r.len() implies 0 <= sweep_source(s, i) < s.len()
        && (#[trigger] r[i]).key == s[sweep_source(s, i)].key
        && r[i].bitmap == s[sweep_source(s, i)].bitmap by {
        if j < n {
            if i < n - j - 1 {
                assert(r[i] == s.subrange(j + 1, n)[i]);
            } else {
                assert(r[i] == cleared(s.subrange(0, j))[i - (n - j - 1)]);
            }
        } else {
            assert(r[i] == cleared(s)[i + 1]);
        }
    }
    assert forall|a: int, b: int| 0 <= a < b < r.len() implies (#[trigger] r[a]).key != (#[trigger] r[b]).key by {
        let sa = sweep_source(s, a);
        let sb = sweep_source(s, b);
        assert(sa != sb);
        if sa < sb {
            assert(s[sa].key != s[sb].key);
        } else {
            assert(s[sb].key != s[sa].key);
        }
    }
    assert forall|k: GlyphCacheKey| #[trigger] holds_key(r, k) implies holds_key(s, k) by {
        let i = choose|i: int| 0 <= i < r.len() && (#[trigger] r[i]).key == k;
        assert(s[sweep_source(s, i)].key == k);
    }
}

proof fn lemma_first_unflagged_at_most<V>(s: Seq<CacheSlot<V>>, i: int, u: int)
    requires
        0 <= i <= u < s.len(),
        !s[u].referenced,
    ensures
        first_unflagged_from(s, i) <= u,
    decreases u - i,
{
    if i < u && s[i].referenced {
        lemma_first_unflagged_at_most(s, i + 1, u);
    }
}

proof fn lemma_first_unflagged_is_unflagged<V>(s: Seq<CacheSlot<V>>, i: int)
    requires
        0 <= i <= s.len(),
    ensures
        first_unflagged_from(s, i) < s.len() ==> !s[first_unflagged_from(s, i)].referenced,
    decreases s.len() - i,
{
    if i < s.len() && s[i].referenced {
        lemma_first_unflagged_is_unflagged(s, i + 1);
    }
}

/// A sweep keeps every slot but the one it evicts.
proof fn lemma_sweep_keeps<V>(s: Seq<CacheSlot<V>>, t: int)
    requires
        s.len() >= 1,
        distinct_keys(s),
        0 <= t < s.len(),
        t != (if first_unflagged_from(s, 0) < s.len() { first_unflagged_from(s, 0) } else { 0 }),
    ensures
        holds_key(after_sweep(s), s[t].key),
{
    let n = s.len() as int;
    let j = first_unflagged_from(s, 0);
    lemma_after_sweep(s);
    lemma_first_unflagged_bounds(s, 0);
    let i = if j < n {
        if t > j {
            t - j - 1
        } else {
            t + (n - j - 1)
        }
    } else {
        t - 1
    };
    assert(sweep_source(s, i) == t);
    assert(after_sweep(s)[i].key == s[t].key);
}

/// A miss leaves the new glyph cached.
pub proof fn lemma_insert_caches_key<V>(s: Seq<CacheSlot<V>>, capacity: int, slot: CacheSlot<V>)
    ensures
        holds_key(after_insert(s, capacity, slot), slot.key),
{
    let r = after_insert(s, capacity, slot);
    assert(r[r.len() - 1] == slot);
}

/// Second chance: a glyph used since the last sweep survives an insert, unless
/// every cached glyph was used.
pub proof fn lemma_flagged_glyph_survives<V>(s: Seq<CacheSlot<V>>, capacity: int, slot: CacheSlot<V>, t: int, u: int)
    requires
        capacity >= 1,
        s.len() <= capacity,
        distinct_keys(s),
        0 <= t < s.len(),
        s[t].referenced,
        0 <= u < s.len(),
        !s[u].referenced,
    ensures
        holds_key(after_insert(s, capacity, slot), s[t].key),
{
    let r = after_insert(s, capacity, slot);
    if s.len() >= capacity {
        lemma_first_unflagged_at_most(s, 0, u);
        lemma_first_unflagged_is_unflagged(s, 0);
        lemma_sweep_keeps(s, t);
        let i = choose|i: int| 0 <= i < after_sweep(s).len() && (#[trigger] after_sweep(s)[i]).key == s[t].key;
        assert(r[i] == after_sweep(s)[i]);
    } else {
        assert(r[t] == s[t]);
    }
}

/// An insert evicts at most one glyph.
pub proof fn lemma_insert_evicts_at_most_one<V>(s: Seq<CacheSlot<V>>, capacity: int, slot: CacheSlot<V>, a: int, b: int)
    requires
        capacity >= 1,
        s.len() <= capacity,
        distinct_keys(s),
        0 <= a < s.len(),
        0 <= b < s.len(),
        !holds_key(after_insert(s, capacity, slot), s[a].key),
        !holds_key(after_insert(s, capacity, slot), s[b].key),
    ensures
        a == b,
{
    let r = after_insert(s, capacity, slot);
    if s.len() >= capacity {
        let e = if first_unflagged_from(s, 0) < s.len() { first_unflagged_from(s, 0) } else { 0 };
        if a != e {
            lemma_sweep_keeps(s, a);
            let i = choose|i: int| 0 <= i < after_sweep(s).len() && (#[trigger] after_sweep(s)[i]).key == s[a].key;
            assert(r[i] == after_sweep(s)[i]);
        }
        if b != e {
            lemma_sweep_keeps(s, b);
            let i = choose|i: int| 0 <= i < after_sweep(s).len() && (#[trigger] after_sweep(s)[i]).key == s[b].key;
            assert(r[i] == after_sweep(s)[i]);
        }
    } else {
        assert(r[a] == s[a]);
    }
}

impl<V> GlyphCache<V> {
    pub closed spec fn capacity_spec(&self) -> nat {
        self.capacity as nat
    }

    /// The cached glyphs in sweep order.
    pub closed spec fn slots_spec(&self) -> Seq<CacheSlot<V>> {
        self.slots@
    }

    pub open spec fn wf(&self) -> bool {
        &&& self.capacity_spec() >= 1
        &&& self.slots_spec().len() <= self.capacity_spec()
        &&& distinct_keys(self.slots_spec())
    }

    /// An empty cache; a zero capacity becomes one.
    pub fn new(capacity: usize) -> (r: GlyphCache<V>)
        ensures
            r.wf(),
            r.capacity_spec() == (if capacity == 0 { 1 } else { capacity }),
            r.slots_spec().len() == 0,
    {
        GlyphCache { capacity: if capacity == 0 { 1 } else { capacity }, slots: VecDeque::new() }
    }

    fn find(&self, key: GlyphCacheKey) -> (r: Option<usize>)
        ensures
            match r {
                Some(i) => i < self.slots_spec().len() && self.slots_spec()[i as int].key == key,
                None => !holds_key(self.slots_spec(), key),
            },
    {
        let mut i: usize = 0;
        while i < self.slots.len()
            invariant
                i <= self.slots@.len(),
                forall|j: int| 0 <= j < i ==> (#[trigger] self.slots@[j]).key != key,
            decreases self.slots@.len() - i,
        {
            if self.slots[i].key == key {
                return Some(i);
            }
            i = i + 1;
        }
        None
    }

    /// Whether a glyph is cached.
    pub fn contains_key(&self, key: GlyphCacheKey) -> (r: bool)
        ensures
            r == holds_key(self.slots_spec(), key),
    {
        self.find(key).is_some()
    }

    pub fn len(&self) -> (r: usize)
        ensures
            r == self.slots_spec().len(),
    {
        self.slots.len()
    }

    pub fn is_empty(&self) -> (r: bool)
        ensures
            r == (self.slots_spec().len() == 0),
    {
        self.slots.len() == 0
    }

    /// Evicts one glyph from a full cache.
    fn sweep(&mut self)
        requires
            old(self).wf(),
            old(self).slots_spec().len() >= old(self).capacity_spec(),
        ensures
            final(self).capacity_spec() == old(self).capacity_spec(),
            final(self).slots_spec() == after_sweep(old(self).slots_spec()),
    {
        let ghost s = self.slots@;
        let ghost n = s.len() as int;
        let ghost mut t: int = 0;
        assert(s.subrange(0, n) =~= s);
        assert(cleared(s.subrange(0, 0)) =~= Seq::<CacheSlot<V>>::empty());
        loop
            invariant_except_break
                self.capacity == old(self).capacity,
                0 <= t <= n,
                n == s.len(),
                n >= 1,
                forall|i: int| 0 <= i < t ==> (#[trigger] s[i]).referenced,
                self.slots@ == s.subrange(t, n) + cleared(s.subrange(0, t)),
            ensures
                self.capacity == old(self).capacity,
                self.slots@ == after_sweep(s),
            decreases n + 1 - t,
        {
            let ghost before = self.slots@;
            assert(before.len() == n);
            match self.slots.pop_front() {
                Some(slot) => {
                    if slot.referenced {
                        proof {
                            if t == n {
                                assert(s.subrange(t, n).len() == 0);
                                assert(before[0] == cleared(s.subrange(0, t))[0]);
                                assert(false);
                            }
                            assert(before[0] == s[t]);
                        }
                        self.slots.push_back(CacheSlot { key: slot.key, bitmap: slot.bitmap, referenced: false });
                        proof {
                            assert(self.slots@ =~= s.subrange(t + 1, n) + cleared(s.subrange(0, t + 1)));
                            t = t + 1;
                        }
                    } else {
                        proof {
                            lemma_first_unflagged_skip(s, t);
                            if t < n {
                                assert(before[0] == s[t]);
                                assert(first_unflagged_from(s, t) == t);
                                assert(self.slots@ =~= s.subrange(t + 1, n) + cleared(s.subrange(0, t)));
                            } else {
                                assert(s.subrange(t, n) =~= Seq::<CacheSlot<V>>::empty());
                                assert(s.subrange(0, t) =~= s);
                                assert(first_unflagged_from(s, t) == n);
                                assert(self.slots@ =~= cleared(s).drop_first());
                            }
                        }
                        break;
                    }
                },
                None => {
                    proof {
                        assert(false);
                    }
                    break;
                },
            }
        }
    }

    /// The cached bitmap for `key`, or a new one from `make`.
    pub fn get_or_insert_with<F: FnOnce() -> V>(&mut self, key: GlyphCacheKey, make: F) -> (r: Arc<V>)
        requires
            old(self).wf(),
            make.requires(()),
        ensures
            final(self).wf(),
            final(self).capacity_spec() == old(self).capacity_spec(),
            holds_key(old(self).slots_spec(), key) ==> {
                let i = choose|i: int| 0 <= i < old(self).slots_spec().len() && (#[trigger] old(self).slots_spec()[i]).key == key;
                &&& r == old(self).slots_spec()[i].bitmap
                &&& final(self).slots_spec() == old(self).slots_spec().update(
                    i,
                    CacheSlot { key, bitmap: r, referenced: true },
                )
            },
            !holds_key(old(self).slots_spec(), key) ==> {
                &&& make.ensures((), *r)
                &&& final(self).slots_spec() == after_insert(
                    old(self).slots_spec(),
                    old(self).capacity_spec() as int,
                    CacheSlot { key, bitmap: r, referenced: false },
                )
            },
    {
        self.get_or_insert_with_status(key, make).0
    }

    /// The cached bitmap for `key` and `true`, flagging the entry; or, on a miss,
    /// a new bitmap from `make` and `false`, after evicting one glyph when the
    /// cache is full.
    pub fn get_or_insert_with_status<F: FnOnce() -> V>(&mut self, key: GlyphCacheKey, make: F) -> (r: (Arc<V>, bool))
        requires
            old(self).wf(),
            make.requires(()),
        ensures
            final(self).wf(),
            final(self).capacity_spec() == old(self).capacity_spec(),
            holds_key(old(self).slots_spec(), key) ==> {
                let i = choose|i: int| 0 <= i < old(self).slots_spec().len() && (#[trigger] old(self).slots_spec()[i]).key == key;
                &&& r.1
                &&& r.0 == old(self).slots_spec()[i].bitmap
                &&& final(self).slots_spec() == old(self).slots_spec().update(
                    i,
                    CacheSlot { key, bitmap: r.0, referenced: true },
                )
            },
            !holds_key(old(self).slots_spec(), key) ==> {
                &&& !r.1
                &&& make.ensures((), *r.0)
                &&& final(self).slots_spec() == after_insert(
                    old(self).slots_spec(),
                    old(self).capacity_spec() as int,
                    CacheSlot { key, bitmap: r.0, referenced: false },
                )
            },
    {
        match self.find(key) {
            Some(i) => {
                let ghost s = self.slots@;
                proof {
                    let c = choose|c: int| 0 <= c < s.len() && (#[trigger] s[c]).key == key;
                    if c != i {
                        if c < i {
                            assert(s[c].key != s[i as int].key);
                        } else {
                            assert(s[i as int].key != s[c].key);
                        }
                    }
                }
                let slot = match self.slots.remove(i) {
                    Some(slot) => slot,
                    None => {
                        proof {
                            assert(false);
                        }
                        return (Arc::new(make()), false);
                    },
                };
                let bitmap = share(&slot.bitmap);
                self.slots.insert(i, CacheSlot { key: slot.key, bitmap: slot.bitmap, referenced: true });
                proof {
                    assert(self.slots@ =~= s.update(i as int, CacheSlot { key, bitmap, referenced: true }));
                    assert forall|a: int, b: int| 0 <= a < b < self.slots@.len() implies (#[trigger] self.slots@[a]).key
                        != (#[trigger] self.slots@[b]).key by {
                        assert(self.slots@[a].key == s[a].key && self.slots@[b].key == s[b].key);
                    }
                }
                (bitmap, true)
            },
            None => {
                let ghost s = self.slots@;
                if self.slots.len() >= self.capacity {
                    self.sweep();
                    proof {
                        lemma_after_sweep(s);
                    }
                }
                let bitmap = Arc::new(make());
                let kept = share(&bitmap);
                self.slots.push_back(CacheSlot { key, bitmap: kept, referenced: false });
                proof {
                    let q = self.slots@;
                    let m = (q.len() - 1) as int;
                    assert(!holds_key(q.subrange(0, m), key)) by {
                        if holds_key(q.subrange(0, m), key) {
                            let c = choose|c: int| 0 <= c < m && (#[trigger] q.subrange(0, m)[c]).key == key;
                            assert(q.subrange(0, m)[c] == q[c]);
                            if s.len() >= self.capacity {
                                assert(holds_key(after_sweep(s), key)) by {
                                    assert(after_sweep(s)[c].key == key);
                                }
                            } else {
                                assert(s[c].key == key);
                            }
                        }
                    }
                    assert forall|a: int, b: int| 0 <= a < b < q.len() implies (#[trigger] q[a]).key != (#[trigger] q[b]).key by {
                        if b == m {
                            assert(q.subrange(0, m)[a] == q[a]);
                        } else if s.len() >= self.capacity {
                            assert(q[a] == after_sweep(s)[a] && q[b] == after_sweep(s)[b]);
                        } else {
                            assert(q[a] == s[a] && q[b] == s[b]);
                        }
                    }
                }
                (bitmap, false)
            },
        }
    }
}

} // verus!
