//! Vectors kept in increasing order of a key, used as ordered maps from an
//! identifier to the item that carries it.

use vstd::prelude::*;

verus! {

/// An item identified by an integer key.
pub trait Keyed {
    spec fn key_of(&self) -> u64;

    fn key(&self) -> (r: u64)
        ensures
            r == self.key_of(),
    ;
}

/// The keys strictly increase along the sequence.
pub open spec fn keys_increasing<T: Keyed>(s: Seq<T>) -> bool {
    forall|i: int, j: int| 0 <= i < j < s.len() ==> #[trigger] s[i].key_of() < #[trigger] s[j].key_of()
}

/// Some item of the sequence has key `key`.
pub open spec fn has_key<T: Keyed>(s: Seq<T>, key: u64) -> bool {
    exists|i: int| 0 <= i < s.len() && #[trigger] s[i].key_of() == key
}

/// How many items have a key below `key`: where an item with that key
/// belongs.
pub open spec fn rank<T: Keyed>(s: Seq<T>, key: u64) -> int
    decreases s.len(),
{
    if s.len() == 0 {
        0
    } else {
        rank(s.drop_last(), key) + (if s.last().key_of() < key { 1int } else { 0int })
    }
}

pub proof fn lemma_rank_bounds<T: Keyed>(s: Seq<T>, key: u64)
    ensures
        0 <= rank(s, key) <= s.len(),
    decreases s.len(),
{
    if s.len() > 0 {
        lemma_rank_bounds(s.drop_last(), key);
    }
}

/// In an increasing sequence, the items below `key` are exactly the first
/// `rank` ones.
pub proof fn lemma_rank_splits<T: Keyed>(s: Seq<T>, key: u64)
    requires
        keys_increasing(s),
    ensures
        0 <= rank(s, key) <= s.len(),
        forall|i: int| 0 <= i < rank(s, key) ==> #[trigger] s[i].key_of() < key,
        forall|i: int| rank(s, key) <= i < s.len() ==> #[trigger] s[i].key_of() >= key,
    decreases s.len(),
{
    lemma_rank_bounds(s, key);
    if s.len() > 0 {
        let p = s.drop_last();
        assert(keys_increasing(p)) by {
            assert forall|i: int, j: int| 0 <= i < j < p.len() implies #[trigger] p[i].key_of() < #[trigger] p[j].key_of() by {
                assert(p[i] == s[i]);
                assert(p[j] == s[j]);
            }
        }
        lemma_rank_splits(p, key);
        assert forall|i: int| 0 <= i < rank(s, key) implies #[trigger] s[i].key_of() < key by {
            if i < p.len() {
                assert(p[i] == s[i]);
                if i >= rank(p, key) {
                    assert(s.last().key_of() < key);
                    assert(s[i].key_of() < s[s.len() - 1].key_of());
                }
            }
        }
        assert forall|i: int| rank(s, key) <= i < s.len() implies #[trigger] s[i].key_of() >= key by {
            if i < p.len() {
                assert(p[i] == s[i]);
            }
        }
    }
}

/// Removing an item keeps the keys increasing.
pub proof fn lemma_remove_keeps_increasing<T: Keyed>(s: Seq<T>, k: int)
    requires
        keys_increasing(s),
        0 <= k < s.len(),
    ensures
        keys_increasing(s.remove(k)),
{
    let t = s.remove(k);
    assert forall|i: int, j: int| 0 <= i < j < t.len() implies #[trigger] t[i].key_of() < #[trigger] t[j].key_of() by {
        let oi = if i < k { i } else { i + 1 };
        let oj = if j < k { j } else { j + 1 };
        assert(t[i] == s[oi]);
        assert(t[j] == s[oj]);
    }
}

/// The position of the item with key `key`, if there is one.
pub fn find_key<T: Keyed>(items: &Vec<T>, key: u64) -> (r: Option<usize>)
    requires
        keys_increasing(items@),
    ensures
        r is Some <==> has_key(items@, key),
        r is Some ==> r->0 < items.len() && items@[r->0 as int].key_of() == key,
{
    let mut i: usize = 0;
    while i < items.len()
        invariant
            0 <= i <= items.len(),
            forall|k: int| 0 <= k < i ==> #[trigger] items@[k].key_of() != key,
        decreases items.len() - i,
    {
        if items[i].key() == key {
            return Some(i);
        }
        i = i + 1;
    }
    None
}

/// The sequence with `item` in its place by key, replacing an item with the
/// same key.
pub open spec fn inserted_by_key<T: Keyed>(s: Seq<T>, item: T) -> Seq<T> {
    if has_key(s, item.key_of()) {
        s.update(rank(s, item.key_of()), item)
    } else {
        s.insert(rank(s, item.key_of()), item)
    }
}

/// An item whose key exceeds every key goes last.
pub proof fn lemma_insert_largest<T: Keyed>(s: Seq<T>, item: T)
    requires
        keys_increasing(s),
        forall|k: int| 0 <= k < s.len() ==> #[trigger] s[k].key_of() < item.key_of(),
    ensures
        inserted_by_key(s, item) == s.push(item),
        keys_increasing(s.push(item)),
{
    lemma_rank_splits(s, item.key_of());
    if rank(s, item.key_of()) < s.len() {
        assert(s[rank(s, item.key_of())].key_of() < item.key_of());
    }
    assert(!has_key(s, item.key_of())) by {
        if has_key(s, item.key_of()) {
            let k = choose|k: int| 0 <= k < s.len() && #[trigger] s[k].key_of() == item.key_of();
            assert(s[k].key_of() < item.key_of());
        }
    }
    assert(s.insert(s.len() as int, item) =~= s.push(item));
    let t = s.push(item);
    assert forall|i: int, j: int| 0 <= i < j < t.len() implies #[trigger] t[i].key_of() < #[trigger] t[j].key_of() by {
        if j == s.len() {
            assert(t[i] == s[i]);
        } else {
            assert(t[i] == s[i]);
            assert(t[j] == s[j]);
        }
    }
}

/// Puts `item` in its place by key, replacing an item with the same key.
pub fn insert_by_key<T: Keyed>(items: &mut Vec<T>, item: T)
    requires
        keys_increasing(old(items)@),
    ensures
        keys_increasing(final(items)@),
        final(items)@ == inserted_by_key(old(items)@, item),
        final(items).len() >= old(items).len(),
        final(items).len() > 0,
{
    let key = item.key();
    proof {
        lemma_rank_splits(items@, key);
    }
    let ghost position = rank(items@, key);
    let mut i: usize = 0;
    while i < items.len() && items[i].key() < key
        invariant
            0 <= i <= position,
            position == rank(items@, key),
            items@ == old(items)@,
            keys_increasing(items@),
            forall|k: int| 0 <= k < position ==> #[trigger] items@[k].key_of() < key,
            forall|k: int| position <= k < items.len() ==> #[trigger] items@[k].key_of() >= key,
        decreases items.len() - i,
    {
        i = i + 1;
    }
    proof {
        if i < position {
            assert(items@[i as int].key_of() < key);
        }
        assert(i == position);
        if has_key(old(items)@, key) {
            let k = choose|k: int| 0 <= k < old(items)@.len() && #[trigger] old(items)@[k].key_of() == key;
            if k > i {
                assert(old(items)@[i as int].key_of() < old(items)@[k].key_of());
            }
            assert(k == i);
        }
    }
    if i < items.len() && items[i].key() == key {
        items.set(i, item);
    } else {
        proof {
            assert(!has_key(old(items)@, key)) by {
                if has_key(old(items)@, key) {
                    let k = choose|k: int| 0 <= k < old(items)@.len() && #[trigger] old(items)@[k].key_of() == key;
                    if k > i {
                        assert(old(items)@[i as int].key_of() < old(items)@[k].key_of());
                    }
                }
            }
        }
        items.insert(i, item);
    }
}

/// Takes out the item with key `key`, if there is one.
pub fn remove_by_key<T: Keyed>(items: &mut Vec<T>, key: u64) -> (r: Option<T>)
    requires
        keys_increasing(old(items)@),
    ensures
        keys_increasing(final(items)@),
        r is Some <==> has_key(old(items)@, key),
        r is Some ==> r->0.key_of() == key && exists|k: int| 0 <= k < old(items)@.len()
            && old(items)@[k].key_of() == key && r->0 == old(items)@[k]
            && final(items)@ == old(items)@.remove(k),
        r is None ==> final(items)@ == old(items)@,
{
    match find_key(items, key) {
        Some(index) => {
            proof {
                lemma_remove_keeps_increasing(items@, index as int);
            }
            let item = items.remove(index);
            Some(item)
        },
        None => None,
    }
}

} // verus!
