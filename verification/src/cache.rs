//! Bounded least-recently-used cache from tag identifiers to tag names.
//!
//! The cache itself is `lru::LruCache`. Its contents are modelled as a sequence
//! of `(tag id, tag name)` pairs in order of use, the most recently used entry
//! first, and each operation is described by what it does to that sequence.

use lru::LruCache;
use vstd::prelude::*;

verus! {

/// `lru::LruCache`, taken as it is: nothing of its inside is looked at.
#[verifier::external_type_specification]
#[verifier::external_body]
#[verifier::reject_recursive_types(K)]
#[verifier::reject_recursive_types(V)]
#[verifier::reject_recursive_types(S)]
pub struct ExLruCache<K, V, S>(LruCache<K, V, S>);

/// `lru::DefaultHasher`, the hasher of an `lru::LruCache` that was given no
/// other.
#[verifier::external_type_specification]
#[verifier::external_body]
pub struct ExDefaultHasher(lru::DefaultHasher);

/// The entries that an `lru::LruCache` holds, from the most recently used to
/// the least recently used.
pub uninterp spec fn lru_entries(cache: LruCache<i64, String>) -> Seq<(i64, Seq<char>)>;

/// The number of entries that an `lru::LruCache` was made to hold.
pub uninterp spec fn lru_capacity(cache: LruCache<i64, String>) -> nat;

/// Whether some entry has the key `key`.
pub open spec fn has_key(entries: Seq<(i64, Seq<char>)>, key: i64) -> bool {
    exists|i: int| 0 <= i < entries.len() && (#[trigger] entries[i]).0 == key
}

/// The position of an entry with the key `key`, where there is one.
pub open spec fn position(entries: Seq<(i64, Seq<char>)>, key: i64) -> int {
    choose|i: int| 0 <= i < entries.len() && (#[trigger] entries[i]).0 == key
}

/// The name stored under `key`, if any.
pub open spec fn lookup(entries: Seq<(i64, Seq<char>)>, key: i64) -> Option<Seq<char>> {
    if has_key(entries, key) {
        Some(entries[position(entries, key)].1)
    } else {
        None
    }
}

/// No key occurs twice.
pub open spec fn distinct_keys(entries: Seq<(i64, Seq<char>)>) -> bool {
    forall|i: int, j: int|
        0 <= i < j < entries.len() ==> (#[trigger] entries[i]).0 != (#[trigger] entries[j]).0
}

/// The entries after a lookup of `key`: a hit moves the entry to the front.
pub open spec fn touched(entries: Seq<(i64, Seq<char>)>, key: i64) -> Seq<(i64, Seq<char>)> {
    if has_key(entries, key) {
        let at = position(entries, key);
        seq![entries[at]] + entries.remove(at)
    } else {
        entries
    }
}

/// The entries after `key` is stored with `name` in a cache of `capacity`
/// entries: the new entry goes to the front; it replaces the entry of the same
/// key, or else, where the cache is full, the least recently used entry.
pub open spec fn inserted(
    entries: Seq<(i64, Seq<char>)>,
    capacity: nat,
    key: i64,
    name: Seq<char>,
) -> Seq<(i64, Seq<char>)> {
    if has_key(entries, key) {
        seq![(key, name)] + entries.remove(position(entries, key))
    } else if entries.len() >= capacity {
        seq![(key, name)] + entries.drop_last()
    } else {
        seq![(key, name)] + entries
    }
}

/// The entries after each pair of `items` is stored in turn, the first pair first.
pub open spec fn inserted_all(
    entries: Seq<(i64, Seq<char>)>,
    capacity: nat,
    items: Seq<(i64, Seq<char>)>,
) -> Seq<(i64, Seq<char>)>
    decreases items.len(),
{
    if items.len() == 0 {
        entries
    } else {
        inserted(
            inserted_all(entries, capacity, items.drop_last()),
            capacity,
            items.last().0,
            items.last().1,
        )
    }
}

/// The largest capacity that a cache is made with. The cache sets up a hash
/// table for as many entries as it may hold, and up to this number the size of
/// that table can be computed on every machine.
pub const MAX_CAPACITY: usize = 16_777_216;

/// `lru::LruCache::new`: the new cache is empty and holds at most `capacity`
/// entries. It reserves a hash table for `capacity` entries, which fails where
/// the table's size in bytes is no `usize`: so large a capacity is left out.
#[verifier::external_body]
fn lru_new(capacity: usize) -> (cache: LruCache<i64, String>)
    requires
        capacity <= MAX_CAPACITY,
    ensures
        lru_entries(cache) == Seq::<(i64, Seq<char>)>::empty(),
        lru_capacity(cache) == capacity,
{
    LruCache::new(capacity)
}

/// `lru::LruCache::get`: returns a copy of the name stored under `key`, and on a
/// hit moves that entry to the most recently used position. Nothing else changes.
#[verifier::external_body]
fn lru_get(cache: &mut LruCache<i64, String>, key: i64) -> (hit: Option<String>)
    ensures
        lru_capacity(*final(cache)) == lru_capacity(*old(cache)),
        lru_entries(*final(cache)) == touched(lru_entries(*old(cache)), key),
        match hit {
            Some(name) => lookup(lru_entries(*old(cache)), key) == Some(name@),
            None => lookup(lru_entries(*old(cache)), key) is None,
        },
{
    cache.get(&key).cloned()
}

/// `lru::LruCache::put`: stores `name` under `key` as the most recently used
/// entry and returns the name that `key` had before. A new key in a full cache
/// pushes out the least recently used entry. A cache made for no entries is
/// left out: `put` does not return on it.
#[verifier::external_body]
fn lru_put(cache: &mut LruCache<i64, String>, key: i64, name: String) -> (previous: Option<String>)
    requires
        lru_capacity(*old(cache)) > 0,
    ensures
        lru_capacity(*final(cache)) == lru_capacity(*old(cache)),
        lru_entries(*final(cache)) == inserted(
            lru_entries(*old(cache)),
            lru_capacity(*old(cache)),
            key,
            name@,
        ),
        match previous {
            Some(before) => lookup(lru_entries(*old(cache)), key) == Some(before@),
            None => lookup(lru_entries(*old(cache)), key) is None,
        },
{
    cache.put(key, name)
}

/// `lru::LruCache::len`: the number of entries held.
#[verifier::external_body]
fn lru_len(cache: &LruCache<i64, String>) -> (len: usize)
    ensures
        len == lru_entries(*cache).len(),
{
    cache.len()
}

/// A bounded map from tag identifiers to tag names that forgets the entry used
/// longest ago when a new one no longer fits.
#[derive(Debug)]
pub struct TagNameCache {
    inner: LruCache<i64, String>,
}

impl View for TagNameCache {
    type V = Seq<(i64, Seq<char>)>;

    /// The entries, most recently used first.
    closed spec fn view(&self) -> Seq<(i64, Seq<char>)> {
        lru_entries(self.inner)
    }
}

impl TagNameCache {
    /// The largest number of entries the cache holds.
    pub closed spec fn capacity(&self) -> nat {
        lru_capacity(self.inner)
    }

    /// The cache has room for an entry, holds `capacity` entries at most, and
    /// no key twice.
    pub open spec fn wf(&self) -> bool {
        &&& self.capacity() > 0
        &&& self@.len() <= self.capacity()
        &&& distinct_keys(self@)
    }

    /// An empty cache for at most `capacity` entries.
    pub fn new(capacity: usize) -> (cache: Self)
        requires
            0 < capacity <= MAX_CAPACITY,
        ensures
            cache.wf(),
            cache@ == Seq::<(i64, Seq<char>)>::empty(),
            cache.capacity() == capacity,
    {
        TagNameCache { inner: lru_new(capacity) }
    }

    /// Looks up the name of tag `key`. A hit makes the entry the most recently used.
    pub fn get(&mut self, key: i64) -> (name: Option<String>)
        requires
            old(self).wf(),
        ensures
            final(self).wf(),
            final(self).capacity() == old(self).capacity(),
            final(self)@ == touched(old(self)@, key),
            match name {
                Some(found) => lookup(old(self)@, key) == Some(found@),
                None => lookup(old(self)@, key) is None,
            },
    {
        proof {
            lemma_touched_keeps(self@, key);
        }
        lru_get(&mut self.inner, key)
    }

    /// Stores `name` under `key` as the most recently used entry and returns
    /// the name stored under `key` before. Where the key is new and the cache
    /// is full, the least recently used entry is dropped.
    pub fn insert(&mut self, key: i64, name: String) -> (previous: Option<String>)
        requires
            old(self).wf(),
        ensures
            final(self).wf(),
            final(self).capacity() == old(self).capacity(),
            final(self)@ == inserted(old(self)@, old(self).capacity(), key, name@),
            match previous {
                Some(before) => lookup(old(self)@, key) == Some(before@),
                None => lookup(old(self)@, key) is None,
            },
    {
        proof {
            lemma_inserted_keeps(self@, self.capacity(), key, name@);
        }
        lru_put(&mut self.inner, key, name)
    }

    /// The number of entries held.
    pub fn len(&self) -> (len: usize)
        ensures
            len == self@.len(),
    {
        lru_len(&self.inner)
    }
}

/// In a sequence without repeated keys, the entry at `at` is the one that its
/// key finds.
pub proof fn lemma_lookup_at(entries: Seq<(i64, Seq<char>)>, at: int)
    requires
        distinct_keys(entries),
        0 <= at < entries.len(),
    ensures
        has_key(entries, entries[at].0),
        position(entries, entries[at].0) == at,
        lookup(entries, entries[at].0) == Some(entries[at].1),
{
    let key = entries[at].0;
    assert(entries[at].0 == key);
    let found = position(entries, key);
    assert(0 <= found < entries.len() && entries[found].0 == key);
    if found < at {
        assert(entries[found].0 != entries[at].0);
    } else if at < found {
        assert(entries[at].0 != entries[found].0);
    }
}

/// A lookup keeps the length, the keys' distinctness and what every key finds.
pub proof fn lemma_touched_keeps(entries: Seq<(i64, Seq<char>)>, key: i64)
    requires
        distinct_keys(entries),
    ensures
        distinct_keys(touched(entries, key)),
        touched(entries, key).len() == entries.len(),
        forall|other: i64| lookup(touched(entries, key), other) == lookup(entries, other),
{
    let after = touched(entries, key);
    if has_key(entries, key) {
        let at = position(entries, key);
        assert(0 <= at < entries.len() && entries[at].0 == key);
        // where each entry of `after` stood before
        let origin = |i: int| if i == 0 { at } else if i <= at { i - 1 } else { i };
        assert forall|i: int| 0 <= i < after.len() implies after[i] == entries[origin(i)] by {}
        assert forall|i: int, j: int| 0 <= i < j < after.len() implies after[i].0
            != after[j].0 by {
            let oi = origin(i);
            let oj = origin(j);
            assert(after[i] == entries[oi]);
            assert(after[j] == entries[oj]);
            if oi < oj {
                assert(entries[oi].0 != entries[oj].0);
            } else {
                assert(entries[oj].0 != entries[oi].0);
            }
        }
        assert forall|other: i64| lookup(after, other) == lookup(entries, other) by {
            if has_key(entries, other) {
                let p = position(entries, other);
                assert(0 <= p < entries.len() && entries[p].0 == other);
                let q = if p == at { 0 } else if p < at { p + 1 } else { p };
                assert(after[q] == entries[p]);
                lemma_lookup_at(after, q);
            } else if has_key(after, other) {
                let q = position(after, other);
                assert(0 <= q < after.len() && after[q].0 == other);
                assert(after[q] == entries[origin(q)]);
                assert(entries[origin(q)].0 == other);
            }
        }
    }
}

/// Storing an entry keeps the keys distinct and the length within the
/// capacity; afterwards the key finds the new name, and every other key finds
/// what it found before unless it was pushed out.
pub proof fn lemma_inserted_keeps(
    entries: Seq<(i64, Seq<char>)>,
    capacity: nat,
    key: i64,
    name: Seq<char>,
)
    requires
        distinct_keys(entries),
        entries.len() <= capacity,
        capacity > 0,
    ensures
        distinct_keys(inserted(entries, capacity, key, name)),
        inserted(entries, capacity, key, name).len() <= capacity,
        inserted(entries, capacity, key, name).len() == if has_key(entries, key) || entries.len()
            == capacity {
            entries.len()
        } else {
            entries.len() + 1
        },
        lookup(inserted(entries, capacity, key, name), key) == Some(name),
        forall|other: i64|
            other != key && !(!has_key(entries, key) && entries.len() == capacity && other
                == entries.last().0) ==> lookup(inserted(entries, capacity, key, name), other)
                == lookup(entries, other),
        !has_key(entries, key) && entries.len() == capacity ==> lookup(
            inserted(entries, capacity, key, name),
            entries.last().0,
        ) is None,
{
    let after = inserted(entries, capacity, key, name);
    // the position before of the entry that stands at `i > 0` afterwards
    let at = if has_key(entries, key) { position(entries, key) } else { entries.len() as int };
    if has_key(entries, key) {
        assert(0 <= at < entries.len() && entries[at].0 == key);
    }
    let origin = |i: int| if i <= at { i - 1 } else { i };
    assert(after[0] == (key, name));
    assert forall|i: int| 1 <= i < after.len() implies after[i] == entries[origin(i)] && 0
        <= origin(i) < entries.len() && origin(i) != at by {}
    assert forall|i: int| 1 <= i < after.len() implies after[i].0 != key by {
        let oi = origin(i);
        assert(after[i] == entries[oi]);
        if has_key(entries, key) {
            if oi < at {
                assert(entries[oi].0 != entries[at].0);
            } else {
                assert(entries[at].0 != entries[oi].0);
            }
        } else {
            if entries[oi].0 == key {
                assert(has_key(entries, key));
            }
        }
    }
    assert forall|i: int, j: int| 0 <= i < j < after.len() implies after[i].0 != after[j].0 by {
        if i == 0 {
            assert(after[j].0 != key);
        } else {
            let oi = origin(i);
            let oj = origin(j);
            assert(after[i] == entries[oi]);
            assert(after[j] == entries[oj]);
            assert(oi < oj);
            assert(entries[oi].0 != entries[oj].0);
        }
    }
    lemma_lookup_at(after, 0);
    assert forall|other: i64|
        other != key && !(!has_key(entries, key) && entries.len() == capacity && other
            == entries.last().0) implies lookup(after, other) == lookup(entries, other) by {
        if has_key(entries, other) {
            let p = position(entries, other);
            assert(0 <= p < entries.len() && entries[p].0 == other);
            assert(p != at);
            if !has_key(entries, key) && entries.len() == capacity {
                if p == entries.len() - 1 {
                    assert(entries[p] == entries.last());
                }
                assert(p < entries.len() - 1);
            }
            let q = if p < at { p + 1 } else { p };
            assert(after[q] == entries[p]);
            lemma_lookup_at(after, q);
        } else if has_key(after, other) {
            let q = position(after, other);
            assert(0 <= q < after.len() && after[q].0 == other);
            assert(q != 0);
            assert(after[q] == entries[origin(q)]);
            assert(entries[origin(q)].0 == other);
        }
    }
    if !has_key(entries, key) && entries.len() == capacity {
        let gone = entries.last().0;
        if has_key(after, gone) {
            let q = position(after, gone);
            assert(0 <= q < after.len() && after[q].0 == gone);
            if q == 0 {
                assert(entries[entries.len() - 1].0 == key);
                assert(has_key(entries, key));
            } else {
                assert(after[q] == entries[q - 1]);
                assert(entries[q - 1].0 != entries[entries.len() - 1].0);
            }
        }
    }
}

/// The `count` latest of `items`, the latest first.
pub open spec fn most_recent(items: Seq<(i64, Seq<char>)>, count: nat) -> Seq<(i64, Seq<char>)> {
    if items.len() <= count {
        items.reverse()
    } else {
        items.skip(items.len() - count).reverse()
    }
}

/// Storing items of distinct keys in an empty cache leaves the latest
/// `capacity` of them, the latest first.
pub proof fn lemma_inserted_all_most_recent(capacity: nat, items: Seq<(i64, Seq<char>)>)
    requires
        capacity > 0,
        distinct_keys(items),
    ensures
        inserted_all(Seq::empty(), capacity, items) == most_recent(items, capacity),
    decreases items.len(),
{
    if items.len() == 0 {
        assert(most_recent(items, capacity) =~= Seq::empty());
    } else {
        let front = items.drop_last();
        let last = items.last();
        assert forall|i: int, j: int| 0 <= i < j < front.len() implies front[i].0
            != front[j].0 by {
            assert(front[i] == items[i] && front[j] == items[j]);
        }
        lemma_inserted_all_most_recent(capacity, front);
        let before = most_recent(front, capacity);
        assert(inserted_all(Seq::empty(), capacity, front) == before);
        if has_key(before, last.0) {
            let q = position(before, last.0);
            assert(0 <= q < before.len() && before[q].0 == last.0);
            // `before[q]` is an item of `front`, whose keys differ from the last item's
            let from = front.len() - 1 - q;
            assert(before[q] == items[from]);
            assert(items[from].0 != items[items.len() - 1].0);
        }
        assert(inserted(before, capacity, last.0, last.1) =~= most_recent(items, capacity));
    }
}

/// Law of the bounded cache: after one more item than the cache holds has been
/// stored in an empty cache, all keys distinct, the cache is full, the key
/// stored first finds nothing, and every later key finds its name.
pub proof fn lemma_overflow_keeps_most_recent(capacity: nat, items: Seq<(i64, Seq<char>)>)
    requires
        capacity > 0,
        items.len() == capacity + 1,
        distinct_keys(items),
    ensures
        inserted_all(Seq::empty(), capacity, items).len() == capacity,
        lookup(inserted_all(Seq::empty(), capacity, items), items[0].0) is None,
        forall|i: int|
            1 <= i <= capacity ==> lookup(
                inserted_all(Seq::empty(), capacity, items),
                (#[trigger] items[i]).0,
            ) == Some(items[i].1),
        forall|key: i64|
            has_key(inserted_all(Seq::empty(), capacity, items), key) ==> exists|i: int|
                1 <= i <= capacity && (#[trigger] items[i]).0 == key,
{
    let after = inserted_all(Seq::empty(), capacity, items);
    lemma_inserted_all_most_recent(capacity, items);
    assert(after == items.skip(1).reverse());
    assert forall|q: int| 0 <= q < after.len() implies after[q] == items[capacity - q] by {}
    assert forall|i: int, j: int| 0 <= i < j < after.len() implies after[i].0 != after[j].0 by {
        assert(items[capacity - j].0 != items[capacity - i].0);
    }
    assert forall|key: i64| has_key(after, key) implies exists|i: int|
        1 <= i <= capacity && (#[trigger] items[i]).0 == key by {
        let q = position(after, key);
        assert(0 <= q < after.len() && after[q].0 == key);
        assert(items[capacity - q].0 == key);
    }
    if has_key(after, items[0].0) {
        let i = choose|i: int| 1 <= i <= capacity && (#[trigger] items[i]).0 == items[0].0;
        assert(items[0].0 != items[i].0);
    }
    assert forall|i: int| 1 <= i <= capacity implies lookup(after, (#[trigger] items[i]).0)
        == Some(items[i].1) by {
        assert(after[capacity - i] == items[i]);
        lemma_lookup_at(after, capacity - i);
    }
}

} // verus!
