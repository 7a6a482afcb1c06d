//! The page cache: sixteen LRU shards, picked by a hash of the key.
use vstd::prelude::*;

use std::hash::Hasher;
use std::sync::Arc;
use vstd::std_specs::hash::DefaultHasherAdditionalSpecFns;

verus! {

/// A file's modification time: whole seconds since 1970 and nanoseconds.
#[derive(PartialEq, Eq, Structural, Clone, Copy, Debug)]
pub struct FileTime {
    pub secs: u64,
    pub nanos: u32,
}

/// A rendered page and the modification time of the document it came from.
#[derive(Clone)]
pub struct CacheEntry {
    pub html: Arc<String>,
    pub mtime: FileTime,
}

/// The LRU map of the `lru` crate, opaque here: what it holds is named by
/// `lru_entries` and `lru_capacity` below.
#[verifier::external_type_specification]
#[verifier::external_body]
#[verifier::reject_recursive_types(K)]
#[verifier::reject_recursive_types(V)]
#[verifier::reject_recursive_types(S)]
pub struct ExLruCache<K, V, S>(lru::LruCache<K, V, S>);

/// A shard of the page cache.
pub type PageLru = lru::LruCache<String, CacheEntry, std::collections::hash_map::RandomState>;

/// What an LRU shard holds, most recently used first.
pub uninterp spec fn lru_entries(c: PageLru) -> Seq<(Seq<char>, CacheEntry)>;

/// The number of entries an LRU shard was made to hold.
pub uninterp spec fn lru_capacity(c: PageLru) -> nat;

/// Where key `k` stands in `s`, if it does.
pub open spec fn key_index(s: Seq<(Seq<char>, CacheEntry)>, k: Seq<char>) -> Option<int>
    decreases s.len(),
{
    if s.len() == 0 {
        None
    } else {
        match key_index(s.drop_last(), k) {
            Some(i) => Some(i),
            None => if s.last().0 == k {
                Some(s.len() - 1)
            } else {
                None
            },
        }
    }
}

/// The entries after a lookup of `k`: a hit moves to the front.
pub open spec fn lru_touch(s: Seq<(Seq<char>, CacheEntry)>, k: Seq<char>) -> Seq<(Seq<char>, CacheEntry)> {
    match key_index(s, k) {
        Some(i) => seq![s[i]] + s.remove(i),
        None => s,
    }
}

/// The entries after storing `v` under `k`: an entry for `k` is replaced
/// and moved to the front; otherwise the new entry goes to the front,
/// pushing out the least recently used one when the shard is full.
pub open spec fn lru_store(s: Seq<(Seq<char>, CacheEntry)>, k: Seq<char>, v: CacheEntry, cap: nat) -> Seq<(Seq<char>, CacheEntry)> {
    match key_index(s, k) {
        Some(i) => seq![(k, v)] + s.remove(i),
        None => if s.len() == cap {
            seq![(k, v)] + s.drop_last()
        } else {
            seq![(k, v)] + s
        },
    }
}

proof fn lemma_key_index(s: Seq<(Seq<char>, CacheEntry)>, k: Seq<char>)
    ensures
        match key_index(s, k) {
            Some(i) => 0 <= i < s.len() && s[i].0 == k,
            None => forall|j: int| 0 <= j < s.len() ==> s[j].0 != k,
        },
    decreases s.len(),
{
    if s.len() > 0 {
        lemma_key_index(s.drop_last(), k);
        if key_index(s.drop_last(), k) is None {
            assert forall|j: int| 0 <= j < s.len() - 1 implies s[j].0 != k by {
                assert(s.drop_last()[j] == s[j]);
            }
        } else {
            let i = key_index(s.drop_last(), k)->0;
            assert(s.drop_last()[i] == s[i]);
        }
    }
}

proof fn lemma_touch_ok(s: Seq<(Seq<char>, CacheEntry)>, k: Seq<char>, cap: nat)
    requires
        shard_ok(s, cap),
    ensures
        shard_ok(lru_touch(s, k), cap),
{
    lemma_key_index(s, k);
    if let Some(i) = key_index(s, k) {
        let t = seq![s[i]] + s.remove(i);
        assert forall|a: int, b: int| 0 <= a < b < t.len() implies t[a].0 != t[b].0 by {
            let ia = if a == 0 { i } else if a - 1 < i { a - 1 } else { a };
            let ib = if b - 1 < i { b - 1 } else { b };
            assert(t[a] == s[ia]);
            assert(t[b] == s[ib]);
            assert(ia != ib);
        }
    }
}

proof fn lemma_store_ok(s: Seq<(Seq<char>, CacheEntry)>, k: Seq<char>, v: CacheEntry, cap: nat)
    requires
        shard_ok(s, cap),
        cap > 0,
    ensures
        shard_ok(lru_store(s, k, v, cap), cap),
{
    lemma_key_index(s, k);
    let t = lru_store(s, k, v, cap);
    match key_index(s, k) {
        Some(i) => {
            assert forall|a: int, b: int| 0 <= a < b < t.len() implies t[a].0 != t[b].0 by {
                let ib = if b - 1 < i { b - 1 } else { b };
                assert(t[b] == s[ib]);
                if a == 0 {
                    assert(ib != i);
                } else {
                    let ia = if a - 1 < i { a - 1 } else { a };
                    assert(t[a] == s[ia]);
                    assert(ia != ib);
                }
            }
        },
        None => {
            let rest = if s.len() == cap { s.drop_last() } else { s };
            assert(t == seq![(k, v)] + rest);
            assert forall|a: int, b: int| 0 <= a < b < t.len() implies t[a].0 != t[b].0 by {
                assert(t[b] == rest[b - 1]);
                assert(rest[b - 1] == s[b - 1]);
                if a > 0 {
                    assert(t[a] == s[a - 1]);
                }
            }
        },
    }
}

/// After storing `v` under `k`, a lookup of `k` finds `v`.
pub proof fn lemma_store_finds(s: Seq<(Seq<char>, CacheEntry)>, k: Seq<char>, v: CacheEntry, cap: nat)
    ensures
        ({
            let t = lru_store(s, k, v, cap);
            key_index(t, k) matches Some(i) && t[i] == (k, v)
        }),
{
    let t = lru_store(s, k, v, cap);
    assert(t[0] == (k, v));
    lemma_key_index_first(t, k);
}

proof fn lemma_key_index_first(t: Seq<(Seq<char>, CacheEntry)>, k: Seq<char>)
    requires
        t.len() > 0,
        t[0].0 == k,
    ensures
        key_index(t, k) == Some(0int),
    decreases t.len(),
{
    if t.len() > 1 {
        assert(t.drop_last()[0] == t[0]);
        lemma_key_index_first(t.drop_last(), k);
        assert(key_index(t.drop_last(), k) == Some(0int));
    } else {
        assert(t.drop_last().len() == 0);
        assert(key_index(t.drop_last(), k) is None);
        assert(t.last() == t[0]);
    }
}

/// Relies on `lru::LruCache::with_hasher`: an empty cache of the given
/// capacity (`NonZeroUsize::new` fails on 0, which `requires` rules out).
#[verifier::external_body]
fn lru_new(cap: usize) -> (r: PageLru)
    requires
        cap > 0,
    ensures
        lru_entries(r) == Seq::<(Seq<char>, CacheEntry)>::empty(),
        lru_capacity(r) == cap,
{
    let hasher = std::collections::hash_map::RandomState::new();
    lru::LruCache::with_hasher(std::num::NonZeroUsize::new(cap).unwrap(), hasher)
}

/// Relies on `lru::LruCache::get`: a hit returns the value and makes it the
/// most recently used.
#[verifier::external_body]
fn lru_get(c: &mut PageLru, k: &String) -> (r: Option<CacheEntry>)
    ensures
        lru_capacity(*final(c)) == lru_capacity(*old(c)),
        lru_entries(*final(c)) == lru_touch(lru_entries(*old(c)), k@),
        r == match key_index(lru_entries(*old(c)), k@) {
            Some(i) => Some(lru_entries(*old(c))[i].1),
            None => None,
        },
{
    c.get(k).cloned()
}

/// Relies on `lru::LruCache::put`: see `lru_store`.
#[verifier::external_body]
fn lru_put(c: &mut PageLru, k: String, v: CacheEntry)
    ensures
        lru_capacity(*final(c)) == lru_capacity(*old(c)),
        lru_entries(*final(c)) == lru_store(lru_entries(*old(c)), k@, v, lru_capacity(*old(c))),
{
    c.put(k, v);
}

/// Relies on `lru::LruCache::clear`: every entry goes.
#[verifier::external_body]
fn lru_clear(c: &mut PageLru)
    ensures
        lru_capacity(*final(c)) == lru_capacity(*old(c)),
        lru_entries(*final(c)) == Seq::<(Seq<char>, CacheEntry)>::empty(),
{
    c.clear();
}

/// Relies on `Arc::clone`: another handle to the same text.
#[verifier::external_body]
pub fn share(a: &Arc<String>) -> (r: Arc<String>)
    ensures
        r@ == a@,
{
    Arc::clone(a)
}

pub const SHARDS: usize = 16;

/// The shard that holds key `k`: the default hasher over its UTF-8 bytes,
/// modulo the number of shards.
pub open spec fn shard_of(k: Seq<char>) -> int {
    (std::hash::DefaultHasher::spec_finish(seq![vstd::utf8::encode_utf8(k)]) % (SHARDS as u64)) as int
}

pub proof fn lemma_shard_of_bounds(k: Seq<char>)
    ensures
        0 <= shard_of(k) < SHARDS,
{
}

/// Keys are unique within a shard, and a shard holds at most its capacity.
pub open spec fn shard_ok(s: Seq<(Seq<char>, CacheEntry)>, cap: nat) -> bool {
    &&& s.len() <= cap
    &&& forall|i: int, j: int| 0 <= i < j < s.len() ==> s[i].0 != s[j].0
}

/// A cache of rendered pages keyed by path, split into sixteen LRU shards
/// of equal capacity.
pub struct ShardedLruCache {
    shards: Vec<PageLru>,
    shard_cap: usize,
}

impl ShardedLruCache {
    /// The entries of each shard, most recently used first.
    pub closed spec fn shards_view(&self) -> Seq<Seq<(Seq<char>, CacheEntry)>> {
        Seq::new(self.shards@.len(), |i: int| lru_entries(self.shards@[i]))
    }

    /// How many entries each shard holds at most.
    pub closed spec fn shard_capacity(&self) -> nat {
        self.shard_cap as nat
    }

    pub proof fn lemma_shape(&self)
        requires
            self.well_formed(),
        ensures
            self.shards_view().len() == SHARDS,
            0 < self.shard_capacity(),
    {
    }

    /// What the cache holds under `k`.
    pub open spec fn lookup(&self, k: Seq<char>) -> Option<CacheEntry> {
        let s = self.shards_view()[shard_of(k)];
        match key_index(s, k) {
            Some(i) => Some(s[i].1),
            None => None,
        }
    }

    /// Sixteen shards of the same capacity, each within it and with unique
    /// keys.
    pub closed spec fn well_formed(&self) -> bool {
        &&& self.shards@.len() == SHARDS
        &&& self.shard_cap > 0
        &&& forall|i: int|
            0 <= i < SHARDS ==> lru_capacity(#[trigger] self.shards@[i]) == self.shard_cap && shard_ok(
                lru_entries(self.shards@[i]),
                self.shard_cap as nat,
            )
    }

    /// An empty cache for about `capacity` entries: each shard holds
    /// `max(1, capacity / 16)`.
    pub fn new(capacity: usize) -> (r: Self)
        ensures
            r.well_formed(),
            r.shard_capacity() == (if capacity / SHARDS > 1 { capacity / SHARDS } else { 1 }),
            r.shards_view() == Seq::new(SHARDS as nat, |i: int| Seq::<(Seq<char>, CacheEntry)>::empty()),
    {
        let per = capacity / SHARDS;
        let shard_cap = if per > 1 {
            per
        } else {
            1
        };
        let mut shards: Vec<PageLru> = Vec::new();
        let mut i: usize = 0;
        while i < SHARDS
            invariant
                i <= SHARDS,
                shards@.len() == i,
                shard_cap > 0,
                forall|j: int|
                    0 <= j < i ==> lru_capacity(#[trigger] shards@[j]) == shard_cap && lru_entries(shards@[j])
                        == Seq::<(Seq<char>, CacheEntry)>::empty(),
            decreases SHARDS - i,
        {
            shards.push(lru_new(shard_cap));
            i = i + 1;
        }
        let r = ShardedLruCache { shards, shard_cap };
        assert(r.shards_view() =~= Seq::new(SHARDS as nat, |i: int| Seq::<(Seq<char>, CacheEntry)>::empty()));
        r
    }

    fn get_shard(&self, k: &String) -> (r: usize)
        ensures
            r == shard_of(k@),
            r < SHARDS,
    {
        let mut hasher = std::hash::DefaultHasher::new();
        hasher.write(k.as_str().as_bytes());
        (hasher.finish() % (SHARDS as u64)) as usize
    }

    /// Looks `k` up; a hit becomes the most recently used entry of its shard.
    pub fn get(&mut self, k: &String) -> (r: Option<CacheEntry>)
        requires
            old(self).well_formed(),
        ensures
            final(self).well_formed(),
            r == old(self).lookup(k@),
            final(self).shard_capacity() == old(self).shard_capacity(),
            final(self).shards_view() == old(self).shards_view().update(
                shard_of(k@),
                lru_touch(old(self).shards_view()[shard_of(k@)], k@),
            ),
    {
        let idx = self.get_shard(k);
        let mut shard = lru_new(1);
        std::mem::swap(&mut shard, &mut self.shards[idx]);
        proof {
            lemma_touch_ok(lru_entries(shard), k@, self.shard_cap as nat);
        }
        let r = lru_get(&mut shard, k);
        self.shards.set(idx, shard);
        assert(self.shards_view() =~= old(self).shards_view().update(
            shard_of(k@),
            lru_touch(old(self).shards_view()[shard_of(k@)], k@),
        ));
        r
    }

    /// Stores `v` under `k` in the shard of `k` (see `lru_store`).
    pub fn put(&mut self, k: String, v: CacheEntry)
        requires
            old(self).well_formed(),
        ensures
            final(self).well_formed(),
            final(self).shard_capacity() == old(self).shard_capacity(),
            final(self).shards_view() == old(self).shards_view().update(
                shard_of(k@),
                lru_store(old(self).shards_view()[shard_of(k@)], k@, v, old(self).shard_capacity()),
            ),
    {
        let idx = self.get_shard(&k);
        let mut shard = lru_new(1);
        std::mem::swap(&mut shard, &mut self.shards[idx]);
        proof {
            lemma_store_ok(lru_entries(shard), k@, v, self.shard_cap as nat);
        }
        let ghost key = k@;
        lru_put(&mut shard, k, v);
        self.shards.set(idx, shard);
        assert(self.shards_view() =~= old(self).shards_view().update(
            shard_of(key),
            lru_store(old(self).shards_view()[shard_of(key)], key, v, old(self).shard_capacity()),
        ));
    }

    /// Empties every shard.
    pub fn clear(&mut self)
        requires
            old(self).well_formed(),
        ensures
            final(self).well_formed(),
            final(self).shard_capacity() == old(self).shard_capacity(),
            final(self).shards_view() == Seq::new(SHARDS as nat, |i: int| Seq::<(Seq<char>, CacheEntry)>::empty()),
    {
        let mut i: usize = 0;
        while i < SHARDS
            invariant
                0 <= i <= SHARDS,
                self.shards@.len() == SHARDS,
                self.shard_cap == old(self).shard_cap,
                self.shard_cap > 0,
                forall|j: int|
                    0 <= j < SHARDS ==> lru_capacity(#[trigger] self.shards@[j]) == self.shard_cap,
                forall|j: int|
                    i <= j < SHARDS ==> lru_entries(#[trigger] self.shards@[j]) == lru_entries(old(self).shards@[j]),
                forall|j: int|
                    0 <= j < i ==> lru_entries(#[trigger] self.shards@[j]) == Seq::<(Seq<char>, CacheEntry)>::empty(),
            decreases SHARDS - i,
        {
            let mut shard = lru_new(1);
            std::mem::swap(&mut shard, &mut self.shards[i]);
            lru_clear(&mut shard);
            self.shards.set(i, shard);
            i = i + 1;
        }
        assert(self.shards_view() =~= Seq::new(SHARDS as nat, |i: int| Seq::<(Seq<char>, CacheEntry)>::empty()));
    }
}

} // verus!
