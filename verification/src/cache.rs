//! The cache: object metadata in memory, and the names under which object
//! content is kept on disk.
//!
//! The metadata tier is a bounded cache that drops the entry that was used
//! longest ago. The content tier is a directory of files, one for each
//! object; this module says where each file lies, and leaves reading and
//! writing to the caller.

use vstd::prelude::*;
use lru::LruCache;
use std::num::NonZeroUsize;
use crate::cos_client::{ObjectMeta, ObjectMetaView};
use vstd::string::StringExecFns;
use crate::text::chars_of;

verus! {

/// `lru::DefaultHasher`, the hasher that an `LruCache` uses unless it is
/// given another. Nothing is said of it.
#[verifier::external_type_specification]
#[verifier::external_body]
pub struct ExDefaultHasher(lru::DefaultHasher);

/// `lru::LruCache`. What a cache holds is told by `lru_entries` and
/// `lru_capacity`.
#[verifier::external_type_specification]
#[verifier::external_body]
#[verifier::reject_recursive_types(K)]
#[verifier::reject_recursive_types(V)]
#[verifier::reject_recursive_types(S)]
pub struct ExLruCache<K, V, S>(LruCache<K, V, S>);

/// The entries of the cache, the one used last first.
pub uninterp spec fn lru_entries(cache: LruCache<String, ObjectMeta>) -> Seq<
    (Seq<char>, ObjectMetaView),
>;

/// The number of entries that the cache was made to hold.
pub uninterp spec fn lru_capacity(cache: LruCache<String, ObjectMeta>) -> nat;

/// `entries` holds an entry for `key`.
pub open spec fn holds(entries: Seq<(Seq<char>, ObjectMetaView)>, key: Seq<char>) -> bool {
    exists|i: int| 0 <= i < entries.len() && (#[trigger] entries[i]).0 == key
}

/// The position of the entry for `key`.
pub open spec fn position(entries: Seq<(Seq<char>, ObjectMetaView)>, key: Seq<char>) -> int {
    choose|i: int| 0 <= i < entries.len() && (#[trigger] entries[i]).0 == key
}

/// The metadata that `entries` holds for `key`.
pub open spec fn lookup(entries: Seq<(Seq<char>, ObjectMetaView)>, key: Seq<char>) -> Option<
    ObjectMetaView,
> {
    if holds(entries, key) {
        Some(entries[position(entries, key)].1)
    } else {
        None
    }
}

/// The entries after `key` was used: its entry, if there is one, has moved
/// to the front.
pub open spec fn touch(entries: Seq<(Seq<char>, ObjectMetaView)>, key: Seq<char>) -> Seq<
    (Seq<char>, ObjectMetaView),
> {
    if holds(entries, key) {
        seq![entries[position(entries, key)]] + entries.remove(position(entries, key))
    } else {
        entries
    }
}

/// The entries after `meta` was stored for `key` in a cache made for
/// `capacity` entries. The new entry stands at the front. It replaces the
/// entry that `key` had; if it had none and the cache is full, the last
/// entry, which was used longest ago, leaves.
pub open spec fn insert(
    entries: Seq<(Seq<char>, ObjectMetaView)>,
    capacity: nat,
    key: Seq<char>,
    meta: ObjectMetaView,
) -> Seq<(Seq<char>, ObjectMetaView)> {
    if holds(entries, key) {
        seq![(key, meta)] + entries.remove(position(entries, key))
    } else if entries.len() == capacity {
        seq![(key, meta)] + entries.drop_last()
    } else {
        seq![(key, meta)] + entries
    }
}

/// What holds of the entries of a cache: no key twice, and no more entries
/// than the capacity, which is not 0.
pub open spec fn entries_wf(entries: Seq<(Seq<char>, ObjectMetaView)>, capacity: nat) -> bool {
    &&& 0 < capacity
    &&& entries.len() <= capacity
    &&& forall|i: int, j: int| 0 <= i < j < entries.len() ==> entries[i].0 != entries[j].0
}

/// `LruCache::unbounded`: an empty cache that holds as many entries as a
/// `usize` counts.
#[verifier::external_body]
fn lru_unbounded() -> (cache: LruCache<String, ObjectMeta>)
    ensures
        lru_entries(cache) == Seq::<(Seq<char>, ObjectMetaView)>::empty(),
        lru_capacity(cache) == usize::MAX,
{
    LruCache::unbounded()
}

/// `LruCache::resize`: sets the number of entries that the cache holds at
/// most. Entries beyond it leave, those used longest ago first. The number
/// must not be 0.
#[verifier::external_body]
fn lru_resize(cache: &mut LruCache<String, ObjectMeta>, capacity: usize)
    requires
        capacity > 0,
    ensures
        lru_capacity(*final(cache)) == capacity,
        lru_entries(*final(cache)) == if lru_entries(*old(cache)).len() > capacity {
            lru_entries(*old(cache)).take(capacity as int)
        } else {
            lru_entries(*old(cache))
        },
{
    cache.resize(NonZeroUsize::new(capacity).unwrap());
}

/// `LruCache::get`: a copy of the value stored for `key`, if there is one;
/// the entry then moves to the front.
#[verifier::external_body]
fn lru_get(cache: &mut LruCache<String, ObjectMeta>, key: &str) -> (r: Option<ObjectMeta>)
    ensures
        lru_capacity(*final(cache)) == lru_capacity(*old(cache)),
        lru_entries(*final(cache)) == touch(lru_entries(*old(cache)), key@),
        match r {
            Some(meta) => lookup(lru_entries(*old(cache)), key@) == Some(meta@),
            None => lookup(lru_entries(*old(cache)), key@) is None,
        },
{
    cache.get(key).cloned()
}

/// `LruCache::put`: stores the value for `key` at the front, in place of the
/// entry that `key` had, or else, in a full cache, of the last entry.
#[verifier::external_body]
fn lru_put(cache: &mut LruCache<String, ObjectMeta>, key: String, meta: ObjectMeta)
    ensures
        lru_capacity(*final(cache)) == lru_capacity(*old(cache)),
        lru_entries(*final(cache)) == insert(
            lru_entries(*old(cache)),
            lru_capacity(*old(cache)),
            key@,
            meta@,
        ),
{
    cache.put(key, meta);
}

/// `LruCache::clear`: removes every entry.
#[verifier::external_body]
fn lru_clear(cache: &mut LruCache<String, ObjectMeta>)
    ensures
        lru_capacity(*final(cache)) == lru_capacity(*old(cache)),
        lru_entries(*final(cache)) == Seq::<(Seq<char>, ObjectMetaView)>::empty(),
{
    cache.clear();
}

/// `LruCache::len`: the number of entries.
#[verifier::external_body]
fn lru_len(cache: &LruCache<String, ObjectMeta>) -> (n: usize)
    ensures
        n == lru_entries(*cache).len(),
{
    cache.len()
}

/// In well-formed entries the entry for a key is where the key is found.
pub proof fn lemma_position(entries: Seq<(Seq<char>, ObjectMetaView)>, capacity: nat, i: int)
    requires
        entries_wf(entries, capacity),
        0 <= i < entries.len(),
    ensures
        holds(entries, entries[i].0),
        position(entries, entries[i].0) == i,
        lookup(entries, entries[i].0) == Some(entries[i].1),
{
}

/// Using a key keeps the entries well formed and changes no value.
pub proof fn lemma_touch(
    entries: Seq<(Seq<char>, ObjectMetaView)>,
    capacity: nat,
    key: Seq<char>,
    other: Seq<char>,
)
    requires
        entries_wf(entries, capacity),
    ensures
        entries_wf(touch(entries, key), capacity),
        touch(entries, key).len() == entries.len(),
        lookup(touch(entries, key), other) == lookup(entries, other),
{
    let after = touch(entries, key);
    if holds(entries, key) {
        let p = position(entries, key);
        if holds(entries, other) {
            let q = position(entries, other);
            lemma_position(entries, capacity, q);
            let at = if q == p {
                0
            } else if q < p {
                q + 1
            } else {
                q
            };
            lemma_position(after, capacity, at);
        }
    }
}

/// Storing a value keeps the entries well formed. Afterwards the key yields
/// the value; every other key yields what it did before, unless it was the
/// one to leave.
pub proof fn lemma_insert(
    entries: Seq<(Seq<char>, ObjectMetaView)>,
    capacity: nat,
    key: Seq<char>,
    meta: ObjectMetaView,
    other: Seq<char>,
)
    requires
        entries_wf(entries, capacity),
    ensures
        entries_wf(insert(entries, capacity, key, meta), capacity),
        lookup(insert(entries, capacity, key, meta), key) == Some(meta),
        other != key && !evicts(entries, capacity, key, other) ==> lookup(
            insert(entries, capacity, key, meta),
            other,
        ) == lookup(entries, other),
        evicts(entries, capacity, key, other) ==> lookup(
            insert(entries, capacity, key, meta),
            other,
        ) is None,
{
    let after = insert(entries, capacity, key, meta);
    let p = position(entries, key);
    // Where each entry behind the front came from.
    let from = |i: int|
        if holds(entries, key) && i > p {
            i
        } else {
            i - 1
        };
    assert forall|i: int| 1 <= i < after.len() implies 0 <= from(i) < entries.len() && after[i]
        == entries[from(i)] && entries[from(i)].0 != key by {
        if holds(entries, key) {
            lemma_position(entries, capacity, p);
        }
    }
    lemma_position(after, capacity, 0);
    if other != key {
        if holds(after, other) {
            let q = position(after, other);
            lemma_position(entries, capacity, from(q));
            lemma_position(after, capacity, q);
            assert(from(q) != entries.len() - 1 || holds(entries, key) || entries.len()
                != capacity);
        }
        if holds(entries, other) {
            let q = position(entries, other);
            lemma_position(entries, capacity, q);
            if !evicts(entries, capacity, key, other) {
                let at = if holds(entries, key) && q > p {
                    q
                } else {
                    q + 1
                };
                lemma_position(after, capacity, at);
            }
        }
    }
}

/// Storing a value for `key` makes the entry of `other` leave: the cache is
/// full, `key` is new to it, and `other` is the key that was used longest
/// ago.
pub open spec fn evicts(
    entries: Seq<(Seq<char>, ObjectMetaView)>,
    capacity: nat,
    key: Seq<char>,
    other: Seq<char>,
) -> bool {
    &&& !holds(entries, key)
    &&& entries.len() == capacity
    &&& entries.len() > 0
    &&& entries.last().0 == other
}

/// What was stored for a key is what the key yields next.
pub proof fn law_stored_metadata_is_found(
    entries: Seq<(Seq<char>, ObjectMetaView)>,
    capacity: nat,
    key: Seq<char>,
    meta: ObjectMetaView,
)
    requires
        entries_wf(entries, capacity),
    ensures
        lookup(touch(insert(entries, capacity, key, meta), key), key) == Some(meta),
{
    lemma_insert(entries, capacity, key, meta, key);
    lemma_touch(insert(entries, capacity, key, meta), capacity, key, key);
}

/// A new key that comes to a full cache drives out the entry that was used
/// longest ago, and no other.
pub proof fn law_least_recently_used_leaves(
    entries: Seq<(Seq<char>, ObjectMetaView)>,
    capacity: nat,
    key: Seq<char>,
    meta: ObjectMetaView,
    other: Seq<char>,
)
    requires
        entries_wf(entries, capacity),
        entries.len() == capacity,
        !holds(entries, key),
        holds(entries, other),
    ensures
        insert(entries, capacity, key, meta).len() == capacity,
        other == entries.last().0 ==> lookup(insert(entries, capacity, key, meta), other) is None,
        other != entries.last().0 ==> lookup(insert(entries, capacity, key, meta), other)
            == lookup(entries, other),
{
    lemma_insert(entries, capacity, key, meta, other);
}

/// Use counts, not the time of storing: a key that was read, in a cache of
/// two entries or more, is not the one that the next new key drives out.
pub proof fn law_read_protects_from_eviction(
    entries: Seq<(Seq<char>, ObjectMetaView)>,
    capacity: nat,
    read: Seq<char>,
    key: Seq<char>,
    meta: ObjectMetaView,
)
    requires
        entries_wf(entries, capacity),
        entries.len() >= 2,
        holds(entries, read),
        !holds(entries, key),
    ensures
        lookup(insert(touch(entries, read), capacity, key, meta), read) == lookup(entries, read),
{
    let touched = touch(entries, read);
    lemma_insert(touched, capacity, key, meta, read);
}

/// How many entries each tier of the cache holds.
#[derive(Debug)]
pub struct CacheStats {
    pub metadata_cache_size: usize,
    pub content_cache_size: usize,
}

/// Why a cache could not be made.
#[derive(Debug, Clone, Copy, PartialEq, Eq, Structural)]
pub enum CacheError {
    /// A cache for 0 entries was asked for.
    InvalidCacheSize,
}

/// The character that stands for `c` in a file name: `_` for a separator of
/// paths, `c` itself otherwise.
pub open spec fn safe_char(c: char) -> char {
    if c == '/' || c == '\\' {
        '_'
    } else {
        c
    }
}

/// The name of the file that holds the content of the object `key`.
pub open spec fn cache_file_name(key: Seq<char>) -> Seq<char> {
    Seq::new(key.len(), |i: int| safe_char(key[i])) + ".cache"@
}

/// The path of the file `name` in the directory `dir`, with one `/` between
/// the two unless `dir` is empty or brings its own.
pub open spec fn join_path(dir: Seq<char>, name: Seq<char>) -> Seq<char> {
    if dir.len() == 0 {
        name
    } else if dir.last() == '/' {
        dir + name
    } else {
        dir + seq!['/'] + name
    }
}

/// The two tiers of the cache.
pub struct Cache {
    metadata_cache: LruCache<String, ObjectMeta>,
    cache_dir: String,
}

impl Cache {
    /// The entries of the metadata tier, the one used last first.
    pub closed spec fn entries(&self) -> Seq<(Seq<char>, ObjectMetaView)> {
        lru_entries(self.metadata_cache)
    }

    /// The number of entries that the metadata tier holds at most.
    pub closed spec fn capacity(&self) -> nat {
        lru_capacity(self.metadata_cache)
    }

    /// The directory of the content tier.
    pub closed spec fn dir_view(&self) -> Seq<char> {
        self.cache_dir@
    }

    /// The cache's invariant.
    pub open spec fn wf(&self) -> bool {
        entries_wf(self.entries(), self.capacity())
    }

    /// An empty cache whose metadata tier holds `metadata_cache_size` entries
    /// at most and whose content tier lies in `cache_dir`. A size of 0 is
    /// refused.
    pub fn new(cache_dir: &str, metadata_cache_size: usize) -> (r: Result<Cache, CacheError>)
        ensures
            match r {
                Ok(cache) => {
                    &&& metadata_cache_size > 0
                    &&& cache.wf()
                    &&& cache.entries() == Seq::<(Seq<char>, ObjectMetaView)>::empty()
                    &&& cache.capacity() == metadata_cache_size
                    &&& cache.dir_view() == cache_dir@
                },
                Err(e) => metadata_cache_size == 0 && e == CacheError::InvalidCacheSize,
            },
    {
        if metadata_cache_size == 0 {
            return Err(CacheError::InvalidCacheSize);
        }
        let mut metadata_cache = lru_unbounded();
        lru_resize(&mut metadata_cache, metadata_cache_size);
        Ok(Cache { metadata_cache, cache_dir: cache_dir.to_owned() })
    }

    /// The metadata stored for `key`, if there is any. The entry counts as
    /// used: it will be the last to leave.
    pub fn get_metadata(&mut self, key: &str) -> (r: Option<ObjectMeta>)
        requires
            old(self).wf(),
        ensures
            final(self).wf(),
            final(self).capacity() == old(self).capacity(),
            final(self).dir_view() == old(self).dir_view(),
            final(self).entries() == touch(old(self).entries(), key@),
            match r {
                Some(meta) => lookup(old(self).entries(), key@) == Some(meta@),
                None => lookup(old(self).entries(), key@) is None,
            },
    {
        lru_get(&mut self.metadata_cache, key)
    }

    /// Stores `meta` for `key`, in place of what was stored for it. In a full
    /// cache a new key drives out the entry that was used longest ago.
    pub fn set_metadata(&mut self, key: String, meta: ObjectMeta)
        requires
            old(self).wf(),
        ensures
            final(self).wf(),
            final(self).capacity() == old(self).capacity(),
            final(self).dir_view() == old(self).dir_view(),
            final(self).entries() == insert(
                old(self).entries(),
                old(self).capacity(),
                key@,
                meta@,
            ),
            lookup(final(self).entries(), key@) == Some(meta@),
    {
        proof {
            lemma_insert(self.entries(), self.capacity(), key@, meta@, key@);
        }
        lru_put(&mut self.metadata_cache, key, meta);
    }

    /// The directory of the content tier.
    pub fn cache_dir(&self) -> (dir: &String)
        ensures
            dir@ == self.dir_view(),
    {
        &self.cache_dir
    }

    /// The path of the file that holds the content of the object `key`: in
    /// the cache directory, under the key with `_` for each `/` and `\`, and
    /// `.cache` behind it.
    pub fn get_content_cache_path(&self, key: &str) -> (path: String)
        ensures
            path@ == join_path(self.dir_view(), cache_file_name(key@)),
    {
        let dir = chars_of(self.cache_dir.as_str());
        let k = chars_of(key);
        let mut path = self.cache_dir.clone();
        if dir.len() > 0 && dir[dir.len() - 1] != '/' {
            path.push('/');
        }
        let ghost start = path@;
        let mut i: usize = 0;
        while i < k.len()
            invariant
                i <= k.len(),
                k@ == key@,
                path@ == start + Seq::new(i as nat, |j: int| safe_char(key@[j])),
            decreases k.len() - i,
        {
            let c = k[i];
            if c == '/' || c == '\\' {
                path.push('_');
            } else {
                path.push(c);
            }
            i = i + 1;
        }
        path.append(".cache");
        path
    }

    /// Empties the metadata tier.
    pub fn clear(&mut self)
        requires
            old(self).wf(),
        ensures
            final(self).wf(),
            final(self).entries() == Seq::<(Seq<char>, ObjectMetaView)>::empty(),
            final(self).capacity() == old(self).capacity(),
            final(self).dir_view() == old(self).dir_view(),
    {
        lru_clear(&mut self.metadata_cache);
    }

    /// The size of each tier: the number of entries of the metadata tier,
    /// and the number of files of the content tier as the caller counted
    /// them.
    pub fn get_stats(&self, content_cache_size: usize) -> (stats: CacheStats)
        ensures
            stats.metadata_cache_size == self.entries().len(),
            stats.content_cache_size == content_cache_size,
    {
        CacheStats { metadata_cache_size: lru_len(&self.metadata_cache), content_cache_size }
    }
}

} // verus!
