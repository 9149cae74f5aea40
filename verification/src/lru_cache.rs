//! The LRU caches of the `lru` crate, as the extraction and preview caches
//! use them: what a cache holds is a sequence of (key, value) pairs, the
//! least recently used first.
use lru::LruCache;
use std::num::NonZeroUsize;
use std::sync::Arc;
use vstd::prelude::*;

verus! {

#[verifier::external_type_specification]
#[verifier::external_body]
#[verifier::reject_recursive_types(K)]
#[verifier::reject_recursive_types(V)]
#[verifier::reject_recursive_types(S)]
pub struct ExLruCache<K, V, S>(LruCache<K, V, S>);

#[verifier::external_type_specification]
#[verifier::external_body]
pub struct ExLruHasher(lru::DefaultHasher);

/// What an LRU cache of file sizes holds: (path, size) pairs, the least
/// recently used first.
pub uninterp spec fn lru_entries(cache: LruCache<String, u64>) -> Seq<(Seq<char>, u64)>;

/// How many pairs the cache was made to hold at most.
pub uninterp spec fn lru_cap(cache: LruCache<String, u64>) -> nat;

/// No key occurs twice.
pub open spec fn keys_distinct<K, V>(s: Seq<(K, V)>) -> bool {
    forall|i: int, j: int| 0 <= i < j < s.len() ==> #[trigger] s[i].0 != #[trigger] s[j].0
}

/// What every LRU cache is: distinct paths, no more of them than its capacity,
/// which is at least one.
pub open spec fn lru_wf(cache: LruCache<String, u64>) -> bool {
    &&& keys_distinct(lru_entries(cache))
    &&& lru_entries(cache).len() <= lru_cap(cache)
    &&& lru_cap(cache) > 0
}

/// The value held for `path`, if it is held.
pub open spec fn value_of_key<K, V>(s: Seq<(K, V)>, path: K) -> Option<V>
    decreases s.len(),
{
    if s.len() == 0 {
        None
    } else if s.last().0 == path {
        Some(s.last().1)
    } else {
        value_of_key(s.drop_last(), path)
    }
}

/// The pairs without those for `path`, in their order.
pub open spec fn without_key<K, V>(s: Seq<(K, V)>, path: K) -> Seq<(K, V)>
    decreases s.len(),
{
    if s.len() == 0 {
        s
    } else if s.last().0 == path {
        without_key(s.drop_last(), path)
    } else {
        without_key(s.drop_last(), path).push(s.last())
    }
}

/// The pairs after `put(path, size)` on a cache of capacity `cap`: a held path
/// is updated and becomes the most recent; a new one is added as the most
/// recent, the least recent dropped to make room where the cache is full.
pub open spec fn put_entries<K, V>(s: Seq<(K, V)>, cap: nat, path: K, size: V) -> Seq<(K, V)> {
    if value_of_key(s, path) is Some {
        without_key(s, path).push((path, size))
    } else if s.len() < cap {
        s.push((path, size))
    } else {
        s.drop_first().push((path, size))
    }
}

/// `LruCache::new`: an empty cache of capacity `cap`.
#[verifier::external_body]
pub(crate) fn lru_new(cap: usize) -> (res: LruCache<String, u64>)
    requires
        cap > 0,
    ensures
        lru_entries(res) == Seq::<(Seq<char>, u64)>::empty(),
        lru_cap(res) == cap,
        lru_wf(res),
{
    LruCache::new(NonZeroUsize::new(cap).unwrap_or(NonZeroUsize::MIN))
}

/// `LruCache::put`: stores the pair as the most recent (see `put_entries`) and
/// returns the size the path had.
#[verifier::external_body]
pub(crate) fn lru_put(cache: &mut LruCache<String, u64>, path: String, size: u64) -> (res: Option<u64>)
    ensures
        res == value_of_key(lru_entries(*old(cache)), path@),
        lru_entries(*final(cache)) == put_entries(lru_entries(*old(cache)), lru_cap(*old(cache)), path@, size),
        lru_cap(*final(cache)) == lru_cap(*old(cache)),
        lru_wf(*final(cache)),
{
    cache.put(path, size)
}

/// `LruCache::pop`: removes the path and returns its size, if it was held.
#[verifier::external_body]
pub(crate) fn lru_pop(cache: &mut LruCache<String, u64>, path: &String) -> (res: Option<u64>)
    ensures
        res == value_of_key(lru_entries(*old(cache)), path@),
        lru_entries(*final(cache)) == without_key(lru_entries(*old(cache)), path@),
        lru_cap(*final(cache)) == lru_cap(*old(cache)),
        lru_wf(*final(cache)),
{
    cache.pop(path)
}

/// `LruCache::pop_lru`: removes and returns the least recent pair, `None` on
/// an empty cache.
#[verifier::external_body]
pub(crate) fn lru_pop_lru(cache: &mut LruCache<String, u64>) -> (res: Option<(String, u64)>)
    ensures
        lru_cap(*final(cache)) == lru_cap(*old(cache)),
        lru_wf(*final(cache)),
        lru_entries(*old(cache)).len() == 0 ==> res is None && lru_entries(*final(cache))
            == lru_entries(*old(cache)),
        lru_entries(*old(cache)).len() > 0 ==> (res matches Some(p) && p.0@ == lru_entries(
            *old(cache),
        )[0].0 && p.1 == lru_entries(*old(cache))[0].1) && lru_entries(*final(cache))
            == lru_entries(*old(cache)).drop_first(),
{
    cache.pop_lru()
}

/// `LruCache::get(..).is_some()`: whether the path is held; a held path
/// becomes the most recent.
#[verifier::external_body]
pub(crate) fn lru_get_is_some(cache: &mut LruCache<String, u64>, path: &String) -> (res: bool)
    ensures
        res == (value_of_key(lru_entries(*old(cache)), path@) is Some),
        lru_entries(*final(cache)) == match value_of_key(lru_entries(*old(cache)), path@) {
            Some(size) => without_key(lru_entries(*old(cache)), path@).push((path@, size)),
            None => lru_entries(*old(cache)),
        },
        lru_cap(*final(cache)) == lru_cap(*old(cache)),
        lru_wf(*final(cache)),
{
    cache.get(path).is_some()
}


/// A preview as the preview cache keeps it: its bytes, its MIME type, its size
/// and when it was stored (milliseconds).
pub type PreviewValue = (Arc<Vec<u8>>, String, u64, u64);

/// A preview's key: the archive id and the entry path.
pub type PreviewKey = (String, String);

/// The view of a preview key.
pub open spec fn pk(k: PreviewKey) -> (Seq<char>, Seq<char>) {
    (k.0@, k.1@)
}

/// The view of a kept preview.
pub open spec fn pv(v: PreviewValue) -> (Seq<u8>, Seq<char>, u64, u64) {
    (v.0@, v.1@, v.2, v.3)
}

/// What the LRU cache of previews holds: (key, preview) pairs, the least
/// recently used first.
pub uninterp spec fn preview_entries(cache: LruCache<PreviewKey, PreviewValue>) -> Seq<
    ((Seq<char>, Seq<char>), (Seq<u8>, Seq<char>, u64, u64)),
>;

/// How many previews the cache was made to hold at most.
pub uninterp spec fn preview_cap(cache: LruCache<PreviewKey, PreviewValue>) -> nat;

/// What every preview LRU cache is: distinct keys, no more of them than its
/// capacity, which is at least one.
pub open spec fn preview_wf(cache: LruCache<PreviewKey, PreviewValue>) -> bool {
    &&& keys_distinct(preview_entries(cache))
    &&& preview_entries(cache).len() <= preview_cap(cache)
    &&& preview_cap(cache) > 0
}

/// `LruCache::new` for previews: an empty cache of capacity `cap`.
#[verifier::external_body]
pub(crate) fn preview_new(cap: usize) -> (res: LruCache<PreviewKey, PreviewValue>)
    requires
        cap > 0,
    ensures
        preview_entries(res).len() == 0,
        preview_cap(res) == cap,
        preview_wf(res),
{
    LruCache::new(NonZeroUsize::new(cap).unwrap_or(NonZeroUsize::MIN))
}

/// `LruCache::put` for previews: stores the pair as the most recent (see
/// `put_entries`) and returns the preview the key had.
#[verifier::external_body]
pub(crate) fn preview_put(cache: &mut LruCache<PreviewKey, PreviewValue>, key: PreviewKey, value: PreviewValue) -> (res: Option<PreviewValue>)
    ensures
        match res {
            Some(v) => value_of_key(preview_entries(*old(cache)), pk(key)) == Some(pv(v)),
            None => value_of_key(preview_entries(*old(cache)), pk(key)) is None,
        },
        preview_entries(*final(cache)) == put_entries(preview_entries(*old(cache)), preview_cap(*old(cache)), pk(key), pv(value)),
        preview_cap(*final(cache)) == preview_cap(*old(cache)),
        preview_wf(*final(cache)),
{
    cache.put(key, value)
}

/// `LruCache::pop` for previews: removes the key and returns its preview, if
/// it was held.
#[verifier::external_body]
pub(crate) fn preview_pop(cache: &mut LruCache<PreviewKey, PreviewValue>, key: &PreviewKey) -> (res: Option<PreviewValue>)
    ensures
        match res {
            Some(v) => value_of_key(preview_entries(*old(cache)), pk(*key)) == Some(pv(v)),
            None => value_of_key(preview_entries(*old(cache)), pk(*key)) is None,
        },
        preview_entries(*final(cache)) == without_key(preview_entries(*old(cache)), pk(*key)),
        preview_cap(*final(cache)) == preview_cap(*old(cache)),
        preview_wf(*final(cache)),
{
    cache.pop(key)
}

/// `LruCache::pop_lru` for previews: removes and returns the least recent
/// pair, `None` on an empty cache.
#[verifier::external_body]
pub(crate) fn preview_pop_lru(cache: &mut LruCache<PreviewKey, PreviewValue>) -> (res: Option<(PreviewKey, PreviewValue)>)
    ensures
        preview_cap(*final(cache)) == preview_cap(*old(cache)),
        preview_wf(*final(cache)),
        preview_entries(*old(cache)).len() == 0 ==> res is None && preview_entries(*final(cache))
            == preview_entries(*old(cache)),
        preview_entries(*old(cache)).len() > 0 ==> (res matches Some(p) && pk(p.0) == preview_entries(
            *old(cache),
        )[0].0 && pv(p.1) == preview_entries(*old(cache))[0].1) && preview_entries(*final(cache))
            == preview_entries(*old(cache)).drop_first(),
{
    cache.pop_lru()
}

/// `LruCache::get` for previews: a copy of the key's preview, if it is held;
/// a held key becomes the most recent.
#[verifier::external_body]
pub(crate) fn preview_get(cache: &mut LruCache<PreviewKey, PreviewValue>, key: &PreviewKey) -> (res: Option<PreviewValue>)
    ensures
        match res {
            Some(v) => value_of_key(preview_entries(*old(cache)), pk(*key)) == Some(pv(v)),
            None => value_of_key(preview_entries(*old(cache)), pk(*key)) is None,
        },
        preview_entries(*final(cache)) == match value_of_key(preview_entries(*old(cache)), pk(*key)) {
            Some(v) => without_key(preview_entries(*old(cache)), pk(*key)).push((pk(*key), v)),
            None => preview_entries(*old(cache)),
        },
        preview_cap(*final(cache)) == preview_cap(*old(cache)),
        preview_wf(*final(cache)),
{
    cache.get(key).cloned()
}

} // verus!
