//! The in-memory cache of entry previews, and the MIME type a preview is
//! served with.
use crate::text::{ascii_lower, ascii_lower_of, chars_of, last_index, last_index_of, lemma_last_index, slice_chars, str_eq_chars};
use crate::lru_cache::{
    pk, preview_cap, preview_entries, preview_get, preview_new, preview_pop, preview_pop_lru, preview_put,
    preview_wf, put_entries, pv, value_of_key, without_key, PreviewKey, PreviewValue,
};
use lru::LruCache;
use std::sync::Arc;
use vstd::prelude::*;

verus! {

/// What follows the last `.` of a path, or the whole path where it has none.
pub open spec fn after_last_dot(p: Seq<char>) -> Seq<char> {
    match last_index(p, '.') {
        Some(k) => p.skip(k + 1),
        None => p,
    }
}

/// The MIME type of a file by its extension; binary where it is not an image.
pub open spec fn mime_spec(path: Seq<char>) -> Seq<char> {
    let ext = ascii_lower(after_last_dot(path));
    if ext == "png"@ {
        "image/png"@
    } else if ext == "jpg"@ || ext == "jpeg"@ {
        "image/jpeg"@
    } else if ext == "gif"@ {
        "image/gif"@
    } else if ext == "webp"@ {
        "image/webp"@
    } else if ext == "bmp"@ {
        "image/bmp"@
    } else {
        "application/octet-stream"@
    }
}

pub fn mime_from_path(path: &str) -> (res: &'static str)
    ensures
        res@ == mime_spec(path@),
{
    let p = chars_of(path);
    proof {
        lemma_last_index(p@, '.');
    }
    let tail = match last_index_of(&p, '.') {
        Some(k) => slice_chars(&p, k + 1, p.len()),
        None => slice_chars(&p, 0, p.len()),
    };
    assert(p@.subrange(0, p@.len() as int) =~= p@);
    let ext = ascii_lower_of(&tail);
    if str_eq_chars("png", &ext) {
        "image/png"
    } else if str_eq_chars("jpg", &ext) || str_eq_chars("jpeg", &ext) {
        "image/jpeg"
    } else if str_eq_chars("gif", &ext) {
        "image/gif"
    } else if str_eq_chars("webp", &ext) {
        "image/webp"
    } else if str_eq_chars("bmp", &ext) {
        "image/bmp"
    } else {
        "application/octet-stream"
    }
}


/// The most bytes of previews kept.
pub const PREVIEW_MAX_BYTES: u64 = 104857600u64;

/// How long a preview stays fresh (milliseconds).
pub const PREVIEW_TTL_MS: u64 = 300000u64;

/// The most previews kept.
pub const PREVIEW_MAX_ENTRIES: usize = 256usize;

/// A kept preview, as the cache views it: bytes, MIME type, size, when stored.
pub type PreviewView = (Seq<u8>, Seq<char>, u64, u64);

/// `a - b`, or zero where `b` is larger.
pub open spec fn sub_or_zero(a: u64, b: u64) -> u64 {
    if a >= b {
        (a - b) as u64
    } else {
        0
    }
}

/// How many of the least recent previews go to make room for `size` bytes:
/// one by one while the kept bytes and the new ones are over the limit.
pub open spec fn preview_evict_count(s: Seq<((Seq<char>, Seq<char>), PreviewView)>, total: u64, size: u64) -> nat
    decreases s.len(),
{
    if total + size <= PREVIEW_MAX_BYTES || s.len() == 0 {
        0
    } else {
        1 + preview_evict_count(s.drop_first(), sub_or_zero(total, s[0].1.2), size)
    }
}

/// The kept bytes once those previews went.
pub open spec fn preview_total_after(s: Seq<((Seq<char>, Seq<char>), PreviewView)>, total: u64, size: u64) -> u64
    decreases s.len(),
{
    if total + size <= PREVIEW_MAX_BYTES || s.len() == 0 {
        total
    } else {
        preview_total_after(s.drop_first(), sub_or_zero(total, s[0].1.2), size)
    }
}

/// The previews held after storing `value` under `key` in a cache of capacity
/// `cap` holding `s` with `total` bytes counted.
pub open spec fn entries_after_put(
    s: Seq<((Seq<char>, Seq<char>), PreviewView)>,
    total: u64,
    cap: nat,
    key: (Seq<char>, Seq<char>),
    value: PreviewView,
) -> Seq<((Seq<char>, Seq<char>), PreviewView)> {
    let s1 = without_key(s, key);
    let t1 = counted_without(s, total, key);
    put_entries(s1.skip(preview_evict_count(s1, t1, value.2) as int), cap, key, value)
}

/// The bytes counted once the preview held under `key`, if any, went.
pub open spec fn counted_without(s: Seq<((Seq<char>, Seq<char>), PreviewView)>, total: u64, key: (Seq<char>, Seq<char>)) -> u64 {
    match value_of_key(s, key) {
        Some(v) => sub_or_zero(total, v.2),
        None => total,
    }
}

/// The bytes counted after storing `value` under `key` (saturating).
pub open spec fn total_after_put(
    s: Seq<((Seq<char>, Seq<char>), PreviewView)>,
    total: u64,
    key: (Seq<char>, Seq<char>),
    value: PreviewView,
) -> u64 {
    let s1 = without_key(s, key);
    let t1 = match value_of_key(s, key) {
        Some(v) => sub_or_zero(total, v.2),
        None => total,
    };
    let t2 = preview_total_after(s1, t1, value.2);
    if t2 + value.2 <= u64::MAX {
        (t2 + value.2) as u64
    } else {
        u64::MAX
    }
}

/// What a lookup of `key` at time `now` gives: the bytes and MIME type of a
/// held preview stored at most `PREVIEW_TTL_MS` before.
pub open spec fn lookup_result(s: Seq<((Seq<char>, Seq<char>), PreviewView)>, key: (Seq<char>, Seq<char>), now: u64) -> Option<(Seq<u8>, Seq<char>)> {
    match value_of_key(s, key) {
        Some(v) => if sub_or_zero(now, v.3) > PREVIEW_TTL_MS {
            None
        } else {
            Some((v.0, v.1))
        },
        None => None,
    }
}

/// Recently shown previews, kept in memory up to `PREVIEW_MAX_BYTES`
/// and `PREVIEW_MAX_ENTRIES`, each fresh for `PREVIEW_TTL_MS`.
pub struct PreviewCache {
    pub entries: LruCache<PreviewKey, PreviewValue>,
    pub total_bytes: u64,
}

impl PreviewCache {
    pub fn new() -> (res: Self)
        ensures
            preview_entries(res.entries).len() == 0,
            preview_cap(res.entries) == PREVIEW_MAX_ENTRIES,
            preview_wf(res.entries),
            res.total_bytes == 0,
    {
        PreviewCache { entries: preview_new(PREVIEW_MAX_ENTRIES), total_bytes: 0 }
    }

    /// The preview of an entry of an archive, if one is held and still fresh
    /// at `now` (milliseconds); a held one becomes the most recent, fresh or
    /// not.
    pub fn get(&mut self, archive_id: &str, entry_path: &str, now: u64) -> (res: Option<(Arc<Vec<u8>>, String)>)
        ensures
            ({
                let key = (archive_id@, entry_path@);
                let e0 = preview_entries(old(self).entries);
                &&& match res {
                    Some(r) => lookup_result(e0, key, now) == Some((r.0@, r.1@)),
                    None => lookup_result(e0, key, now) is None,
                }
                &&& preview_entries(final(self).entries) == match value_of_key(e0, key) {
                    Some(v) => without_key(e0, key).push((key, v)),
                    None => e0,
                }
            }),
            final(self).total_bytes == old(self).total_bytes,
            preview_cap(final(self).entries) == preview_cap(old(self).entries),
            preview_wf(final(self).entries),
    {
        let key: PreviewKey = (String::from_str(archive_id), String::from_str(entry_path));
        match preview_get(&mut self.entries, &key) {
            Some(v) => {
                let age = if now >= v.3 { now - v.3 } else { 0 };
                if age > PREVIEW_TTL_MS {
                    None
                } else {
                    Some((v.0, v.1))
                }
            },
            None => None,
        }
    }

    /// Stores the preview of an entry, stored at `now` (milliseconds): its old
    /// preview goes, then the least recent ones while the kept bytes and the
    /// new ones are over `PREVIEW_MAX_BYTES`.
    pub fn put(&mut self, archive_id: &str, entry_path: &str, bytes: Vec<u8>, mime: String, now: u64)
        ensures
            ({
                let key = (archive_id@, entry_path@);
                let value = (bytes@, mime@, bytes@.len() as u64, now);
                let e0 = preview_entries(old(self).entries);
                &&& preview_entries(final(self).entries) == entries_after_put(
                    e0,
                    old(self).total_bytes,
                    preview_cap(old(self).entries),
                    key,
                    value,
                )
                &&& final(self).total_bytes == total_after_put(e0, old(self).total_bytes, key, value)
            }),
            preview_cap(final(self).entries) == preview_cap(old(self).entries),
            preview_wf(final(self).entries),
    {
        let key: PreviewKey = (String::from_str(archive_id), String::from_str(entry_path));
        let ghost kv = pk(key);
        let size: u64 = bytes.len() as u64;
        let ghost value = (bytes@, mime@, size, now);
        let mut total = self.total_bytes;
        match preview_pop(&mut self.entries, &key) {
            Some(old_entry) => {
                total = if total >= old_entry.2 { total - old_entry.2 } else { 0 };
            },
            None => {},
        }
        let ghost s1 = preview_entries(self.entries);
        let ghost t1 = total;
        let ghost mut n: nat = 0;
        while total > u64::MAX - size || total + size > PREVIEW_MAX_BYTES
            invariant_except_break
                n <= s1.len(),
                preview_entries(self.entries) == s1.skip(n as int),
                preview_evict_count(s1, t1, size) == n + preview_evict_count(preview_entries(self.entries), total, size),
                preview_total_after(s1, t1, size) == preview_total_after(preview_entries(self.entries), total, size),
                preview_cap(self.entries) == preview_cap(old(self).entries),
                preview_wf(self.entries),
            ensures
                n <= s1.len(),
                preview_entries(self.entries) == s1.skip(n as int),
                preview_evict_count(s1, t1, size) == n,
                preview_total_after(s1, t1, size) == total,
                preview_cap(self.entries) == preview_cap(old(self).entries),
                preview_wf(self.entries),
            decreases preview_entries(self.entries).len(),
        {
            let ghost cur = preview_entries(self.entries);
            match preview_pop_lru(&mut self.entries) {
                Some(pair) => {
                    let ev = pair.1;
                    total = if total >= ev.2 { total - ev.2 } else { 0 };
                    proof {
                        n = n + 1;
                    }
                    assert(cur.drop_first() =~= s1.skip(n as int));
                },
                None => {
                    break;
                },
            }
        }
        total = if total <= u64::MAX - size { total + size } else { u64::MAX };
        let arc_bytes = Arc::new(bytes);
        let v: PreviewValue = (arc_bytes, mime, size, now);
        assert(pv(v) == value);
        preview_put(&mut self.entries, key, v);
        self.total_bytes = total;
    }
}

/// A lookup right after storing gives back what was stored, while it is
/// fresh.
pub proof fn lemma_preview_read_back(
    s: Seq<((Seq<char>, Seq<char>), PreviewView)>,
    total: u64,
    cap: nat,
    key: (Seq<char>, Seq<char>),
    value: PreviewView,
    now: u64,
)
    requires
        sub_or_zero(now, value.3) <= PREVIEW_TTL_MS,
    ensures
        lookup_result(entries_after_put(s, total, cap, key, value), key, now) == Some((value.0, value.1)),
{
}

proof fn lemma_value_without_other<K, V>(s: Seq<(K, V)>, k: K, k2: K)
    requires
        k2 != k,
    ensures
        value_of_key(without_key(s, k), k2) == value_of_key(s, k2),
    decreases s.len(),
{
    if s.len() > 0 {
        lemma_value_without_other(s.drop_last(), k, k2);
        if s.last().0 != k {
            assert(without_key(s, k).drop_last() =~= without_key(s.drop_last(), k));
        }
    }
}

proof fn lemma_value_without_self<K, V>(s: Seq<(K, V)>, k: K)
    ensures
        value_of_key(without_key(s, k), k) is None,
    decreases s.len(),
{
    if s.len() > 0 {
        lemma_value_without_self(s.drop_last(), k);
        if s.last().0 != k {
            assert(without_key(s, k).drop_last() =~= without_key(s.drop_last(), k));
        }
    }
}

/// An earlier preview survives storing another while nothing has to go for
/// it: the bytes counted (without the stored key's old preview) and the new
/// ones stay within `PREVIEW_MAX_BYTES`, and the cache has room for one more.
pub proof fn lemma_preview_other_key_kept(
    s: Seq<((Seq<char>, Seq<char>), PreviewView)>,
    total: u64,
    cap: nat,
    key: (Seq<char>, Seq<char>),
    value: PreviewView,
    other: (Seq<char>, Seq<char>),
    now: u64,
)
    requires
        other != key,
        counted_without(s, total, key) + value.2 <= PREVIEW_MAX_BYTES,
        without_key(s, key).len() < cap,
    ensures
        value_of_key(entries_after_put(s, total, cap, key, value), other) == value_of_key(s, other),
        lookup_result(entries_after_put(s, total, cap, key, value), other, now) == lookup_result(s, other, now),
{
    let s1 = without_key(s, key);
    assert(preview_evict_count(s1, counted_without(s, total, key), value.2) == 0);
    assert(s1.skip(0) =~= s1);
    lemma_value_without_self(s, key);
    lemma_value_without_other(s, key, other);
    let r = s1.push((key, value));
    assert(entries_after_put(s, total, cap, key, value) == r);
    assert(r.drop_last() =~= s1);
}

} // verus!
