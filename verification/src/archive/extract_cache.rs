//! The extraction cache: where a cached entry lives, keyed by archive and
//! entry, and the names files take while they are written.
use crate::archive::hehe_paths::normalized_entry;
use crate::archive::path_safety::{relative_out, relative_out_path};
use crate::digests::{sha256_hex, sha256_hex_of};
use crate::path::{file_name, file_name_of, join, join_of, parent, parent_of};
use crate::text::{append_str, chars_of, string_of, trim, trim_chars};
use vstd::bytes::{lemma_auto_spec_u64_to_from_le_bytes, spec_u64_from_le_bytes, spec_u64_to_le_bytes, u64_to_le_bytes};
use vstd::prelude::*;
use vstd::slice::slice_to_vec;
use vstd::utf8::encode_utf8;
use crate::lru_cache::{
    keys_distinct, lru_cap, lru_entries, lru_get_is_some, lru_new, lru_pop, lru_pop_lru, lru_put, lru_wf,
    put_entries, value_of_key, without_key,
};
use lru::LruCache;

pub use crate::archive::hehe_paths::normalize_entry_path;

verus! {

/// The key of a cached entry: the SHA-256 of its normalized path, then one
/// byte for whether paths are kept.
pub open spec fn entry_key_spec(entry_path: Seq<char>, preserve_paths: bool) -> Seq<char> {
    sha256_hex_of(encode_utf8(normalized_entry(entry_path)) + seq![if preserve_paths { 1u8 } else { 0u8 }])
}

/// Entry paths that normalize alike share one cache file (for the same
/// flag); the file depends on the entry path only through its normal form.
pub proof fn lemma_same_normal_form_same_key(a: Seq<char>, b: Seq<char>, preserve_paths: bool)
    requires
        normalized_entry(a) == normalized_entry(b),
    ensures
        entry_key_spec(a, preserve_paths) == entry_key_spec(b, preserve_paths),
{
}

pub fn entry_key(entry_path: &str, preserve_paths: bool) -> (res: String)
    ensures
        res@ == entry_key_spec(entry_path@, preserve_paths),
{
    let norm = normalize_entry_path(entry_path);
    let mut data = slice_to_vec(norm.as_str().as_bytes());
    let flag: u8 = if preserve_paths {
        1
    } else {
        0
    };
    data.push(flag);
    assert(data@ =~= encode_utf8(normalized_entry(entry_path@)) + seq![flag]);
    sha256_hex(data.as_slice())
}

/// Where an entry is cached under the cache root: a folder per archive, a
/// file per entry key.
pub fn cache_file_path_with_hash(
    root: &str,
    archive_hash: &str,
    entry_path: &str,
    preserve_paths: bool,
) -> (res: String)
    ensures
        res@ == join(join(root@, archive_hash@), entry_key_spec(entry_path@, preserve_paths)),
{
    let ek = entry_key(entry_path, preserve_paths);
    let a = join_of(&chars_of(root), &chars_of(archive_hash));
    let j = join_of(&a, &chars_of(ek.as_str()));
    string_of(&j)
}

/// The fingerprint of an archive file: the SHA-256 of its canonical path, its
/// modification time (seconds) and its size, little-endian.
pub open spec fn archive_hash_spec(canonical: Seq<char>, mtime_secs: u64, size: u64) -> Seq<char> {
    sha256_hex_of(encode_utf8(canonical) + spec_u64_to_le_bytes(mtime_secs) + spec_u64_to_le_bytes(size))
}

/// The fingerprint is the SHA-256 of data from which the canonical path, the
/// modification time and the size can all be read back: the path's UTF-8
/// bytes, then eight bytes of the time and eight of the size, little-endian.
pub proof fn lemma_archive_hash_data(canonical: Seq<char>, mtime_secs: u64, size: u64)
    ensures
        exists|d: Seq<u8>|
            #[trigger] sha256_hex_of(d) == archive_hash_spec(canonical, mtime_secs, size) && d.len() >= 16
                && d.take(d.len() - 16) == encode_utf8(canonical) && spec_u64_from_le_bytes(
                d.subrange(d.len() - 16, d.len() - 8),
            ) == mtime_secs && spec_u64_from_le_bytes(d.skip(d.len() - 8)) == size,
{
    lemma_auto_spec_u64_to_from_le_bytes();
    let e = encode_utf8(canonical);
    let mb = spec_u64_to_le_bytes(mtime_secs);
    let sb = spec_u64_to_le_bytes(size);
    let d = e + mb + sb;
    assert(d.take(d.len() - 16) =~= e);
    assert(d.subrange(d.len() - 16, d.len() - 8) =~= mb);
    assert(d.skip(d.len() - 8) =~= sb);
    assert(sha256_hex_of(d) == archive_hash_spec(canonical, mtime_secs, size));
}

/// Two versions of one archive file (same canonical path) that differ in
/// modification time or in size are fingerprinted from different data, so a
/// rewritten archive is not taken for its older version unless SHA-256
/// collides.
pub proof fn lemma_archive_hash_tells_versions_apart(
    canonical: Seq<char>,
    m1: u64,
    s1: u64,
    m2: u64,
    s2: u64,
)
    requires
        m1 != m2 || s1 != s2,
    ensures
        exists|d1: Seq<u8>, d2: Seq<u8>|
            d1 != d2 && #[trigger] sha256_hex_of(d1) == archive_hash_spec(canonical, m1, s1)
                && #[trigger] sha256_hex_of(d2) == archive_hash_spec(canonical, m2, s2),
{
    lemma_archive_hash_data(canonical, m1, s1);
    lemma_archive_hash_data(canonical, m2, s2);
    let d1 = choose|d: Seq<u8>|
        #[trigger] sha256_hex_of(d) == archive_hash_spec(canonical, m1, s1) && d.len() >= 16
            && d.take(d.len() - 16) == encode_utf8(canonical) && spec_u64_from_le_bytes(
            d.subrange(d.len() - 16, d.len() - 8),
        ) == m1 && spec_u64_from_le_bytes(d.skip(d.len() - 8)) == s1;
    let d2 = choose|d: Seq<u8>|
        #[trigger] sha256_hex_of(d) == archive_hash_spec(canonical, m2, s2) && d.len() >= 16
            && d.take(d.len() - 16) == encode_utf8(canonical) && spec_u64_from_le_bytes(
            d.subrange(d.len() - 16, d.len() - 8),
        ) == m2 && spec_u64_from_le_bytes(d.skip(d.len() - 8)) == s2;
    assert(d1 != d2);
}

pub fn archive_hash_of(canonical: &str, mtime_secs: u64, size: u64) -> (res: String)
    ensures
        res@ == archive_hash_spec(canonical@, mtime_secs, size),
{
    let mut data = slice_to_vec(canonical.as_bytes());
    let m = u64_to_le_bytes(mtime_secs);
    data.extend_from_slice(m.as_slice());
    let s = u64_to_le_bytes(size);
    data.extend_from_slice(s.as_slice());
    assert(data@ =~= encode_utf8(canonical@) + spec_u64_to_le_bytes(mtime_secs) + spec_u64_to_le_bytes(size));
    sha256_hex(data.as_slice())
}

/// The name a file has while it is written: its name with `.part`, in the same
/// folder (the path as it is where it has no name).
pub open spec fn part_path(dest: Seq<char>) -> Seq<char> {
    let name = match file_name(dest) {
        Some(n) => n,
        None => Seq::empty(),
    };
    match parent(dest) {
        Some(p) => join(p, name + ".part"@),
        None => dest,
    }
}

pub fn part_path_for(dest: &str) -> (res: String)
    ensures
        res@ == part_path(dest@),
{
    let d = chars_of(dest);
    let mut name = match file_name_of(&d) {
        Some(n) => n,
        None => Vec::new(),
    };
    append_str(&mut name, ".part");
    match parent_of(&d) {
        Some(p) => {
            let j = join_of(&p, &name);
            string_of(&j)
        },
        None => string_of(&d),
    }
}

/// Where an entry goes under a folder: its whole path (with `\` separators)
/// where paths are kept, else its file name.
pub open spec fn out_path_under(dir: Seq<char>, entry_path: Seq<char>, preserve_paths: bool) -> Seq<char> {
    join(dir, relative_out(entry_path, preserve_paths))
}

pub fn session_out_path(session_dir: &str, entry_path: &str, preserve_paths: bool) -> (res: String)
    ensures
        res@ == out_path_under(session_dir@, entry_path@, preserve_paths),
{
    let r = relative_out_path(entry_path, preserve_paths);
    let j = join_of(&chars_of(session_dir), &chars_of(r.as_str()));
    string_of(&j)
}


/// The most bytes the extraction cache keeps.
pub const MAX_CACHE_BYTES: u64 = 5368709120u64;

/// The most files the extraction cache keeps track of.
pub const MAX_LRU_ENTRIES: usize = 4096usize;

/// `a - b`, or zero where `b` is larger.
pub open spec fn sat_sub(a: u64, b: u64) -> u64 {
    if a >= b {
        (a - b) as u64
    } else {
        0
    }
}

/// `a + b`, or `u64::MAX` where that overflows.
pub open spec fn sat_add(a: u64, b: u64) -> u64 {
    if a + b <= u64::MAX {
        (a + b) as u64
    } else {
        u64::MAX
    }
}

/// How many of the least recent pairs go: they go one by one while the count
/// is over the limit.
pub open spec fn evict_count(s: Seq<(Seq<char>, u64)>, total: u64) -> nat
    decreases s.len(),
{
    if total <= MAX_CACHE_BYTES || s.len() == 0 {
        0
    } else {
        1 + evict_count(s.drop_first(), sat_sub(total, s[0].1))
    }
}

/// The byte count once those pairs went.
pub open spec fn total_after_evict(s: Seq<(Seq<char>, u64)>, total: u64) -> u64
    decreases s.len(),
{
    if total <= MAX_CACHE_BYTES || s.len() == 0 {
        total
    } else {
        total_after_evict(s.drop_first(), sat_sub(total, s[0].1))
    }
}

/// The pairs once `path` is registered with `size` (before any eviction).
pub open spec fn registered_entries(s: Seq<(Seq<char>, u64)>, cap: nat, path: Seq<char>, size: u64) -> Seq<(Seq<char>, u64)> {
    put_entries(without_key(s, path), cap, path, size)
}

/// The byte count once `path` is registered with `size` (before any
/// eviction): its old size out, the new one in.
pub open spec fn registered_total(s: Seq<(Seq<char>, u64)>, total: u64, path: Seq<char>, size: u64) -> u64 {
    let t = match value_of_key(s, path) {
        Some(old_size) => sat_sub(total, old_size),
        None => total,
    };
    sat_add(t, size)
}

/// Which cached files exist and how many bytes they take, the least recently
/// used first.
pub struct LruState {
    pub total_bytes: u64,
    pub entries: LruCache<String, u64>,
}

impl LruState {
    /// An empty index that tracks up to `MAX_LRU_ENTRIES` files.
    pub fn new() -> (res: Self)
        ensures
            res.total_bytes == 0,
            lru_entries(res.entries) == Seq::<(Seq<char>, u64)>::empty(),
            lru_cap(res.entries) == MAX_LRU_ENTRIES,
            lru_wf(res.entries),
    {
        LruState { total_bytes: 0, entries: lru_new(MAX_LRU_ENTRIES) }
    }

    /// Records that `path` holds `size` bytes and makes it the most recent,
    /// then drops the least recent files while the cache is over
    /// `MAX_CACHE_BYTES`. Returns the dropped paths, whose files are to be
    /// removed.
    pub fn register_and_evict(&mut self, path: &str, size: u64) -> (evicted: Vec<String>)
        ensures
            ({
                let e0 = lru_entries(old(self).entries);
                let e2 = registered_entries(e0, lru_cap(old(self).entries), path@, size);
                let t2 = registered_total(e0, old(self).total_bytes, path@, size);
                let n = evict_count(e2, t2);
                &&& n <= e2.len()
                &&& lru_entries(final(self).entries) == e2.skip(n as int)
                &&& final(self).total_bytes == total_after_evict(e2, t2)
                &&& evicted@.len() == n
                &&& forall|i: int| 0 <= i < n ==> #[trigger] evicted@[i]@ == e2[i].0
            }),
            lru_cap(final(self).entries) == lru_cap(old(self).entries),
            lru_wf(final(self).entries),
    {
        let key = String::from_str(path);
        let mut total = self.total_bytes;
        match lru_pop(&mut self.entries, &key) {
            Some(old_size) => {
                total = if total >= old_size { total - old_size } else { 0 };
            },
            None => {},
        }
        total = if total <= u64::MAX - size { total + size } else { u64::MAX };
        lru_put(&mut self.entries, key, size);
        let ghost e2 = lru_entries(self.entries);
        let ghost t2 = total;
        let mut evicted: Vec<String> = Vec::new();
        while total > MAX_CACHE_BYTES
            invariant_except_break
                evicted@.len() <= e2.len(),
                lru_entries(self.entries) == e2.skip(evicted@.len() as int),
                evict_count(e2, t2) == evicted@.len() + evict_count(lru_entries(self.entries), total),
                total_after_evict(e2, t2) == total_after_evict(lru_entries(self.entries), total),
                forall|i: int| 0 <= i < evicted@.len() ==> #[trigger] evicted@[i]@ == e2[i].0,
                lru_cap(self.entries) == lru_cap(old(self).entries),
                lru_wf(self.entries),
            ensures
                evicted@.len() <= e2.len(),
                lru_entries(self.entries) == e2.skip(evicted@.len() as int),
                evict_count(e2, t2) == evicted@.len(),
                total_after_evict(e2, t2) == total,
                forall|i: int| 0 <= i < evicted@.len() ==> #[trigger] evicted@[i]@ == e2[i].0,
                lru_cap(self.entries) == lru_cap(old(self).entries),
                lru_wf(self.entries),
            decreases lru_entries(self.entries).len(),
        {
            let ghost cur = lru_entries(self.entries);
            match lru_pop_lru(&mut self.entries) {
                None => {
                    break;
                },
                Some(pair) => {
                    let (p, s) = pair;
                    total = if total >= s { total - s } else { 0 };
                    evicted.push(p);
                    assert(cur.drop_first() =~= e2.skip(evicted@.len() as int));
                },
            }
        }
        self.total_bytes = total;
        evicted
    }

    /// Marks a cached file as used: a tracked one becomes the most recent; an
    /// untracked one whose size could be read (`size`) is registered as by
    /// `register_and_evict`. Returns the paths dropped to make room.
    pub fn touch(&mut self, path: &str, size: Option<u64>) -> (evicted: Vec<String>)
        ensures
            ({
                let e0 = lru_entries(old(self).entries);
                match value_of_key(e0, path@) {
                    Some(held) => {
                        &&& lru_entries(final(self).entries) == without_key(e0, path@).push((path@, held))
                        &&& final(self).total_bytes == old(self).total_bytes
                        &&& evicted@.len() == 0
                    },
                    None => match size {
                        None => {
                            &&& lru_entries(final(self).entries) == e0
                            &&& final(self).total_bytes == old(self).total_bytes
                            &&& evicted@.len() == 0
                        },
                        Some(sz) => {
                            let e2 = registered_entries(e0, lru_cap(old(self).entries), path@, sz);
                            let t2 = registered_total(e0, old(self).total_bytes, path@, sz);
                            let n = evict_count(e2, t2);
                            &&& lru_entries(final(self).entries) == e2.skip(n as int)
                            &&& final(self).total_bytes == total_after_evict(e2, t2)
                            &&& evicted@.len() == n
                            &&& forall|i: int| 0 <= i < n ==> #[trigger] evicted@[i]@ == e2[i].0
                        },
                    },
                }
            }),
            lru_cap(final(self).entries) == lru_cap(old(self).entries),
            lru_wf(final(self).entries),
    {
        let key = String::from_str(path);
        if lru_get_is_some(&mut self.entries, &key) {
            return Vec::new();
        }
        match size {
            Some(sz) => self.register_and_evict(path, sz),
            None => Vec::new(),
        }
    }
}

/// The bytes the pairs hold together.
pub open spec fn sizes_total(s: Seq<(Seq<char>, u64)>) -> int
    decreases s.len(),
{
    if s.len() == 0 {
        0
    } else {
        sizes_total(s.drop_last()) + s.last().1
    }
}

proof fn lemma_sizes_total_first(s: Seq<(Seq<char>, u64)>)
    requires
        s.len() > 0,
    ensures
        sizes_total(s) == s[0].1 + sizes_total(s.drop_first()),
    decreases s.len(),
{
    if s.len() > 1 {
        lemma_sizes_total_first(s.drop_last());
        assert(s.drop_last().drop_first() =~= s.drop_first().drop_last());
        assert(s.drop_first().last() == s.last());
        assert(s.drop_last()[0] == s[0]);
        assert(sizes_total(s) == sizes_total(s.drop_last()) + s.last().1);
        assert(sizes_total(s.drop_first()) == sizes_total(s.drop_first().drop_last()) + s.drop_first().last().1);
    } else {
        assert(s.drop_first().len() == 0);
        assert(s.drop_last().len() == 0);
        assert(s.last() == s[0]);
        assert(sizes_total(s.drop_first()) == 0);
        assert(sizes_total(s.drop_last()) == 0);
        assert(sizes_total(s) == sizes_total(s.drop_last()) + s.last().1);
    }
}

proof fn lemma_sizes_total_nonneg(s: Seq<(Seq<char>, u64)>)
    ensures
        sizes_total(s) >= 0,
    decreases s.len(),
{
    if s.len() > 0 {
        lemma_sizes_total_nonneg(s.drop_last());
    }
}

proof fn lemma_without_key(s: Seq<(Seq<char>, u64)>, path: Seq<char>)
    requires
        keys_distinct(s),
    ensures
        sizes_total(without_key(s, path)) + match value_of_key(s, path) {
            Some(z) => z as int,
            None => 0int,
        } == sizes_total(s),
        value_of_key(without_key(s, path), path) is None,
        keys_distinct(without_key(s, path)),
        without_key(s, path).len() + (if value_of_key(s, path) is Some { 1int } else { 0int }) == s.len(),
    decreases s.len(),
{
    if s.len() > 0 {
        let t = s.drop_last();
        assert(keys_distinct(t));
        lemma_without_key(t, path);
        if s.last().0 == path {
            lemma_key_absent(t, path);
        } else {
            let w = without_key(t, path);
            assert(w.push(s.last()).drop_last() =~= w);
            lemma_key_absent_in(t, s.last().0, s);
            lemma_absent_after_removal(t, path, s.last().0);
            assert forall|i: int, j: int| 0 <= i < j < w.push(s.last()).len() implies
                #[trigger] w.push(s.last())[i].0 != #[trigger] w.push(s.last())[j].0 by {
                if j == w.len() {
                    lemma_absent_index(w, s.last().0, i);
                }
            }
        }
    }
}

/// A path that is not the last of a distinct list is not held before it.
proof fn lemma_key_absent(t: Seq<(Seq<char>, u64)>, path: Seq<char>)
    requires
        forall|i: int| 0 <= i < t.len() ==> #[trigger] t[i].0 != path,
    ensures
        value_of_key(t, path) is None,
    decreases t.len(),
{
    if t.len() > 0 {
        assert(t.last().0 != path) by { assert(t[t.len() - 1].0 != path); }
        lemma_key_absent(t.drop_last(), path);
    }
}

proof fn lemma_key_absent_in(t: Seq<(Seq<char>, u64)>, path: Seq<char>, s: Seq<(Seq<char>, u64)>)
    requires
        s.len() > 0,
        t == s.drop_last(),
        path == s.last().0,
        keys_distinct(s),
    ensures
        value_of_key(t, path) is None,
{
    assert forall|i: int| 0 <= i < t.len() implies #[trigger] t[i].0 != path by {
        assert(s[i].0 != s[s.len() - 1].0);
    }
    lemma_key_absent(t, path);
}

proof fn lemma_absent_after_removal(t: Seq<(Seq<char>, u64)>, path: Seq<char>, q: Seq<char>)
    requires
        value_of_key(t, q) is None,
    ensures
        value_of_key(without_key(t, path), q) is None,
    decreases t.len(),
{
    if t.len() > 0 {
        lemma_absent_after_removal(t.drop_last(), path, q);
        let w = without_key(t.drop_last(), path);
        assert(w.push(t.last()).drop_last() =~= w);
    }
}

proof fn lemma_absent_index(w: Seq<(Seq<char>, u64)>, path: Seq<char>, i: int)
    requires
        value_of_key(w, path) is None,
        0 <= i < w.len(),
    ensures
        w[i].0 != path,
    decreases w.len(),
{
    if i < w.len() - 1 {
        assert(w.drop_last()[i] == w[i]);
        lemma_absent_index(w.drop_last(), path, i);
    }
}

proof fn lemma_evict_sum(s: Seq<(Seq<char>, u64)>, total: u64)
    requires
        total == sizes_total(s),
    ensures
        evict_count(s, total) <= s.len(),
        total_after_evict(s, total) == sizes_total(s.skip(evict_count(s, total) as int)),
    decreases s.len(),
{
    if total <= MAX_CACHE_BYTES || s.len() == 0 {
        assert(s.skip(0) =~= s);
    } else {
        lemma_sizes_total_first(s);
        lemma_sizes_total_nonneg(s.drop_first());
        lemma_evict_sum(s.drop_first(), sat_sub(total, s[0].1));
        assert(s.drop_first().skip(evict_count(s.drop_first(), sat_sub(total, s[0].1)) as int)
            =~= s.skip(evict_count(s, total) as int));
    }
}

proof fn lemma_evict_bound(s: Seq<(Seq<char>, u64)>, total: u64)
    ensures
        evict_count(s, total) <= s.len(),
        total_after_evict(s, total) <= MAX_CACHE_BYTES || evict_count(s, total) == s.len(),
    decreases s.len(),
{
    if !(total <= MAX_CACHE_BYTES || s.len() == 0) {
        lemma_evict_bound(s.drop_first(), sat_sub(total, s[0].1));
    }
}

/// After a file is registered, the cache holds at most `MAX_CACHE_BYTES`, or
/// nothing at all.
pub proof fn lemma_register_bounds_cache(e0: Seq<(Seq<char>, u64)>, cap: nat, total: u64, path: Seq<char>, size: u64)
    ensures
        ({
            let e2 = registered_entries(e0, cap, path, size);
            let t2 = registered_total(e0, total, path, size);
            total_after_evict(e2, t2) <= MAX_CACHE_BYTES || e2.skip(evict_count(e2, t2) as int).len() == 0
        }),
{
    let e2 = registered_entries(e0, cap, path, size);
    let t2 = registered_total(e0, total, path, size);
    lemma_evict_bound(e2, t2);
}

/// Registering a file keeps the byte count equal to the sizes the cache holds,
/// where it held them before, nothing overflows, and the cache need not drop
/// a file silently to make room (it is not full, or already holds the path).
pub proof fn lemma_register_keeps_total(e0: Seq<(Seq<char>, u64)>, cap: nat, total: u64, path: Seq<char>, size: u64)
    requires
        keys_distinct(e0),
        e0.len() <= cap,
        total == sizes_total(e0),
        sizes_total(e0) + size <= u64::MAX,
        e0.len() < cap || value_of_key(e0, path) is Some,
    ensures
        ({
            let e2 = registered_entries(e0, cap, path, size);
            let t2 = registered_total(e0, total, path, size);
            total_after_evict(e2, t2) == sizes_total(e2.skip(evict_count(e2, t2) as int))
        }),
{
    lemma_without_key(e0, path);
    lemma_sizes_total_nonneg(without_key(e0, path));
    let w = without_key(e0, path);
    let e2 = registered_entries(e0, cap, path, size);
    assert(e2 == w.push((path, size)));
    assert(e2.drop_last() =~= w);
    let t2 = registered_total(e0, total, path, size);
    assert(t2 == sizes_total(e2));
    lemma_evict_sum(e2, t2);
}


/// `dirs::data_local_dir()` as text: the user's local data folder, where the
/// platform has one. It depends on the environment, so nothing is promised
/// of it.
#[verifier::external_body]
fn data_local_dir() -> (res: Option<String>) {
    dirs::data_local_dir().map(|p| p.to_string_lossy().into_owned())
}

/// The extraction cache under a base folder.
pub open spec fn cache_root_under(base: Seq<char>) -> Seq<char> {
    join(join(base, "Hehel-Zip"@), "extract-cache"@)
}

/// Where the extraction cache lives: a folder the user chose, else one under
/// the local data folder, else under the temporary folder.
pub struct CacheRootSetting {
    pub custom_root: Option<String>,
}

impl CacheRootSetting {
    /// No folder chosen.
    pub fn new() -> (res: Self)
        ensures
            res.custom_root is None,
    {
        CacheRootSetting { custom_root: None }
    }

    /// Chooses the folder; a blank path (or none) goes back to the default.
    pub fn set_custom_root(&mut self, path: Option<String>)
        ensures
            match path {
                Some(p) => if trim(p@).len() == 0 {
                    final(self).custom_root is None
                } else {
                    final(self).custom_root matches Some(q) && q@ == p@
                },
                None => final(self).custom_root is None,
            },
    {
        self.custom_root = match path {
            Some(p) => {
                if trim_chars(&chars_of(p.as_str())).len() == 0 {
                    None
                } else {
                    Some(p)
                }
            },
            None => None,
        };
    }

    /// The cache folder given the local data folder (`data_dir`) and the
    /// temporary folder.
    pub fn cache_root_from(&self, data_dir: Option<String>, temp_dir: &str) -> (res: String)
        ensures
            res@ == match self.custom_root {
                Some(c) => c@,
                None => cache_root_under(
                    match data_dir {
                        Some(d) => d@,
                        None => temp_dir@,
                    },
                ),
            },
    {
        match &self.custom_root {
            Some(c) => c.clone(),
            None => {
                let base = match data_dir {
                    Some(d) => chars_of(d.as_str()),
                    None => chars_of(temp_dir),
                };
                let a = join_of(&base, &chars_of("Hehel-Zip"));
                let j = join_of(&a, &chars_of("extract-cache"));
                string_of(&j)
            },
        }
    }

    /// The cache folder: the chosen one, else `Hehel-Zip/extract-cache` under
    /// the local data folder, or under `temp_dir` where there is none.
    pub fn cache_root(&self, temp_dir: &str) -> (res: String)
        ensures
            self.custom_root matches Some(c) ==> res@ == c@,
            self.custom_root is None ==> exists|base: Seq<char>| res@ == #[trigger] cache_root_under(base),
    {
        let d = data_local_dir();
        let ghost base = match &d {
            Some(x) => x@,
            None => temp_dir@,
        };
        let r = self.cache_root_from(d, temp_dir);
        assert(self.custom_root is None ==> r@ == cache_root_under(base));
        r
    }
}

} // verus!
