//! What the archive service decides: its cache of listings, the pages it
//! serves, how it fills the extraction cache, and how it reads an archive's
//! `metadata.hehestl`. The service runs the readers and touches the disk in the
//! application.
use crate::archive::backend::BackendKind;
use crate::archive::seven_zip::{entries_view, opt_view, ArchiveEntryDto, EntryView};
use crate::codecs::{lossy_string, utf8_lossy};
use crate::error::{AppError, AppResult};
use crate::text::{chars_of, str_eq_chars};
use vstd::prelude::*;

verus! {

/// A copy of a listing entry.
pub fn copy_entry(e: &ArchiveEntryDto) -> (res: ArchiveEntryDto)
    ensures
        res@ == e@,
{
    let modified = match &e.modified {
        Some(m) => Some(m.clone()),
        None => None,
    };
    ArchiveEntryDto {
        path: e.path.clone(),
        name: e.name.clone(),
        size: e.size,
        packed_size: e.packed_size,
        modified,
        is_dir: e.is_dir,
        extension: e.extension.clone(),
    }
}

/// The entries `offset .. offset + limit` of a listing (fewer at its end).
pub open spec fn page_of(all: Seq<EntryView>, offset: int, limit: int) -> Seq<EntryView> {
    let lo = if offset < all.len() { offset } else { all.len() as int };
    let hi = if offset + limit < all.len() { offset + limit } else { all.len() as int };
    all.subrange(lo, hi)
}

/// The page of a listing that starts at `offset` and holds up to `limit`
/// entries.
pub fn page(all: &[ArchiveEntryDto], offset: usize, limit: usize) -> (res: Vec<ArchiveEntryDto>)
    ensures
        entries_view(res@) == page_of(entries_view(all@), offset as int, limit as int),
{
    let n = all.len();
    let lo = if offset < n { offset } else { n };
    let hi = if limit <= n - lo { lo + limit } else { n };
    let ghost av = entries_view(all@);
    let mut out: Vec<ArchiveEntryDto> = Vec::new();
    let mut i = lo;
    while i < hi
        invariant
            lo <= i <= hi <= n,
            n == all@.len(),
            av == entries_view(all@),
            entries_view(out@) == av.subrange(lo as int, i as int),
        decreases hi - i,
    {
        let e = copy_entry(&all[i]);
        let ghost before = out@;
        out.push(e);
        assert(entries_view(out@) =~= entries_view(before).push(all@[i as int]@));
        assert(av.subrange(lo as int, i + 1) =~= av.subrange(lo as int, i as int).push(av[i as int]));
        i = i + 1;
    }
    out
}

/// Whether a page from a reader holds the whole listing, so that it may be
/// cached: it starts at the first entry and holds them all.
pub fn is_whole_listing(offset: usize, page_len: usize, total: usize) -> (res: bool)
    ensures
        res == (offset == 0 && page_len == total),
{
    offset == 0 && page_len == total
}

/// How the entries missing from the extraction cache are filled.
#[derive(Debug, Clone, Copy, PartialEq, Eq, Structural)]
pub enum PopulatePlan {
    /// Nothing is missing.
    Nothing,
    /// One 7-Zip run extracts all of them to a staging folder.
    SevenZipBatch,
    /// The one missing entry is written by the reader.
    Single,
    /// Each is written by the reader, four at a time.
    Parallel,
}

/// The plan for `misses` missing entries of an archive read by `kind`.
pub fn populate_plan(kind: BackendKind, misses: usize) -> (res: PopulatePlan)
    ensures
        res == if misses == 0 {
            PopulatePlan::Nothing
        } else if kind == BackendKind::SevenZ && misses > 1 {
            PopulatePlan::SevenZipBatch
        } else if misses == 1 {
            PopulatePlan::Single
        } else {
            PopulatePlan::Parallel
        },
{
    if misses == 0 {
        PopulatePlan::Nothing
    } else if kind == BackendKind::SevenZ && misses > 1 {
        PopulatePlan::SevenZipBatch
    } else if misses == 1 {
        PopulatePlan::Single
    } else {
        PopulatePlan::Parallel
    }
}

/// The entries not yet cached (`cached[i]` tells whether `entries[i]` is), in
/// order.
pub open spec fn misses_of(entries: Seq<Seq<char>>, cached: Seq<bool>) -> Seq<Seq<char>>
    decreases entries.len(),
{
    if entries.len() == 0 || cached.len() < entries.len() {
        Seq::empty()
    } else {
        let rest = misses_of(entries.drop_last(), cached.drop_last());
        if cached.last() {
            rest
        } else {
            rest.push(entries.last())
        }
    }
}

pub fn missing_entries(entries: &[String], cached: &[bool]) -> (res: Vec<String>)
    requires
        entries@.len() == cached@.len(),
    ensures
        res@.map_values(|s: String| s@) == misses_of(entries@.map_values(|s: String| s@), cached@),
{
    let ghost ev = entries@.map_values(|s: String| s@);
    let mut out: Vec<String> = Vec::new();
    let mut i: usize = 0;
    while i < entries.len()
        invariant
            i <= entries@.len(),
            entries@.len() == cached@.len(),
            ev == entries@.map_values(|s: String| s@),
            out@.map_values(|s: String| s@) == misses_of(ev.take(i as int), cached@.take(i as int)),
        decreases entries@.len() - i,
    {
        assert(ev.take(i + 1).drop_last() =~= ev.take(i as int));
        assert(cached@.take(i + 1).drop_last() =~= cached@.take(i as int));
        assert(ev.take(i + 1).last() == entries@[i as int]@);
        let ghost before = out@;
        if !cached[i] {
            out.push(entries[i].clone());
            assert(out@.map_values(|s: String| s@) =~= before.map_values(|s: String| s@).push(entries@[i as int]@));
        }
        i = i + 1;
    }
    assert(ev.take(entries@.len() as int) =~= ev);
    assert(cached@.take(entries@.len() as int) =~= cached@);
    out
}

/// The text of an archive's `metadata.hehestl`, from what reading that entry
/// gave: its bytes as text (invalid UTF-8 replaced), nothing where the entry is
/// not there, and any other error passed on.
pub fn hehestl_text(read: AppResult<Vec<u8>>) -> (res: AppResult<Option<String>>)
    ensures
        match read {
            Ok(b) => res matches Ok(Some(s)) && s@ == utf8_lossy(b@),
            Err(AppError::ArchiveEntryNotFound(_)) => res matches Ok(None),
            Err(e) => res == Err::<Option<String>, AppError>(e),
        },
{
    match read {
        Ok(bytes) => Ok(Some(lossy_string(bytes.as_slice()))),
        Err(AppError::ArchiveEntryNotFound(_)) => Ok(None),
        Err(e) => Err(e),
    }
}

/// A file's fingerprint: when it was modified (seconds and nanoseconds since
/// the epoch) and its size.
pub type Fingerprint = (u64, u32, u64);

/// A cached listing, viewed: the archive's canonical path, its fingerprint
/// and its entries.
pub type ListingView = (Seq<char>, Fingerprint, Seq<EntryView>);

/// The listing cached for `path`, if there is one.
pub open spec fn cached_for(s: Seq<ListingView>, path: Seq<char>) -> Option<(Fingerprint, Seq<EntryView>)>
    decreases s.len(),
{
    if s.len() == 0 {
        None
    } else if s.last().0 == path {
        Some((s.last().1, s.last().2))
    } else {
        cached_for(s.drop_last(), path)
    }
}

/// What a lookup of `path` with the file's current fingerprint `g` gives: the
/// cached entries where they were read with that fingerprint.
pub open spec fn lookup_listing(s: Seq<ListingView>, path: Seq<char>, g: Fingerprint) -> Option<Seq<EntryView>> {
    match cached_for(s, path) {
        Some((f, es)) => if f == g {
            Some(es)
        } else {
            None
        },
        None => None,
    }
}

/// The views of cached listings.
pub open spec fn listings_view(v: Seq<(String, Fingerprint, Vec<ArchiveEntryDto>)>) -> Seq<ListingView> {
    v.map_values(|l: (String, Fingerprint, Vec<ArchiveEntryDto>)| (l.0@, l.1, entries_view(l.2@)))
}

/// Listings already read, one per archive, each with the fingerprint of the
/// archive file when it was read.
pub struct ListingCache {
    pub listings: Vec<(String, Fingerprint, Vec<ArchiveEntryDto>)>,
}

impl ListingCache {
    pub open spec fn view(&self) -> Seq<ListingView> {
        listings_view(self.listings@)
    }

    /// No listing yet.
    pub fn new() -> (res: Self)
        ensures
            res.view().len() == 0,
    {
        ListingCache { listings: Vec::new() }
    }

    /// The listing cached for an archive, where the file still has the
    /// fingerprint it had when it was read.
    pub fn get_cached_listing(&self, canonical: &str, fingerprint: Fingerprint) -> (res: Option<Vec<ArchiveEntryDto>>)
        ensures
            match res {
                Some(v) => lookup_listing(self.view(), canonical@, fingerprint) == Some(entries_view(v@)),
                None => lookup_listing(self.view(), canonical@, fingerprint) is None,
            },
    {
        let key = chars_of(canonical);
        let n = self.listings.len();
        let mut i = n;
        assert(self.view().take(n as int) =~= self.view());
        while i > 0
            invariant
                i <= n == self.listings@.len(),
                key@ == canonical@,
                cached_for(self.view(), canonical@) == cached_for(self.view().take(i as int), canonical@),
            decreases i,
        {
            let j = i - 1;
            let ghost t = self.view().take(i as int);
            assert(t.drop_last() =~= self.view().take(j as int));
            assert(t.last() == self.view()[j as int]);
            if str_eq_chars(self.listings[j].0.as_str(), &key) {
                let hit = &self.listings[j];
                if hit.1.0 == fingerprint.0 && hit.1.1 == fingerprint.1 && hit.1.2 == fingerprint.2 {
                    let all = &hit.2;
                    let copy = page(all.as_slice(), 0, all.len());
                    assert(page_of(entries_view(all@), 0, all@.len() as int) =~= entries_view(all@));
                    return Some(copy);
                }
                return None;
            }
            i = j;
        }
        assert(self.view().take(0) =~= Seq::<ListingView>::empty());
        None
    }

    /// Caches the listing of an archive with the file's fingerprint,
    /// replacing the one it had.
    pub fn put_listing_cache(&mut self, canonical: &str, fingerprint: Fingerprint, entries: Vec<ArchiveEntryDto>)
        ensures
            cached_for(final(self).view(), canonical@) == Some((fingerprint, entries_view(entries@))),
            forall|p: Seq<char>| p != canonical@ ==> #[trigger] cached_for(final(self).view(), p) == cached_for(old(self).view(), p),
    {
        let key = chars_of(canonical);
        let ghost v0 = self.view();
        let mut kept: Vec<(String, Fingerprint, Vec<ArchiveEntryDto>)> = Vec::new();
        let mut rest = Vec::new();
        std::mem::swap(&mut rest, &mut self.listings);
        let ghost r0 = rest@;
        assert(v0 =~= listings_view(r0));
        let n = rest.len();
        let mut i: usize = 0;
        while i < n
            invariant
                i <= n == r0.len(),
                rest@ == r0.skip(i as int),
                key@ == canonical@,
                v0 == listings_view(r0),
                forall|p: Seq<char>| p != canonical@ ==> #[trigger] cached_for(
                    listings_view(kept@),
                    p,
                ) == cached_for(v0.take(i as int), p),
                cached_for(
                    listings_view(kept@),
                    canonical@,
                ) is None,
            decreases n - i,
        {
            let item = rest.remove(0);
            assert(item == r0[i as int]);
            assert(rest@ =~= r0.skip(i + 1));
            let ghost kv0 = listings_view(kept@);
            assert(v0.take(i + 1).drop_last() =~= v0.take(i as int));
            assert(v0.take(i + 1).last() == v0[i as int]);
            let ghost iv = (item.0@, item.1, entries_view(item.2@));
            assert(v0[i as int] == iv);
            if !str_eq_chars(item.0.as_str(), &key) {
                kept.push(item);
                assert(listings_view(kept@) =~= kv0.push(iv));
                assert(listings_view(kept@).drop_last() =~= kv0);
                assert forall|p: Seq<char>| p != canonical@ implies #[trigger] cached_for(listings_view(kept@), p)
                    == cached_for(v0.take(i + 1), p) by {
                    assert(cached_for(listings_view(kept@), p) == if iv.0 == p {
                        Some((iv.1, iv.2))
                    } else {
                        cached_for(kv0, p)
                    });
                }
                assert(cached_for(listings_view(kept@), canonical@) == cached_for(kv0, canonical@));
            } else {
                assert forall|p: Seq<char>| p != canonical@ implies #[trigger] cached_for(listings_view(kept@), p)
                    == cached_for(v0.take(i + 1), p) by {
                    assert(cached_for(v0.take(i + 1), p) == cached_for(v0.take(i as int), p));
                }
            }
            i = i + 1;
        }
        assert(v0.take(n as int) =~= v0);
        let ghost kv = listings_view(kept@);
        let ghost ev = entries_view(entries@);
        kept.push((String::from_str(canonical), fingerprint, entries));
        self.listings = kept;
        assert(self.view() =~= kv.push((canonical@, fingerprint, ev)));
        assert(self.view().drop_last() =~= kv);
        assert forall|p: Seq<char>| p != canonical@ implies #[trigger] cached_for(self.view(), p) == cached_for(v0, p) by {
            assert(cached_for(self.view(), p) == cached_for(kv, p));
        }
    }
}

/// A listing looked up right after it was cached is the one cached, where the
/// archive file kept its fingerprint; else nothing is found.
pub proof fn lemma_listing_read_back(after: Seq<ListingView>, path: Seq<char>, f: Fingerprint, es: Seq<EntryView>, g: Fingerprint)
    requires
        cached_for(after, path) == Some((f, es)),
    ensures
        lookup_listing(after, path, g) == if g == f {
            Some(es)
        } else {
            None
        },
{
}

} // verus!
