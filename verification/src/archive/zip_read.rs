//! Reading ZIP archives held in memory with the `zip` crate: the archive is
//! opened once, and its members are read by index or by name. What an
//! extraction or a read makes of the members is decided here.
use crate::archive::backend::{skipped_view, SkippedEntry};
use crate::archive::hehe_format::{skips_match, ExtractPlan};
use crate::archive::hehe_toc::items_view;
use crate::archive::path_safety::{
    fault_message, relative_out, relative_out_path, resolve_safe_extract_path, safe_extract_path,
    PathFault,
};
use crate::archive::zip_backend::{member_view, zip_entry_dto, zip_entry_view, zip_member_name, ZipEntryInfo};
use crate::archive::seven_zip::{entries_view, ArchiveEntryDto, EntryView};
use crate::error::{error_message, AppError, AppResult};
use crate::text::{chars_of, replace_char};
use vstd::prelude::*;

verus! {

/// `std::io::Cursor`, over which an archive in memory is read.
#[verifier::external_type_specification]
#[verifier::external_body]
#[verifier::reject_recursive_types(T)]
pub struct ExCursor<T>(std::io::Cursor<T>);

/// `zip::ZipArchive`, an opened ZIP archive.
#[verifier::external_type_specification]
#[verifier::external_body]
#[verifier::reject_recursive_types(R)]
pub struct ExZipArchive<R>(zip::ZipArchive<R>);

/// An opened archive over bytes in memory.
pub type ZipInMemory = zip::ZipArchive<std::io::Cursor<Vec<u8>>>;

/// What the `zip` crate reads of the bytes of an archive, member by member in
/// the order of its central directory: the member's name as the crate gives
/// it, whether the member opens (`by_index` succeeds), its contents where
/// they read to the end with a matching checksum, and the sizes and time its
/// record holds. `None` where the crate does
/// not open the bytes as an archive.
pub uninterp spec fn zip_members(bytes: Seq<u8>) -> Option<Seq<(Seq<char>, bool, Option<Seq<u8>>, u64, u64, Option<(u16, u8, u8, u8, u8, u8)>)>>;

/// One member as the crate reads it: name, whether it opens, its contents
/// where they read, its size, its compressed size, and when it was last
/// modified (year, month, day, hour, minute, second) where recorded.
pub type ZipMember = (Seq<char>, bool, Option<Seq<u8>>, u64, u64, Option<(u16, u8, u8, u8, u8, u8)>);

/// The bytes an opened archive was opened over.
pub uninterp spec fn zip_source(z: ZipInMemory) -> Seq<u8>;

/// The members of an opened archive.
pub open spec fn members_of(z: ZipInMemory) -> Seq<ZipMember> {
    zip_members(zip_source(z)).unwrap()
}

/// `ZipArchive::new(Cursor::new(bytes))`: the archive is opened exactly where
/// the crate reads the bytes as one (whose members are then `zip_members`).
/// The text of the error is not stated.
#[verifier::external_body]
fn zip_open(bytes: Vec<u8>) -> (res: Result<ZipInMemory, String>)
    ensures
        match res {
            Ok(z) => zip_source(z) == bytes@ && zip_members(bytes@) is Some,
            Err(_) => zip_members(bytes@) is None,
        },
{
    zip::ZipArchive::new(std::io::Cursor::new(bytes)).map_err(|e| format!("zip open: {e}"))
}

/// `ZipArchive::len`: how many members the archive has.
#[verifier::external_body]
fn zip_len(z: &ZipInMemory) -> (res: usize)
    requires
        zip_members(zip_source(*z)) is Some,
    ensures
        res == members_of(*z).len(),
{
    z.len()
}

/// `ZipArchive::name_for_index`: the name of member `i`.
#[verifier::external_body]
fn zip_name_at(z: &ZipInMemory, i: usize) -> (res: String)
    requires
        zip_members(zip_source(*z)) is Some,
        i < members_of(*z).len(),
    ensures
        res@ == members_of(*z)[i as int].0,
{
    z.name_for_index(i).map(|n| n.to_string()).unwrap_or_default()
}

/// `ZipArchive::index_for_name`: the index of the member with this name (the
/// crate keeps its members in a map keyed by name, so there is at most one).
#[verifier::external_body]
fn zip_index_of(z: &ZipInMemory, name: &str) -> (res: Option<usize>)
    requires
        zip_members(zip_source(*z)) is Some,
    ensures
        match res {
            Some(i) => i < members_of(*z).len() && members_of(*z)[i as int].0 == name@ && forall|j: int|
                0 <= j < i ==> #[trigger] members_of(*z)[j].0 != name@,
            None => forall|j: int| 0 <= j < members_of(*z).len() ==> #[trigger] members_of(*z)[j].0 != name@,
        },
{
    z.index_for_name(name)
}

/// `ZipArchive::by_index(i).is_ok()`: whether member `i` opens.
#[verifier::external_body]
fn zip_opens(z: &mut ZipInMemory, i: usize) -> (res: bool)
    requires
        zip_members(zip_source(*old(z))) is Some,
        i < members_of(*old(z)).len(),
    ensures
        zip_source(*final(z)) == zip_source(*old(z)),
        res == members_of(*old(z))[i as int].1,
{
    z.by_index(i).is_ok()
}

/// `ZipArchive::by_index(i)` then `read_to_end`: `None` where the member does
/// not open, else its contents, or the text of the read error (not stated).
#[verifier::external_body]
fn zip_read(z: &mut ZipInMemory, i: usize) -> (res: Option<Result<Vec<u8>, String>>)
    requires
        zip_members(zip_source(*old(z))) is Some,
        i < members_of(*old(z)).len(),
    ensures
        zip_source(*final(z)) == zip_source(*old(z)),
        match res {
            None => !members_of(*old(z))[i as int].1,
            Some(Ok(d)) => members_of(*old(z))[i as int].1 && members_of(*old(z))[i as int].2 == Some(d@),
            Some(Err(_)) => members_of(*old(z))[i as int].1 && members_of(*old(z))[i as int].2 is None,
        },
{
    let mut file = match z.by_index(i) {
        Ok(f) => f,
        Err(_) => return None,
    };
    let mut buf: Vec<u8> = Vec::new();
    Some(std::io::Read::read_to_end(&mut file, &mut buf).map(|_| buf).map_err(|e| e.to_string()))
}

/// Whether the crate counts a name as a folder: it ends in `/` or `\\`.
pub open spec fn zip_is_dir(name: Seq<char>) -> bool {
    name.len() > 0 && (name.last() == '/' || name.last() == '\\')
}

/// `ZipArchive::by_index(i)` and the fields of the member it opens: its name,
/// whether it is a folder, its sizes and its modification time; the text of
/// the error where it does not open (not stated).
#[verifier::external_body]
fn zip_info_at(z: &mut ZipInMemory, i: usize) -> (res: Result<ZipEntryInfo, String>)
    requires
        zip_members(zip_source(*old(z))) is Some,
        i < members_of(*old(z)).len(),
    ensures
        zip_source(*final(z)) == zip_source(*old(z)),
        match res {
            Ok(info) => {
                let m = members_of(*old(z))[i as int];
                &&& m.1
                &&& info.name@ == m.0
                &&& info.is_dir == zip_is_dir(m.0)
                &&& info.size == m.3
                &&& info.compressed_size == m.4
                &&& info.last_modified == m.5
            },
            Err(_) => !members_of(*old(z))[i as int].1,
        },
{
    let f = z.by_index(i).map_err(|e| format!("zip entry: {e}"))?;
    let t = f.last_modified().map(|dt| (dt.year(), dt.month(), dt.day(), dt.hour(), dt.minute(), dt.second()));
    Ok(ZipEntryInfo {
        name: f.name().to_string(),
        is_dir: f.is_dir(),
        size: f.size(),
        compressed_size: f.compressed_size(),
        last_modified: t,
    })
}

/// The first member with this name.
pub open spec fn member_named(ms: Seq<ZipMember>, name: Seq<char>) -> Option<int> {
    if exists|j: int| 0 <= j < ms.len() && #[trigger] ms[j].0 == name {
        Some(choose|j: int| 0 <= j < ms.len() && #[trigger] ms[j].0 == name && forall|k: int| 0 <= k < j ==> #[trigger] ms[k].0 != name)
    } else {
        None
    }
}

/// The names of the members that open, as the ZIP reader is asked for them.
pub open spec fn opening_names(ms: Seq<ZipMember>) -> Seq<Seq<char>>
    decreases ms.len(),
{
    if ms.len() == 0 {
        Seq::empty()
    } else {
        let r = opening_names(ms.drop_last());
        if ms.last().1 {
            r.push(replace_char(ms.last().0, '\\', '/'))
        } else {
            r
        }
    }
}

/// The paths an extraction considers: the opening members where none are
/// named, else the named paths as given.
pub open spec fn zip_targets(ms: Seq<ZipMember>, entries: Seq<Seq<char>>) -> Seq<Seq<char>> {
    if entries.len() == 0 {
        opening_names(ms)
    } else {
        entries
    }
}

/// What extracting the path `t` comes to.
pub enum ZipOutcome {
    Ignored,
    PathRefused(PathFault),
    NotFound,
    Unreadable,
    Written(Seq<char>, Seq<u8>),
}

/// What extracting `t` under `root` comes to: a folder is passed over; an
/// unsafe output path is refused; a member that is missing or does not open
/// is not found; one whose contents do not read is unreadable; else written.
pub open spec fn zip_outcome(
    ms: Seq<ZipMember>,
    root: Seq<char>,
    t: Seq<char>,
    preserve: bool,
) -> ZipOutcome {
    let norm = replace_char(t, '\\', '/');
    if norm.len() > 0 && norm.last() == '/' {
        ZipOutcome::Ignored
    } else {
        match safe_extract_path(root, relative_out(norm, preserve)) {
            Err(f) => ZipOutcome::PathRefused(f),
            Ok(out) => match member_named(ms, norm) {
                None => ZipOutcome::NotFound,
                Some(j) => if !ms[j].1 {
                    ZipOutcome::NotFound
                } else {
                    match ms[j].2 {
                        None => ZipOutcome::Unreadable,
                        Some(d) => ZipOutcome::Written(out, d),
                    }
                },
            },
        }
    }
}

/// The files a ZIP extraction of the paths `ts` writes, in order.
pub open spec fn zip_plan_files(
    ms: Seq<ZipMember>,
    root: Seq<char>,
    ts: Seq<Seq<char>>,
    preserve: bool,
) -> Seq<(Seq<char>, Seq<u8>)>
    decreases ts.len(),
{
    if ts.len() == 0 {
        Seq::empty()
    } else {
        let r = zip_plan_files(ms, root, ts.drop_last(), preserve);
        match zip_outcome(ms, root, ts.last(), preserve) {
            ZipOutcome::Written(o, d) => r.push((o, d)),
            _ => r,
        }
    }
}

/// The paths a ZIP extraction of `ts` leaves out, in order, each with its
/// reason where the library writes it.
pub open spec fn zip_plan_skips(
    ms: Seq<ZipMember>,
    root: Seq<char>,
    ts: Seq<Seq<char>>,
    preserve: bool,
) -> Seq<(Seq<char>, Option<Seq<char>>)>
    decreases ts.len(),
{
    if ts.len() == 0 {
        Seq::empty()
    } else {
        let r = zip_plan_skips(ms, root, ts.drop_last(), preserve);
        let t = ts.last();
        match zip_outcome(ms, root, t, preserve) {
            ZipOutcome::PathRefused(f) => r.push((t, Some(fault_message(f)))),
            ZipOutcome::NotFound => r.push((t, Some("Запись не найдена: "@ + t))),
            ZipOutcome::Unreadable => r.push((t, None)),
            _ => r,
        }
    }
}

/// The names of the members that open, in order, as the reader is asked for them.
fn opening_names_of(z: &mut ZipInMemory) -> (res: Vec<String>)
    requires
        zip_members(zip_source(*old(z))) is Some,
    ensures
        zip_source(*final(z)) == zip_source(*old(z)),
        res@.map_values(|s: String| s@) == opening_names(members_of(*old(z))),
{
    let ghost ms = members_of(*z);
    let n = zip_len(z);
    let mut out: Vec<String> = Vec::new();
    let mut i: usize = 0;
    assert(ms.take(0) =~= Seq::<ZipMember>::empty());
    assert(out@.map_values(|s: String| s@) =~= Seq::<Seq<char>>::empty());
    while i < n
        invariant
            i <= n,
            n == ms.len(),
            zip_members(zip_source(*z)) is Some,
            members_of(*z) == ms,
            zip_source(*z) == zip_source(*old(z)),
            out@.map_values(|s: String| s@) == opening_names(ms.take(i as int)),
        decreases n - i,
    {
        assert(ms.take(i + 1).drop_last() =~= ms.take(i as int));
        assert(ms.take(i + 1).last() == ms[i as int]);
        if zip_opens(z, i) {
            let name = zip_name_at(z, i);
            let ghost before = out@;
            out.push(zip_member_name(name.as_str()));
            assert(out@.map_values(|s: String| s@) =~= before.map_values(|s: String| s@).push(
                replace_char(ms[i as int].0, '\\', '/'),
            ));
        }
        i = i + 1;
    }
    assert(ms.take(n as int) =~= ms);
    out
}

/// The paths an extraction of `ts` leaves out when the archive cannot be
/// read at all: each that is not a folder, with the reason its output path is
/// refused, or else `reason` (the read error, where the library writes it).
pub open spec fn unopened_skips(
    root: Seq<char>,
    ts: Seq<Seq<char>>,
    preserve: bool,
    reason: Option<Seq<char>>,
) -> Seq<(Seq<char>, Option<Seq<char>>)>
    decreases ts.len(),
{
    if ts.len() == 0 {
        Seq::empty()
    } else {
        let r = unopened_skips(root, ts.drop_last(), preserve, reason);
        let t = ts.last();
        let norm = replace_char(t, '\\', '/');
        if norm.len() > 0 && norm.last() == '/' {
            r
        } else {
            match safe_extract_path(root, relative_out(norm, preserve)) {
                Err(f) => r.push((t, Some(fault_message(f)))),
                Ok(_) => r.push((t, reason)),
            }
        }
    }
}

/// Skips that match with a stated reason also match where the reason is left open.
proof fn lemma_unopened_reason(
    root: Seq<char>,
    ts: Seq<Seq<char>>,
    preserve: bool,
    reason: Option<Seq<char>>,
    got: Seq<(Seq<char>, Seq<char>)>,
)
    requires
        skips_match(got, unopened_skips(root, ts, preserve, reason)),
    ensures
        skips_match(got, unopened_skips(root, ts, preserve, None)),
    decreases ts.len(),
{
    lemma_unopened_same_len(root, ts, preserve, reason);
    let a = unopened_skips(root, ts, preserve, reason);
    let b = unopened_skips(root, ts, preserve, None);
    assert forall|k: int| 0 <= k < got.len() implies (#[trigger] got[k]).0 == b[k].0 && (b[k].1 matches Some(r) ==> got[k].1 == r) by {
        lemma_unopened_entry(root, ts, preserve, reason, k);
    }
}

proof fn lemma_unopened_same_len(root: Seq<char>, ts: Seq<Seq<char>>, preserve: bool, reason: Option<Seq<char>>)
    ensures
        unopened_skips(root, ts, preserve, reason).len() == unopened_skips(root, ts, preserve, None).len(),
    decreases ts.len(),
{
    if ts.len() > 0 {
        lemma_unopened_same_len(root, ts.drop_last(), preserve, reason);
    }
}

proof fn lemma_unopened_entry(root: Seq<char>, ts: Seq<Seq<char>>, preserve: bool, reason: Option<Seq<char>>, k: int)
    requires
        0 <= k < unopened_skips(root, ts, preserve, reason).len(),
    ensures
        unopened_skips(root, ts, preserve, None).len() == unopened_skips(root, ts, preserve, reason).len(),
        unopened_skips(root, ts, preserve, None)[k].0 == unopened_skips(root, ts, preserve, reason)[k].0,
        unopened_skips(root, ts, preserve, None)[k].1 matches Some(r) ==> unopened_skips(root, ts, preserve, reason)[k].1 == Some(r),
    decreases ts.len(),
{
    lemma_unopened_same_len(root, ts, preserve, reason);
    if ts.len() > 0 {
        lemma_unopened_same_len(root, ts.drop_last(), preserve, reason);
        if k < unopened_skips(root, ts.drop_last(), preserve, reason).len() {
            lemma_unopened_entry(root, ts.drop_last(), preserve, reason, k);
        }
    }
}

/// Every named path left out, for `err`, when the archive cannot be read.
fn unopened_plan(destination: &str, entries: &[String], preserve_paths: bool, err: AppError) -> (res: ExtractPlan)
    ensures
        res.files@.len() == 0,
        skips_match(
            skipped_view(res.skipped@),
            unopened_skips(destination@, entries@.map_values(|s: String| s@), preserve_paths, Some(error_message(err))),
        ),
{
    let ghost ts = entries@.map_values(|s: String| s@);
    let reason = err.message();
    let mut skipped: Vec<SkippedEntry> = Vec::new();
    let mut i: usize = 0;
    assert(ts.take(0) =~= Seq::<Seq<char>>::empty());
    assert(skipped_view(skipped@) =~= Seq::<(Seq<char>, Seq<char>)>::empty());
    while i < entries.len()
        invariant
            i <= entries.len(),
            ts == entries@.map_values(|s: String| s@),
            reason@ == error_message(err),
            skips_match(skipped_view(skipped@), unopened_skips(destination@, ts.take(i as int), preserve_paths, Some(error_message(err)))),
        decreases entries.len() - i,
    {
        let t = &entries[i];
        let ghost tv = ts[i as int];
        assert(tv == t@);
        assert(ts.take(i + 1).drop_last() =~= ts.take(i as int));
        assert(ts.take(i + 1).last() == tv);
        let norm = zip_member_name(t.as_str());
        let nc = chars_of(norm.as_str());
        if nc.len() > 0 && nc[nc.len() - 1] == '/' {
        } else {
            let relative = relative_out_path(norm.as_str(), preserve_paths);
            let ghost old_sk = skipped_view(skipped@);
            match resolve_safe_extract_path(destination, relative.as_str()) {
                Err(e) => {
                    let r = e.message();
                    skipped.push(SkippedEntry { path: t.clone(), reason: r });
                    assert(skipped_view(skipped@) =~= old_sk.push((tv, r@)));
                },
                Ok(_) => {
                    let r = reason.clone();
                    skipped.push(SkippedEntry { path: t.clone(), reason: r });
                    assert(skipped_view(skipped@) =~= old_sk.push((tv, reason@)));
                },
            }
        }
        i = i + 1;
    }
    assert(ts.take(entries.len() as int) =~= ts);
    ExtractPlan { files: Vec::new(), skipped }
}

/// Plans an extraction of a ZIP archive, given what reading its file gave,
/// under the destination root `destination` (absolute and canonical): every
/// member that opens where `entries` is empty, else the named paths. Returns
/// the files to write (path and contents) and the paths left out with their
/// reasons: an unsafe output path, a member that is missing or does not open
/// ("Запись не найдена"), or contents that do not read. Where the file could
/// not be read or does not open as a ZIP archive, the named paths are all left
/// out (with the read error where the file could not be read); only where none
/// are named is that an error.
pub fn zip_extract_plan(archive: AppResult<Vec<u8>>, destination: &str, entries: &[String], preserve_paths: bool) -> (res:
    Result<ExtractPlan, String>)
    ensures
        match archive {
            Err(read_err) => match res {
                Ok(plan) => entries@.len() > 0 && plan.files@.len() == 0 && skips_match(
                    skipped_view(plan.skipped@),
                    unopened_skips(destination@, entries@.map_values(|s: String| s@), preserve_paths, Some(error_message(read_err))),
                ),
                Err(m) => entries@.len() == 0 && m@ == error_message(read_err),
            },
            Ok(bytes) => match res {
                Ok(plan) => match zip_members(bytes@) {
                    Some(ms) => {
                        let ts = zip_targets(ms, entries@.map_values(|s: String| s@));
                        &&& items_view(plan.files@) == zip_plan_files(ms, destination@, ts, preserve_paths)
                        &&& skips_match(skipped_view(plan.skipped@), zip_plan_skips(ms, destination@, ts, preserve_paths))
                    },
                    None => entries@.len() > 0 && plan.files@.len() == 0 && skips_match(
                        skipped_view(plan.skipped@),
                        unopened_skips(destination@, entries@.map_values(|s: String| s@), preserve_paths, None),
                    ),
                },
                Err(_) => zip_members(bytes@) is None && entries@.len() == 0,
            },
        },
{
    let archive = match archive {
        Ok(b) => b,
        Err(e) => {
            if entries.len() == 0 {
                return Err(e.message());
            }
            return Ok(unopened_plan(destination, entries, preserve_paths, e));
        },
    };
    let ghost bytes = archive@;
    let mut z = match zip_open(archive) {
        Ok(z) => z,
        Err(e) => {
            if entries.len() == 0 {
                return Err(e);
            }
            let plan = unopened_plan(destination, entries, preserve_paths, AppError::Archive(e));
            proof {
                lemma_unopened_reason(destination@, entries@.map_values(|s: String| s@), preserve_paths,
                    Some(error_message(AppError::Archive(e))), skipped_view(plan.skipped@));
            }
            return Ok(plan);
        },
    };
    let ghost ms = members_of(z);
    let ghost ev = entries@.map_values(|s: String| s@);
    let targets: Vec<String> = if entries.len() == 0 {
        opening_names_of(&mut z)
    } else {
        let mut v: Vec<String> = Vec::new();
        let mut k: usize = 0;
        while k < entries.len()
            invariant
                k <= entries.len(),
                v@.map_values(|s: String| s@) == ev.take(k as int),
                ev == entries@.map_values(|s: String| s@),
            decreases entries.len() - k,
        {
            let ghost before = v@;
            v.push(entries[k].clone());
            assert(v@.map_values(|s: String| s@) =~= before.map_values(|s: String| s@).push(ev[k as int]));
            assert(ev.take(k + 1) =~= ev.take(k as int).push(ev[k as int]));
            k = k + 1;
        }
        assert(ev.take(entries.len() as int) =~= ev);
        v
    };
    let ghost ts = targets@.map_values(|s: String| s@);
    assert(ts == zip_targets(ms, ev));
    let mut files: Vec<(String, Vec<u8>)> = Vec::new();
    let mut skipped: Vec<SkippedEntry> = Vec::new();
    let mut i: usize = 0;
    assert(ts.take(0) =~= Seq::<Seq<char>>::empty());
    assert(items_view(files@) =~= Seq::<(Seq<char>, Seq<u8>)>::empty());
    assert(skipped_view(skipped@) =~= Seq::<(Seq<char>, Seq<char>)>::empty());
    while i < targets.len()
        invariant
            i <= targets.len(),
            ts == targets@.map_values(|s: String| s@),
            zip_members(zip_source(z)) is Some,
            zip_source(z) == bytes,
            members_of(z) == ms,
            items_view(files@) == zip_plan_files(ms, destination@, ts.take(i as int), preserve_paths),
            skips_match(skipped_view(skipped@), zip_plan_skips(ms, destination@, ts.take(i as int), preserve_paths)),
        decreases targets.len() - i,
    {
        let t = &targets[i];
        let ghost tv = ts[i as int];
        assert(tv == t@);
        assert(ts.take(i + 1).drop_last() =~= ts.take(i as int));
        assert(ts.take(i + 1).last() == tv);
        let norm = zip_member_name(t.as_str());
        let nc = chars_of(norm.as_str());
        if nc.len() > 0 && nc[nc.len() - 1] == '/' {
        } else {
            let relative = relative_out_path(norm.as_str(), preserve_paths);
            match resolve_safe_extract_path(destination, relative.as_str()) {
                Err(err) => {
                    let ghost old_sk = skipped_view(skipped@);
                    let reason = err.message();
                    skipped.push(SkippedEntry { path: t.clone(), reason });
                    assert(skipped_view(skipped@) =~= old_sk.push((tv, reason@)));
                },
                Ok(out) => {
                    let found = zip_index_of(&z, norm.as_str());
                    let read = match found {
                        None => None,
                        Some(j) => {
                            proof {
                                assert(member_named(ms, norm@) == Some(j as int)) by {
                                    assert(ms[j as int].0 == norm@);
                                    let c = choose|c: int| 0 <= c < ms.len() && #[trigger] ms[c].0 == norm@ && forall|k: int| 0 <= k < c ==> #[trigger] ms[k].0 != norm@;
                                    if c < j {
                                    } else if c > j {
                                        assert(ms[j as int].0 != norm@);
                                    }
                                }
                            }
                            zip_read(&mut z, j)
                        },
                    };
                    let ghost old_sk = skipped_view(skipped@);
                    match read {
                        None => {
                            let err = AppError::ArchiveEntryNotFound(t.clone());
                            let reason = err.message();
                            skipped.push(SkippedEntry { path: t.clone(), reason });
                            assert(skipped_view(skipped@) =~= old_sk.push((tv, reason@)));
                        },
                        Some(Err(m)) => {
                            let err = AppError::Archive(m);
                            let reason = err.message();
                            skipped.push(SkippedEntry { path: t.clone(), reason });
                            assert(skipped_view(skipped@) =~= old_sk.push((tv, reason@)));
                        },
                        Some(Ok(d)) => {
                            let ghost old_files = items_view(files@);
                            let ghost item = (out@, d@);
                            files.push((out, d));
                            assert(items_view(files@) =~= old_files.push(item));
                        },
                    }
                },
            }
        }
        i = i + 1;
    }
    assert(ts.take(targets.len() as int) =~= ts);
    Ok(ExtractPlan { files, skipped })
}

/// The contents of the member asked for by `entry_path` (`\` read as `/`):
/// "Запись не найдена" where no member has that name or it does not open.
pub fn zip_entry_bytes(archive: Vec<u8>, entry_path: &str) -> (res: AppResult<Vec<u8>>)
    ensures
        match res {
            Ok(d) => zip_members(archive@) matches Some(ms) && member_named(ms, replace_char(entry_path@, '\\', '/'))
                matches Some(j) && ms[j].1 && ms[j].2 == Some(d@),
            Err(e) => match zip_members(archive@) {
                None => e is Archive,
                Some(ms) => match member_named(ms, replace_char(entry_path@, '\\', '/')) {
                    None => e matches AppError::ArchiveEntryNotFound(s) && s@ == entry_path@,
                    Some(j) => if !ms[j].1 {
                        e matches AppError::ArchiveEntryNotFound(s) && s@ == entry_path@
                    } else {
                        ms[j].2 is None && e is Archive
                    },
                },
            },
        },
{
    let mut z = match zip_open(archive) {
        Ok(z) => z,
        Err(m) => return Err(AppError::Archive(m)),
    };
    let ghost ms = members_of(z);
    let norm = zip_member_name(entry_path);
    match zip_index_of(&z, norm.as_str()) {
        None => Err(AppError::ArchiveEntryNotFound(String::from_str(entry_path))),
        Some(j) => {
            proof {
                assert(member_named(ms, norm@) == Some(j as int)) by {
                    let c = choose|c: int| 0 <= c < ms.len() && #[trigger] ms[c].0 == norm@ && forall|k: int| 0 <= k < c ==> #[trigger] ms[k].0 != norm@;
                    if c > j {
                        assert(ms[j as int].0 != norm@);
                    }
                }
            }
            match zip_read(&mut z, j) {
                None => Err(AppError::ArchiveEntryNotFound(String::from_str(entry_path))),
                Some(Err(m)) => Err(AppError::Archive(m)),
                Some(Ok(d)) => Ok(d),
            }
        },
    }
}

/// The listing entry of a member.
pub open spec fn member_entry(m: ZipMember) -> EntryView {
    member_view(m.0, zip_is_dir(m.0), m.3, m.4, m.5)
}

/// Where a listing window of `limit` members from `offset` ends among `total`.
pub open spec fn window_end(offset: int, limit: int, total: int) -> int {
    if offset + limit > usize::MAX {
        if usize::MAX < total { usize::MAX as int } else { total }
    } else if offset + limit < total {
        offset + limit
    } else {
        total
    }
}

/// How many members a ZIP archive held in memory has, and the listing entries
/// of those from `offset` on, at most `limit` of them. Fails where the bytes
/// do not open as an archive, or where a member of the window does not open.
pub fn zip_list_range(archive: Vec<u8>, offset: usize, limit: usize) -> (res: AppResult<(usize, Vec<ArchiveEntryDto>)>)
    ensures
        match res {
            Ok((total, v)) => zip_members(archive@) matches Some(ms) && total == ms.len() && {
                let end = window_end(offset as int, limit as int, ms.len() as int);
                &&& forall|k: int| offset <= k < end ==> (#[trigger] ms[k]).1
                &&& entries_view(v@) == if offset < end {
                    ms.subrange(offset as int, end).map_values(|m: ZipMember| member_entry(m))
                } else {
                    Seq::empty()
                }
            },
            Err(e) => e is Archive && match zip_members(archive@) {
                None => true,
                Some(ms) => exists|k: int|
                    offset <= k < window_end(offset as int, limit as int, ms.len() as int) && !(#[trigger] ms[k]).1,
            },
        },
{
    let ghost bytes = archive@;
    let mut z = match zip_open(archive) {
        Ok(z) => z,
        Err(m) => return Err(AppError::Archive(m)),
    };
    let ghost ms = members_of(z);
    let total = zip_len(&z);
    let end = if offset > usize::MAX - limit {
        total
    } else if offset + limit < total {
        offset + limit
    } else {
        total
    };
    let mut out: Vec<ArchiveEntryDto> = Vec::new();
    if offset < end {
        let mut i: usize = offset;
        assert(entries_view(out@) =~= ms.subrange(offset as int, offset as int).map_values(|m: ZipMember| member_entry(m)));
        while i < end
            invariant
                offset <= i <= end,
                end <= total,
                total == ms.len(),
                end == window_end(offset as int, limit as int, ms.len() as int),
                zip_members(zip_source(z)) is Some,
                zip_source(z) == bytes,
                bytes == archive@,
                members_of(z) == ms,
                forall|k: int| offset <= k < i ==> (#[trigger] ms[k]).1,
                entries_view(out@) == ms.subrange(offset as int, i as int).map_values(|m: ZipMember| member_entry(m)),
            decreases end - i,
        {
            match zip_info_at(&mut z, i) {
                Err(m) => {
                    assert(!ms[i as int].1);
                    assert(zip_members(bytes) == Some(ms));
                    assert(bytes == archive@);
                    assert(exists|k: int|
                        offset <= k < window_end(offset as int, limit as int, ms.len() as int) && !(#[trigger] ms[k]).1);
                    return Err(AppError::Archive(m));
                },
                Ok(info) => {
                    let ghost before = entries_view(out@);
                    let ghost m = ms[i as int];
                    let d = zip_entry_dto(info);
                    out.push(d);
                    proof {
                        assert(zip_entry_view(info) == member_entry(m));
                        assert(entries_view(out@) =~= before.push(member_entry(m)));
                        assert(ms.subrange(offset as int, i + 1).map_values(|m: ZipMember| member_entry(m))
                            =~= ms.subrange(offset as int, i as int).map_values(|m: ZipMember| member_entry(m)).push(member_entry(m)));
                    }
                },
            }
            i = i + 1;
        }
    } else {
        assert(entries_view(out@) =~= Seq::<EntryView>::empty());
    }
    Ok((total, out))
}

} // verus!
