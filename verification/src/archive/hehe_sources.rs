//! The files a new HEHE archive is packed from: each source path given by the
//! user is a file or a folder, found on disk by the caller; here they become
//! TOC paths with their bytes, and the root `metadata.hehestl`.
use crate::archive::hehe_paths::{
    has_key, insert_unique, joined_toc, join_toc_path, keys_distinct, metadata_path, normalize_toc_path,
    normalized_toc, opt_string,
};
use crate::archive::hehe_toc::items_view;
use crate::codecs::utf8_string;
use crate::error::{archive_error_str, is_archive_error, is_validation_error, validation_error, AppError, AppResult};
use crate::path::{file_name, file_name_of};
use crate::text::{chars_of, str_eq_chars, string_of};
use vstd::prelude::*;
use vstd::utf8::{decode_utf8, encode_utf8_decode_utf8, valid_utf8};

verus! {

/// What was found at a source path.
pub enum FoundSource {
    /// Nothing is there.
    Missing,
    /// A file, with its bytes.
    File(Vec<u8>),
    /// A folder: the files in it, breadth first, each with its path relative
    /// to the folder in TOC form and its bytes (skipped folders and file
    /// names left out).
    Dir(Vec<(String, Vec<u8>)>),
    /// Neither a file nor a folder.
    Other,
}

/// The view of what was found.
pub enum FoundView {
    Missing,
    File(Seq<u8>),
    Dir(Seq<(Seq<char>, Seq<u8>)>),
    Other,
}

pub open spec fn found_view(f: FoundSource) -> FoundView {
    match f {
        FoundSource::Missing => FoundView::Missing,
        FoundSource::File(b) => FoundView::File(b@),
        FoundSource::Dir(v) => FoundView::Dir(items_view(v@)),
        FoundSource::Other => FoundView::Other,
    }
}

/// Why the sources cannot be packed.
pub enum GatherFault {
    /// A source path does not exist.
    Missing(Seq<char>),
    /// A source file has no name.
    NoName(Seq<char>),
    /// A source is neither a file nor a folder.
    Unsupported(Seq<char>),
    /// The root metadata is not UTF-8.
    BadMetadata,
    /// Two files land on one TOC path.
    Collision(Seq<char>),
}

/// The error a fault is reported as.
pub open spec fn fault_error(f: GatherFault, e: AppError) -> bool {
    match f {
        GatherFault::Missing(s) => is_validation_error(e, "Путь не найден: "@ + s),
        GatherFault::NoName(s) => is_validation_error(e, "invalid path: "@ + s),
        GatherFault::Unsupported(s) => is_validation_error(e, "Неподдерживаемый путь: "@ + s),
        GatherFault::BadMetadata => is_archive_error(e, "stream did not contain valid UTF-8"@),
        GatherFault::Collision(p) => is_validation_error(e, "Коллизия имён: "@ + p),
    }
}

/// The files gathered so far and the root metadata, or why it stopped.
pub type Gathered = Result<(Seq<(Seq<char>, Seq<u8>)>, Option<Seq<char>>), GatherFault>;

/// Whether a file set holds `path`.
pub open spec fn holds_path(files: Seq<(Seq<char>, Seq<u8>)>, path: Seq<char>) -> bool {
    exists|i: int| 0 <= i < files.len() && #[trigger] files[i].0 == path
}

/// One more file at TOC path `rel`: the root metadata where it is
/// `metadata.hehestl` (it must be UTF-8), else a new file (its path must be
/// new).
pub open spec fn place(st: Gathered, rel: Seq<char>, data: Seq<u8>) -> Gathered {
    match st {
        Err(f) => Err(f),
        Ok((files, meta)) => if rel == metadata_path() {
            if valid_utf8(data) {
                Ok((files, Some(decode_utf8(data))))
            } else {
                Err(GatherFault::BadMetadata)
            }
        } else if holds_path(files, rel) {
            Err(GatherFault::Collision(rel))
        } else {
            Ok((files.push((rel, data)), meta))
        },
    }
}

/// Several files placed one after the other.
pub open spec fn place_all(st: Gathered, placed: Seq<(Seq<char>, Seq<u8>)>) -> Gathered
    decreases placed.len(),
{
    if placed.len() == 0 {
        st
    } else {
        place(place_all(st, placed.drop_last()), placed.last().0, placed.last().1)
    }
}

/// The folder every file of a source goes under: with several sources, the
/// source's own name (in TOC form, where not empty).
pub open spec fn source_prefix(source: Seq<char>, multi: bool) -> Option<Seq<char>> {
    if multi {
        match file_name(source) {
            Some(n) => if normalized_toc(n).len() > 0 {
                Some(normalized_toc(n))
            } else {
                None
            },
            None => None,
        }
    } else {
        None
    }
}

/// `rel` under the prefix, if there is one.
pub open spec fn under_prefix(prefix: Option<Seq<char>>, rel: Seq<char>) -> Seq<char> {
    match prefix {
        Some(p) => joined_toc(p, rel),
        None => rel,
    }
}

/// The files a source yields, at their TOC paths; or why it cannot be packed.
pub open spec fn placed_of(source: Seq<char>, multi: bool, found: FoundView) -> Result<Seq<(Seq<char>, Seq<u8>)>, GatherFault> {
    let prefix = source_prefix(source, multi);
    match found {
        FoundView::Missing => Err(GatherFault::Missing(source)),
        FoundView::Other => Err(GatherFault::Unsupported(source)),
        FoundView::File(data) => match file_name(source) {
            None => Err(GatherFault::NoName(source)),
            Some(n) => Ok(
                seq![(
                    match prefix {
                        Some(p) => joined_toc(p, n),
                        None => normalized_toc(n),
                    },
                    data,
                )],
            ),
        },
        FoundView::Dir(files) => Ok(
            files.map_values(|f: (Seq<char>, Seq<u8>)| (under_prefix(prefix, f.0), f.1)),
        ),
    }
}

/// The sources (path, what was found) gathered one after the other.
pub open spec fn gather(sources: Seq<(Seq<char>, FoundView)>, multi: bool) -> Gathered
    decreases sources.len(),
{
    if sources.len() == 0 {
        Ok((Seq::empty(), None))
    } else {
        match gather(sources.drop_last(), multi) {
            Err(f) => Err(f),
            Ok(st) => match placed_of(sources.last().0, multi, sources.last().1) {
                Err(f) => Err(f),
                Ok(pl) => place_all(Ok(st), pl),
            },
        }
    }
}

/// The sources as `gather` takes them.
pub open spec fn sources_view(paths: Seq<String>, found: Seq<FoundSource>) -> Seq<(Seq<char>, FoundView)> {
    Seq::new(paths.len(), |i: int| (paths[i]@, found_view(found[i])))
}

/// Whether the exec state is the gathered one.
pub open spec fn state_is(files: Seq<(String, Vec<u8>)>, meta: Option<String>, st: (Seq<(Seq<char>, Seq<u8>)>, Option<Seq<char>>)) -> bool {
    items_view(files) == st.0 && opt_string(meta) == st.1 && keys_distinct(files)
}

proof fn lemma_has_key_holds_path(files: Seq<(String, Vec<u8>)>, path: Seq<char>)
    ensures
        has_key(files, path) == holds_path(items_view(files), path),
{
    if has_key(files, path) {
        let i = choose|i: int| 0 <= i < files.len() && #[trigger] files[i].0@ == path;
        assert(items_view(files)[i].0 == path);
    }
    if holds_path(items_view(files), path) {
        let i = choose|i: int| 0 <= i < items_view(files).len() && #[trigger] items_view(files)[i].0 == path;
        assert(files[i].0@ == path);
    }
}

proof fn lemma_place_all_err(st: Gathered, pl: Seq<(Seq<char>, Seq<u8>)>, n: int)
    requires
        0 <= n <= pl.len(),
        place_all(st, pl.take(n)) is Err,
    ensures
        place_all(st, pl) == place_all(st, pl.take(n)),
    decreases pl.len(),
{
    if pl.len() > n {
        assert(pl.drop_last().take(n) =~= pl.take(n));
        lemma_place_all_err(st, pl.drop_last(), n);
    } else {
        assert(pl.take(n) =~= pl);
    }
}

proof fn lemma_gather_err_prefix(sv: Seq<(Seq<char>, FoundView)>, multi: bool, n: int)
    requires
        0 <= n <= sv.len(),
        gather(sv.take(n), multi) is Err,
    ensures
        gather(sv, multi) == gather(sv.take(n), multi),
    decreases sv.len(),
{
    if sv.len() > n {
        assert(sv.drop_last().take(n) =~= sv.take(n));
        lemma_gather_err_prefix(sv.drop_last(), multi, n);
    } else {
        assert(sv.take(n) =~= sv);
    }
}

/// Places one file (see `place`).
fn place_file(files: &mut Vec<(String, Vec<u8>)>, meta: &mut Option<String>, rel: String, data: Vec<u8>) -> (res: AppResult<()>)
    requires
        keys_distinct(old(files)@),
    ensures
        ({
            let st = place(Ok((items_view(old(files)@), opt_string(*old(meta)))), rel@, data@);
            match st {
                Ok(g) => res is Ok && state_is(final(files)@, *final(meta), g),
                Err(f) => res matches Err(e) && fault_error(f, e),
            }
        }),
{
    if str_eq_chars("metadata.hehestl", &chars_of(rel.as_str())) {
        assert(rel@ == metadata_path());
        let ghost bytes = data@;
        match utf8_string(data) {
            Ok(s) => {
                proof {
                    encode_utf8_decode_utf8(s@);
                }
                *meta = Some(s);
                Ok(())
            },
            Err(_) => Err(archive_error_str("stream did not contain valid UTF-8")),
        }
    } else {
        let ghost before = files@;
        let ghost rv = rel@;
        let ghost dv = data@;
        proof {
            lemma_has_key_holds_path(before, rv);
        }
        let r = insert_unique(files, rel, data);
        assert(r is Ok ==> items_view(files@) =~= items_view(before).push((rv, dv)));
        r
    }
}

/// The TOC path of a single source file named `name`.
fn file_rel(prefix: &Option<String>, name: &Vec<char>) -> (res: String)
    ensures
        res@ == match opt_string(*prefix) {
            Some(p) => joined_toc(p, name@),
            None => normalized_toc(name@),
        },
{
    let n = string_of(name);
    match prefix {
        Some(p) => join_toc_path(p.as_str(), n.as_str()),
        None => normalize_toc_path(n.as_str()),
    }
}

/// The prefix of a source (see `source_prefix`).
fn prefix_of(source: &str, multi: bool) -> (res: Option<String>)
    ensures
        opt_string(res) == source_prefix(source@, multi),
{
    if !multi {
        return None;
    }
    match file_name_of(&chars_of(source)) {
        Some(n) => {
            let t = normalize_toc_path(string_of(&n).as_str());
            if chars_of(t.as_str()).len() > 0 {
                Some(t)
            } else {
                None
            }
        },
        None => None,
    }
}

/// The files to pack and the root metadata, from the user's source paths and
/// what was found at each (`found[i]` at `paths[i]`); see `gather`.
pub fn collect_local_sources(paths: &[String], found: Vec<FoundSource>) -> (res: AppResult<(Vec<(String, Vec<u8>)>, Option<String>)>)
    requires
        paths@.len() == found@.len(),
    ensures
        match gather(sources_view(paths@, found@), paths@.len() > 1) {
            Ok(g) => res matches Ok((v, m)) && state_is(v@, m, g),
            Err(f) => res matches Err(e) && fault_error(f, e),
        },
{
    let ghost sv = sources_view(paths@, found@);
    let multi = paths.len() > 1;
    let mut files: Vec<(String, Vec<u8>)> = Vec::new();
    let mut meta: Option<String> = None;
    let mut rest = found;
    let ghost fz = rest@;
    let mut i: usize = 0;
    assert(items_view(files@) =~= Seq::<(Seq<char>, Seq<u8>)>::empty());
    while i < paths.len()
        invariant
            i <= paths@.len(),
            paths@.len() == fz.len(),
            sv == sources_view(paths@, fz),
            multi == (paths@.len() > 1),
            rest@ == fz.skip(i as int),
            fz == found@,
            gather(sv.take(i as int), multi) == Ok::<(Seq<(Seq<char>, Seq<u8>)>, Option<Seq<char>>), GatherFault>((items_view(files@), opt_string(meta))),
            keys_distinct(files@),
        decreases paths@.len() - i,
    {
        let source = &paths[i];
        let f = rest.remove(0);
        assert(rest@ =~= fz.skip(i + 1));
        assert(found_view(f) == found_view(fz[i as int]));
        assert(sv.take(i + 1).drop_last() =~= sv.take(i as int));
        assert(sv.take(i + 1).last() == (source@, found_view(f)));
        let ghost st0 = (items_view(files@), opt_string(meta));
        let prefix = prefix_of(source.as_str(), multi);
        match f {
            FoundSource::Missing => {
                let e = validation_error("Путь не найден: ", &chars_of(source.as_str()));
                proof { lemma_gather_err_prefix(sv, multi, i + 1); }
                return Err(e);
            },
            FoundSource::Other => {
                let e = validation_error("Неподдерживаемый путь: ", &chars_of(source.as_str()));
                proof { lemma_gather_err_prefix(sv, multi, i + 1); }
                return Err(e);
            },
            FoundSource::File(data) => {
                match file_name_of(&chars_of(source.as_str())) {
                    None => {
                        let e = validation_error("invalid path: ", &chars_of(source.as_str()));
                        proof { lemma_gather_err_prefix(sv, multi, i + 1); }
                        return Err(e);
                    },
                    Some(n) => {
                        let rel = file_rel(&prefix, &n);
                        let ghost pl = seq![(rel@, data@)];
                        assert(placed_of(source@, multi, FoundView::File(data@)) == Ok::<Seq<(Seq<char>, Seq<u8>)>, GatherFault>(pl));
                        assert(pl.drop_last() =~= Seq::<(Seq<char>, Seq<u8>)>::empty());
                        assert(place_all(Ok(st0), pl.drop_last()) == Ok::<(Seq<(Seq<char>, Seq<u8>)>, Option<Seq<char>>), GatherFault>(st0));
                        assert(place_all(Ok(st0), pl) == place(Ok(st0), rel@, data@));
                        assert(gather(sv.take(i + 1), multi) == place(Ok(st0), rel@, data@));
                        let r = place_file(&mut files, &mut meta, rel, data);
                        match r {
                            Err(e) => {
                                proof { lemma_gather_err_prefix(sv, multi, i + 1); }
                                return Err(e);
                            },
                            Ok(()) => {},
                        }
                    },
                }
            },
            FoundSource::Dir(entries) => {
                let ghost ev = items_view(entries@);
                let ghost pl = ev.map_values(|x: (Seq<char>, Seq<u8>)| (under_prefix(opt_string(prefix), x.0), x.1));
                let mut entries = entries;
                let ghost ez = entries@;
                let n = entries.len();
                let mut k: usize = 0;
                while k < n
                    invariant
                        k <= n,
                        n == ez.len(),
                        ev == items_view(ez),
                        entries@ == ez.skip(k as int),
                        pl == ev.map_values(|x: (Seq<char>, Seq<u8>)| (under_prefix(opt_string(prefix), x.0), x.1)),
                        place_all(Ok(st0), pl.take(k as int)) == Ok::<(Seq<(Seq<char>, Seq<u8>)>, Option<Seq<char>>), GatherFault>((items_view(files@), opt_string(meta))),
                        keys_distinct(files@),
                        i < paths@.len(),
                        fz == found@,
                        paths@.len() == fz.len(),
                        sv == sources_view(paths@, fz),
                        multi == (paths@.len() > 1),
                        sv.take(i + 1).drop_last() =~= sv.take(i as int),
                        sv.take(i + 1).last() == (paths@[i as int]@, FoundView::Dir(ev)),
                        gather(sv.take(i as int), multi) == Ok::<(Seq<(Seq<char>, Seq<u8>)>, Option<Seq<char>>), GatherFault>(st0),
                        opt_string(prefix) == source_prefix(paths@[i as int]@, multi),
                    decreases n - k,
                {
                    let (rel0, data) = entries.remove(0);
                    assert(entries@ =~= ez.skip(k + 1));
                    assert(rel0@ == ez[k as int].0@ && data@ == ez[k as int].1@);
                    let rel = match &prefix {
                        Some(p) => join_toc_path(p.as_str(), rel0.as_str()),
                        None => rel0,
                    };
                    assert(rel@ == pl[k as int].0);
                    assert(pl.take(k + 1).drop_last() =~= pl.take(k as int));
                    assert(pl.take(k + 1).last() == pl[k as int]);
                    let ghost st_k = (items_view(files@), opt_string(meta));
                    assert(place_all(Ok(st0), pl.take(k + 1)) == place(Ok(st_k), rel@, data@));
                    let r = place_file(&mut files, &mut meta, rel, data);
                    match r {
                        Err(e) => {
                            proof {
                                lemma_place_all_err(Ok(st0), pl, k as int + 1);
                                assert(placed_of(paths@[i as int]@, multi, FoundView::Dir(ev)) == Ok::<Seq<(Seq<char>, Seq<u8>)>, GatherFault>(pl));
                                assert(gather(sv.take(i + 1), multi) == place_all(Ok(st0), pl));
                                lemma_gather_err_prefix(sv, multi, i + 1);
                            }
                            return Err(e);
                        },
                        Ok(()) => {},
                    }
                    k = k + 1;
                }
                assert(pl.take(n as int) =~= pl);
                assert(placed_of(paths@[i as int]@, multi, FoundView::Dir(ev)) == Ok::<Seq<(Seq<char>, Seq<u8>)>, GatherFault>(pl));
                assert(gather(sv.take(i + 1), multi) == place_all(Ok(st0), pl));
            },
        }
        i = i + 1;
    }
    assert(sv.take(paths@.len() as int) =~= sv);
    Ok((files, meta))
}

} // verus!
