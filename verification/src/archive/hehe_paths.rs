//! Paths inside an archive: how they are compared, joined, selected and renamed,
//! and which entries an extraction request names.
use crate::archive::hehe_toc::{find_entry, lemma_lookup_found, lookup, toc_views, TocEntry, TocView};
use crate::archive::parser::{dotted_extension, dotted_extension_of};
use crate::archive::seven_zip::{ArchiveEntryDto, EntryView};
use crate::error::{is_validation_error, validation_error, AppError, AppResult};
use crate::path::{segments, segments_of};
use crate::text::ascii_lower;
use crate::text::{
    append_chars, chars_eq, chars_of, push_piece, join_sep, join_sep_from, last_index, last_index_of,
    lemma_last_index, replace_char, replace_char_of, slice_chars, str_eq_chars, string_of,
    strip_prefix, strip_prefix_of, trim_end_char, trim_end_char_of, trim_start_char,
    trim_start_char_of,
};
use vstd::prelude::*;

verus! {

/// The name of the metadata entry.
pub open spec fn metadata_path() -> Seq<char> {
    "metadata.hehestl"@
}

/// An entry path with `\` read as `/` and no trailing `/`: the form in which
/// entries are compared.
pub open spec fn normalized_entry(p: Seq<char>) -> Seq<char> {
    trim_end_char(replace_char(p, '\\', '/'), '/')
}

pub fn normalize_entry_chars(p: &Vec<char>) -> (res: Vec<char>)
    ensures
        res@ == normalized_entry(p@),
{
    let r = replace_char_of(p, '\\', '/');
    trim_end_char_of(&r, '/')
}

/// `p` with `\` read as `/` and trailing `/` removed.
pub fn normalize_entry_path(p: &str) -> (res: String)
    ensures
        res@ == normalized_entry(p@),
{
    let c = chars_of(p);
    let n = normalize_entry_chars(&c);
    string_of(&n)
}

/// A path as the TOC stores it: `/`-separated, no empty or `.` segments.
pub open spec fn normalized_toc(p: Seq<char>) -> Seq<char> {
    join_sep(segments(replace_char(p, '\\', '/')), seq!['/'])
}

fn normalize_toc_chars(p: &Vec<char>) -> (res: Vec<char>)
    ensures
        res@ == normalized_toc(p@),
{
    let r = replace_char_of(p, '\\', '/');
    let segs = segments_of(&r);
    let mut slash: Vec<char> = Vec::new();
    slash.push('/');
    assert(slash@ == seq!['/']);
    assert(segs.deep_view().skip(0) =~= segs.deep_view());
    join_sep_from(&segs, 0, &slash)
}

pub fn normalize_toc_path(p: &str) -> (res: String)
    ensures
        res@ == normalized_toc(p@),
{
    let c = chars_of(p);
    let n = normalize_toc_chars(&c);
    string_of(&n)
}

/// `name` under `base`, both in TOC form.
pub open spec fn joined_toc(base: Seq<char>, name: Seq<char>) -> Seq<char> {
    if base.len() == 0 {
        normalized_toc(name)
    } else {
        normalized_toc(base) + seq!['/'] + normalized_toc(name)
    }
}

pub fn join_toc_path(base: &str, name: &str) -> (res: String)
    ensures
        res@ == joined_toc(base@, name@),
{
    let n = normalize_toc_chars(&chars_of(name));
    let bc = chars_of(base);
    if bc.len() == 0 {
        return string_of(&n);
    }
    let mut b = normalize_toc_chars(&bc);
    b.push('/');
    append_chars(&mut b, &n);
    string_of(&b)
}

/// The TOC path an entry gets when `strip` (if given and not empty) is taken
/// off its front; `None` where nothing is left.
pub open spec fn remapped(original: Seq<char>, strip: Option<Seq<char>>) -> Option<Seq<char>> {
    let norm = normalized_entry(original);
    let stripped = match strip {
        Some(p) => if p.len() > 0 {
            match strip_prefix(norm, normalized_entry(p)) {
                Some(rest) => trim_start_char(rest, '/'),
                None => norm,
            }
        } else {
            norm
        },
        None => norm,
    };
    if normalized_toc(stripped).len() == 0 {
        None
    } else {
        Some(normalized_toc(stripped))
    }
}

pub open spec fn opt_string(o: Option<String>) -> Option<Seq<char>> {
    match o {
        Some(s) => Some(s@),
        None => None,
    }
}

pub open spec fn opt_str(o: Option<&str>) -> Option<Seq<char>> {
    match o {
        Some(s) => Some(s@),
        None => None,
    }
}

/// The path an entry of a source archive gets in a new archive.
pub fn remap_entry_path(original: &str, strip_prefix: Option<&str>) -> (res: AppResult<String>)
    ensures
        match res {
            Ok(m) => remapped(original@, opt_str(strip_prefix)) == Some(m@),
            Err(e) => remapped(original@, opt_str(strip_prefix)) is None && is_validation_error(
                e,
                "Пустой путь после strip: "@ + original@,
            ),
        },
{
    let orig = chars_of(original);
    let norm = normalize_entry_chars(&orig);
    let stripped = match strip_prefix {
        Some(p) => {
            let pc = chars_of(p);
            if pc.len() > 0 {
                let pn = normalize_entry_chars(&pc);
                match strip_prefix_of(&norm, &pn) {
                    Some(rest) => trim_start_char_of(&rest, '/'),
                    None => norm,
                }
            } else {
                norm
            }
        },
        None => norm,
    };
    let mapped = normalize_toc_chars(&stripped);
    if mapped.len() == 0 {
        return Err(validation_error("Пустой путь после strip: ", &orig));
    }
    Ok(string_of(&mapped))
}

/// Whether the normalized entry path lies at or under the selected path `sel`.
pub open spec fn selected_by(norm_path: Seq<char>, sel: Seq<char>) -> bool {
    let s = normalized_entry(sel);
    norm_path == s || strip_prefix(norm_path, s + seq!['/']) is Some
}

/// Whether an entry is selected: everything is where nothing is selected.
pub open spec fn matches_selection(norm_path: Seq<char>, sels: Seq<String>) -> bool {
    sels.len() == 0 || exists|i: int| 0 <= i < sels.len() && selected_by(norm_path, #[trigger] sels[i]@)
}

fn selected_by_of(norm_path: &Vec<char>, sel: &str) -> (res: bool)
    ensures
        res == selected_by(norm_path@, sel@),
{
    let s = normalize_entry_chars(&chars_of(sel));
    if chars_eq(norm_path, &s) {
        return true;
    }
    let mut with_slash = slice_chars(&s, 0, s.len());
    with_slash.push('/');
    assert(with_slash@ =~= s@ + seq!['/']);
    match strip_prefix_of(norm_path, &with_slash) {
        Some(_) => true,
        None => false,
    }
}

pub fn entry_matches_selection(norm_path: &str, entry_paths: &[String]) -> (res: bool)
    ensures
        res == matches_selection(norm_path@, entry_paths@),
{
    if entry_paths.len() == 0 {
        return true;
    }
    let n = chars_of(norm_path);
    let mut i: usize = 0;
    while i < entry_paths.len()
        invariant
            i <= entry_paths@.len(),
            n@ == norm_path@,
            forall|j: int| 0 <= j < i ==> !selected_by(norm_path@, #[trigger] entry_paths@[j]@),
        decreases entry_paths@.len() - i,
    {
        if selected_by_of(&n, entry_paths[i].as_str()) {
            return true;
        }
        i = i + 1;
    }
    false
}

/// Whether a file set holds each path at most once.
pub open spec fn keys_distinct(files: Seq<(String, Vec<u8>)>) -> bool {
    forall|i: int, j: int| 0 <= i < j < files.len() ==> #[trigger] files[i].0@ != #[trigger] files[j].0@
}

/// Whether a file set holds `path`.
pub open spec fn has_key(files: Seq<(String, Vec<u8>)>, path: Seq<char>) -> bool {
    exists|i: int| 0 <= i < files.len() && #[trigger] files[i].0@ == path
}

/// Adds a file to a set of files; a path that is there already is refused.
pub fn insert_unique(files: &mut Vec<(String, Vec<u8>)>, path: String, data: Vec<u8>) -> (res:
    AppResult<()>)
    ensures
        match res {
            Ok(()) => !has_key(old(files)@, path@) && final(files)@ == old(files)@.push(
                (path, data),
            ),
            Err(e) => has_key(old(files)@, path@) && final(files)@ == old(files)@
                && is_validation_error(e, "Коллизия имён: "@ + path@),
        },
        keys_distinct(old(files)@) ==> keys_distinct(final(files)@),
{
    let p = chars_of(path.as_str());
    let mut i: usize = 0;
    while i < files.len()
        invariant
            i <= files.len(),
            files@ == old(files)@,
            p@ == path@,
            forall|j: int| 0 <= j < i ==> #[trigger] files@[j].0@ != path@,
        decreases files.len() - i,
    {
        if str_eq_chars(files[i].0.as_str(), &p) {
            return Err(validation_error("Коллизия имён: ", &p));
        }
        i = i + 1;
    }
    files.push((path, data));
    proof {
        assert forall|a: int, b: int| 0 <= a < b < files@.len() && keys_distinct(old(files)@) implies #[trigger] files@[a].0@
            != #[trigger] files@[b].0@ by {
            if b < files@.len() - 1 {
                assert(files@[a] == old(files)@[a]);
                assert(files@[b] == old(files)@[b]);
            } else {
                assert(files@[a] == old(files)@[a]);
            }
        }
    }
    Ok(())
}

/// File names left out when a folder is packed.
pub open spec fn is_skipped_file_name(n: Seq<char>) -> bool {
    n == "Thumbs.db"@ || n == ".DS_Store"@ || n == "desktop.ini"@ || n == ".gitignore"@
}

/// Folder names left out when a folder is packed.
pub open spec fn is_skipped_dir_name(n: Seq<char>) -> bool {
    n == ".git"@ || n == "node_modules"@ || n == "__MACOSX"@
}

pub fn should_skip_file_name(name: &str) -> (res: bool)
    ensures
        res == is_skipped_file_name(name@),
{
    let n = chars_of(name);
    str_eq_chars("Thumbs.db", &n) || str_eq_chars(".DS_Store", &n) || str_eq_chars(
        "desktop.ini",
        &n,
    ) || str_eq_chars(".gitignore", &n)
}

pub fn should_skip_dir_name(name: &str) -> (res: bool)
    ensures
        res == is_skipped_dir_name(name@),
{
    let n = chars_of(name);
    str_eq_chars(".git", &n) || str_eq_chars("node_modules", &n) || str_eq_chars("__MACOSX", &n)
}

/// Text without a leading byte-order mark.
pub open spec fn without_bom(s: Seq<char>) -> Seq<char> {
    if s.len() > 0 && s[0] == '\u{FEFF}' {
        s.drop_first()
    } else {
        s
    }
}

pub fn strip_utf8_bom(s: &Vec<char>) -> (res: Vec<char>)
    ensures
        res@ == without_bom(s@),
{
    if s.len() > 0 && s[0] == '\u{FEFF}' {
        slice_chars(s, 1, s.len())
    } else {
        slice_chars(s, 0, s.len())
    }
}

pub open spec fn strings_view(v: Seq<String>) -> Seq<Seq<char>> {
    v.map_values(|s: String| s@)
}

/// The `OriginalSources` value: up to three sources joined by `; `, and `; …`
/// after the first three where there are more.
pub open spec fn sources_line(sources: Seq<Seq<char>>) -> Option<Seq<char>> {
    if sources.len() == 0 {
        None
    } else if sources.len() <= 3 {
        Some(join_sep(sources, "; "@))
    } else {
        Some(join_sep(sources.take(3), "; "@) + "; …"@)
    }
}

pub fn format_original_sources(sources: &[String]) -> (res: Option<String>)
    ensures
        match res {
            Some(s) => sources_line(strings_view(sources@)) == Some(s@),
            None => sources_line(strings_view(sources@)) is None,
        },
{
    if sources.len() == 0 {
        return None;
    }
    let n: usize = if sources.len() <= 3 {
        sources.len()
    } else {
        3
    };
    let mut parts: Vec<Vec<char>> = Vec::new();
    let mut i: usize = 0;
    while i < n
        invariant
            i <= n <= sources@.len(),
            parts.deep_view() == strings_view(sources@).take(i as int),
        decreases n - i,
    {
        let c = chars_of(sources[i].as_str());
        push_piece(&mut parts, c);
        assert(parts.deep_view() =~= strings_view(sources@).take(i + 1));
        i = i + 1;
    }
    let sep = chars_of("; ");
    assert(parts.deep_view().skip(0) =~= parts.deep_view());
    let mut line = join_sep_from(&parts, 0, &sep);
    if sources.len() > 3 {
        let tail = chars_of("; …");
        append_chars(&mut line, &tail);
    } else {
        assert(strings_view(sources@).take(n as int) =~= strings_view(sources@));
    }
    Some(string_of(&line))
}

/// The listing entry for a TOC entry: a directory where the path ends with `/`.
pub open spec fn toc_entry_view(path: Seq<char>, size: u64, packed: u64) -> EntryView {
    let is_dir = path.len() > 0 && path.last() == '/';
    let trimmed = trim_end_char(path, '/');
    let name = match last_index(trimmed, '/') {
        Some(k) => trimmed.skip(k + 1),
        None => trimmed,
    };
    EntryView {
        path: path,
        name: name,
        size: size,
        packed_size: packed,
        modified: None,
        is_dir: is_dir,
        extension: if is_dir {
            Seq::empty()
        } else {
            dotted_extension(name)
        },
    }
}

pub fn entry_dto(path: &str, size: u64, packed: u64) -> (res: ArchiveEntryDto)
    ensures
        res@ == toc_entry_view(path@, size, packed),
{
    let p = chars_of(path);
    let is_dir = p.len() > 0 && p[p.len() - 1] == '/';
    let trimmed = trim_end_char_of(&p, '/');
    proof {
        lemma_last_index(trimmed@, '/');
    }
    let name = match last_index_of(&trimmed, '/') {
        Some(k) => slice_chars(&trimmed, k + 1, trimmed.len()),
        None => slice_chars(&trimmed, 0, trimmed.len()),
    };
    assert(trimmed@.subrange(0, trimmed@.len() as int) =~= trimmed@);
    let extension = if is_dir {
        Vec::new()
    } else {
        dotted_extension_of(&name)
    };
    ArchiveEntryDto {
        path: string_of(&p),
        name: string_of(&name),
        size,
        packed_size: packed,
        modified: None,
        is_dir,
        extension: string_of(&extension),
    }
}


/// Whether a path names a directory (ends with `/`).
pub open spec fn ends_with_slash(p: Seq<char>) -> bool {
    p.len() > 0 && p.last() == '/'
}

/// The file entry that a requested path names exactly, if any.
pub open spec fn direct_hit(es: Seq<TocView>, f: Seq<char>) -> Option<TocView> {
    match lookup(es, f) {
        Some(e) => if ends_with_slash(e.path) {
            None
        } else {
            Some(e)
        },
        None => None,
    }
}

/// The exact hits of the requested paths, in request order.
pub open spec fn direct_hits(es: Seq<TocView>, filter: Seq<Seq<char>>) -> Seq<TocView>
    decreases filter.len(),
{
    if filter.len() == 0 {
        Seq::empty()
    } else {
        match direct_hit(es, filter.last()) {
            Some(e) => direct_hits(es, filter.drop_last()).push(e),
            None => direct_hits(es, filter.drop_last()),
        }
    }
}

/// The normalized paths of the exact hits, in request order.
pub open spec fn direct_keys(es: Seq<TocView>, filter: Seq<Seq<char>>) -> Seq<Seq<char>>
    decreases filter.len(),
{
    if filter.len() == 0 {
        Seq::empty()
    } else {
        match direct_hit(es, filter.last()) {
            Some(e) => direct_keys(es, filter.drop_last()).push(filter.last()),
            None => direct_keys(es, filter.drop_last()),
        }
    }
}

/// Whether a normalized path is requested, or lies under a requested folder.
pub open spec fn under_filter(n: Seq<char>, filter: Seq<Seq<char>>) -> bool {
    filter.contains(n) || exists|i: int|
        0 <= i < filter.len() && strip_prefix(n, #[trigger] filter[i] + seq!['/']) is Some
}

/// The file entries from index `i` on that a request selects by folder, each
/// normalized path once, `seen` ones left out.
pub open spec fn folder_hits(es: Seq<TocView>, filter: Seq<Seq<char>>, seen: Seq<Seq<char>>, i: int) -> Seq<
    TocView,
>
    decreases es.len() - i,
{
    if i < 0 || i >= es.len() {
        Seq::empty()
    } else {
        let e = es[i];
        let n = normalized_entry(e.path);
        if !ends_with_slash(e.path) && !seen.contains(n) && under_filter(n, filter) {
            seq![e] + folder_hits(es, filter, seen.push(n), i + 1)
        } else {
            folder_hits(es, filter, seen, i + 1)
        }
    }
}

/// The entries an extraction of the requested (normalized) paths writes: the
/// exact hits first; then, unless every request was an exact hit, the files
/// under requested folders in TOC order.
pub open spec fn target_entries(es: Seq<TocView>, filter: Seq<Seq<char>>) -> Seq<TocView> {
    let d = direct_hits(es, filter);
    if forall|i: int| 0 <= i < filter.len() ==> #[trigger] direct_hit(es, filter[i]) is Some {
        d
    } else {
        d + folder_hits(es, filter, direct_keys(es, filter), 0)
    }
}

pub(crate) fn contains_piece(v: &Vec<Vec<char>>, n: &Vec<char>) -> (res: bool)
    ensures
        res == v.deep_view().contains(n@),
{
    let mut i: usize = 0;
    while i < v.len()
        invariant
            i <= v.len(),
            forall|j: int| 0 <= j < i ==> #[trigger] v.deep_view()[j] != n@,
        decreases v.len() - i,
    {
        assert(v.deep_view()[i as int] == v@[i as int]@);
        if chars_eq(&v[i], n) {
            return true;
        }
        i = i + 1;
    }
    false
}

fn under_filter_of(n: &Vec<char>, filter: &Vec<Vec<char>>) -> (res: bool)
    ensures
        res == under_filter(n@, filter.deep_view()),
{
    if contains_piece(filter, n) {
        return true;
    }
    let mut i: usize = 0;
    while i < filter.len()
        invariant
            i <= filter.len(),
            forall|j: int|
                0 <= j < i ==> strip_prefix(n@, #[trigger] filter.deep_view()[j] + seq!['/']) is None,
        decreases filter.len() - i,
    {
        let mut p = slice_chars(&filter[i], 0, filter[i].len());
        p.push('/');
        assert(filter.deep_view()[i as int] == filter@[i as int]@);
        assert(p@ =~= filter.deep_view()[i as int] + seq!['/']);
        if strip_prefix_of(n, &p).is_some() {
            return true;
        }
        i = i + 1;
    }
    false
}

/// The entries that extracting the requested paths writes; `filter` holds the
/// requested paths normalized, each once.
pub fn collect_target_entries(toc: &Vec<TocEntry>, filter: &Vec<Vec<char>>) -> (res: Vec<TocEntry>)
    ensures
        toc_views(res@) == target_entries(toc_views(toc@), filter.deep_view()),
{
    let ghost es = toc_views(toc@);
    let ghost fv = filter.deep_view();
    let mut out: Vec<TocEntry> = Vec::new();
    let mut seen: Vec<Vec<char>> = Vec::new();
    let mut all_direct = true;
    let mut i: usize = 0;
    assert(fv.take(0) =~= Seq::<Seq<char>>::empty());
    assert(toc_views(out@) =~= Seq::<TocView>::empty());
    assert(seen.deep_view() =~= Seq::<Seq<char>>::empty());
    while i < filter.len()
        invariant
            i <= filter.len(),
            es == toc_views(toc@),
            fv == filter.deep_view(),
            toc_views(out@) == direct_hits(es, fv.take(i as int)),
            seen.deep_view() == direct_keys(es, fv.take(i as int)),
            all_direct == forall|j: int| 0 <= j < i ==> #[trigger] direct_hit(es, fv[j]) is Some,
        decreases filter.len() - i,
    {
        assert(fv.take(i + 1).drop_last() =~= fv.take(i as int));
        assert(fv.take(i + 1).last() == filter@[i as int]@);
        match find_entry(toc, &filter[i]) {
            Some(k) => {
                let pk = chars_of(toc[k].path.as_str());
                if pk.len() > 0 && pk[pk.len() - 1] == '/' {
                    all_direct = false;
                } else {
                    let ghost old_out = out@;
                    let e = toc[k].duplicate();
                    out.push(e);
                    assert(toc_views(out@) =~= toc_views(old_out).push(e@));
                    push_piece(&mut seen, slice_chars(&filter[i], 0, filter[i].len()));
                    assert(filter@[i as int]@.subrange(0, filter@[i as int]@.len() as int)
                        =~= filter@[i as int]@);
                }
            },
            None => {
                all_direct = false;
            },
        }
        i = i + 1;
    }
    assert(fv.take(filter.len() as int) =~= fv);
    if all_direct {
        return out;
    }
    let ghost d = toc_views(out@);
    let mut j: usize = 0;
    assert(d + folder_hits(es, fv, seen.deep_view(), 0) =~= toc_views(out@) + folder_hits(
        es,
        fv,
        seen.deep_view(),
        j as int,
    ));
    while j < toc.len()
        invariant
            j <= toc.len(),
            es == toc_views(toc@),
            fv == filter.deep_view(),
            target_entries(es, fv) == toc_views(out@) + folder_hits(es, fv, seen.deep_view(), j as int),
        decreases toc.len() - j,
    {
        let e = &toc[j];
        let ghost ev = toc@[j as int]@;
        assert(es[j as int] == ev);
        let p = chars_of(e.path.as_str());
        let n = normalize_entry_chars(&p);
        let dir = p.len() > 0 && p[p.len() - 1] == '/';
        if !dir && !contains_piece(&seen, &n) && under_filter_of(&n, filter) {
            let ghost old_out = out@;
            let ghost old_seen = seen.deep_view();
            let d2 = e.duplicate();
            out.push(d2);
            assert(toc_views(out@) =~= toc_views(old_out).push(ev));
            push_piece(&mut seen, n);
            assert(toc_views(old_out) + (seq![ev] + folder_hits(es, fv, old_seen.push(normalized_entry(ev.path)), j + 1))
                =~= toc_views(out@) + folder_hits(es, fv, seen.deep_view(), j + 1));
        }
        j = j + 1;
    }
    assert(folder_hits(es, fv, seen.deep_view(), toc.len() as int) == Seq::<TocView>::empty());
    assert(toc_views(out@) + Seq::<TocView>::empty() =~= toc_views(out@));
    out
}

/// A file entry of a listing is named by the last segment of its path: the
/// name is a non-empty end of the path holding no `/`, and what comes before
/// it in the path is empty or ends with `/`. Its extension is the lower-cased
/// text after the last `.` of the name, or empty where the name has no `.`.
pub proof fn lemma_listed_name_is_last_segment(path: Seq<char>, size: u64, packed: u64)
    requires
        path.len() > 0,
        path.last() != '/',
    ensures
        ({
            let v = toc_entry_view(path, size, packed);
            let n = v.name;
            &&& !v.is_dir
            &&& 0 < n.len() <= path.len()
            &&& path.skip(path.len() - n.len()) == n
            &&& forall|i: int| 0 <= i < n.len() ==> n[i] != '/'
            &&& (n.len() == path.len() || path[path.len() - n.len() - 1] == '/')
            &&& forall|k: int|
                0 <= k < n.len() && n[k] == '.' && (forall|j: int| k < j < n.len() ==> n[j] != '.')
                    ==> v.extension == ascii_lower(n.skip(k + 1))
            &&& (forall|i: int| 0 <= i < n.len() ==> n[i] != '.') ==> v.extension.len() == 0
        }),
{
    assert(trim_end_char(path, '/') == path);
    lemma_last_index(path, '/');
    let v = toc_entry_view(path, size, packed);
    let n = v.name;
    match last_index(path, '/') {
        Some(k) => {
            assert(n =~= path.skip(k + 1));
            assert(path.skip(path.len() - n.len()) =~= n);
            assert forall|i: int| 0 <= i < n.len() implies n[i] != '/' by {
                assert(n[i] == path[k + 1 + i]);
            }
        },
        None => {
            assert(path.skip(0) =~= path);
        },
    }
    lemma_last_index(n, '.');
    assert forall|k: int|
        0 <= k < n.len() && n[k] == '.' && (forall|j: int| k < j < n.len() ==> n[j] != '.')
        implies v.extension == ascii_lower(n.skip(k + 1)) by {
        match last_index(n, '.') {
            Some(k2) => {
                if k2 < k {
                } else if k2 > k {
                    assert(n[k2] == '.');
                }
            },
            None => {},
        }
    }
    if forall|i: int| 0 <= i < n.len() ==> n[i] != '.' {
        match last_index(n, '.') {
            Some(k2) => {
                assert(n[k2] == '.');
            },
            None => {},
        }
    }
}

/// The direct hits of a request lie among its exact hits: a requested path
/// with an exact file hit has that file, of the same normalized path, among
/// the direct hits.
proof fn lemma_direct_key_hit(es: Seq<TocView>, filter: Seq<Seq<char>>, n: Seq<char>)
    requires
        direct_keys(es, filter).contains(n),
    ensures
        exists|k: int| 0 <= k < direct_hits(es, filter).len() && normalized_entry(#[trigger] direct_hits(es, filter)[k].path) == n,
    decreases filter.len(),
{
    let f = filter.last();
    let dk = direct_keys(es, filter.drop_last());
    let dh = direct_hits(es, filter.drop_last());
    match direct_hit(es, f) {
        Some(e) => {
            lemma_lookup_found(es, f);
            if dk.contains(n) {
                lemma_direct_key_hit(es, filter.drop_last(), n);
                let k = choose|k: int| 0 <= k < dh.len() && normalized_entry(#[trigger] dh[k].path) == n;
                assert(direct_hits(es, filter) == dh.push(e));
                assert(direct_hits(es, filter)[k] == dh[k]);
            } else {
                assert(direct_keys(es, filter) == dk.push(f));
                let last = direct_keys(es, filter).len() - 1;
                assert(direct_keys(es, filter)[last] == f);
                assert(n == f);
                assert(lookup(es, f) == Some(e));
                assert(normalized_entry(e.path) == f);
                assert(direct_hits(es, filter) == dh.push(e));
                assert(direct_hits(es, filter)[dh.len() as int] == e);
                assert(normalized_entry(direct_hits(es, filter)[dh.len() as int].path) == n);
            }
        },
        None => {
            assert(direct_keys(es, filter) == dk);
            assert(direct_hits(es, filter) == dh);
            lemma_direct_key_hit(es, filter.drop_last(), n);
        },
    }
}

/// A file entry from index `i` on that a request selects is either already
/// seen, or among the folder hits under its normalized path.
proof fn lemma_folder_hit(es: Seq<TocView>, filter: Seq<Seq<char>>, seen: Seq<Seq<char>>, i: int, j: int)
    requires
        0 <= i <= j < es.len(),
        !ends_with_slash(es[j].path),
        under_filter(normalized_entry(es[j].path), filter),
    ensures
        seen.contains(normalized_entry(es[j].path)) || exists|k: int|
            0 <= k < folder_hits(es, filter, seen, i).len() && normalized_entry(
                #[trigger] folder_hits(es, filter, seen, i)[k].path,
            ) == normalized_entry(es[j].path),
    decreases es.len() - i,
{
    let n = normalized_entry(es[j].path);
    let e = es[i];
    let ni = normalized_entry(e.path);
    let fh = folder_hits(es, filter, seen, i);
    if !ends_with_slash(e.path) && !seen.contains(ni) && under_filter(ni, filter) {
        if i == j {
            assert(fh[0] == e);
        } else {
            lemma_folder_hit(es, filter, seen.push(ni), i + 1, j);
            let rest = folder_hits(es, filter, seen.push(ni), i + 1);
            if seen.push(ni).contains(n) {
                if !seen.contains(n) {
                    let q = choose|q: int| 0 <= q < seen.push(ni).len() && seen.push(ni)[q] == n;
                    if q < seen.len() {
                        assert(seen[q] == n);
                    } else {
                        assert(n == ni);
                        assert(fh[0] == e);
                    }
                }
            } else {
                let k = choose|k: int| 0 <= k < rest.len() && normalized_entry(#[trigger] rest[k].path) == n;
                assert(fh[k + 1] == rest[k]);
            }
        }
    } else if i == j {
    } else {
        lemma_folder_hit(es, filter, seen, i + 1, j);
    }
}

/// Selecting a folder selects every file under it: where a requested
/// (normalized) path `f` names no file, each file entry whose normalized path
/// is `f` followed by `/` and more is among the targets, by its normalized
/// path.
pub proof fn lemma_folder_selects_files_under_it(es: Seq<TocView>, filter: Seq<Seq<char>>, i: int, j: int)
    requires
        0 <= i < filter.len(),
        0 <= j < es.len(),
        !ends_with_slash(es[j].path),
        forall|k: int| 0 <= k < es.len() && normalized_entry(#[trigger] es[k].path) == filter[i] ==> ends_with_slash(es[k].path),
        ({
            let n = normalized_entry(es[j].path);
            let f = filter[i];
            n.len() > f.len() && n.take(f.len() as int) == f && n[f.len() as int] == '/'
        }),
    ensures
        exists|k: int|
            0 <= k < target_entries(es, filter).len() && normalized_entry(#[trigger] target_entries(es, filter)[k].path)
                == normalized_entry(es[j].path),
{
    let n = normalized_entry(es[j].path);
    let f = filter[i];
    assert(n.take((f + seq!['/']).len() as int) =~= f + seq!['/']);
    assert(strip_prefix(n, filter[i] + seq!['/']) is Some);
    assert(under_filter(n, filter));
    lemma_lookup_found(es, f);
    assert(direct_hit(es, filter[i]) is None) by {
        match lookup(es, f) {
            Some(e) => {
                let q = choose|q: int| 0 <= q < es.len() && es[q] == e;
                assert(normalized_entry(es[q].path) == f);
            },
            None => {},
        }
    }
    let d = direct_hits(es, filter);
    let keys = direct_keys(es, filter);
    assert(!(forall|q: int| 0 <= q < filter.len() ==> #[trigger] direct_hit(es, filter[q]) is Some));
    let fh = folder_hits(es, filter, keys, 0);
    assert(target_entries(es, filter) == d + fh);
    lemma_folder_hit(es, filter, keys, 0, j);
    if keys.contains(n) {
        lemma_direct_key_hit(es, filter, n);
        let k = choose|k: int| 0 <= k < d.len() && normalized_entry(#[trigger] d[k].path) == n;
        assert((d + fh)[k] == d[k]);
    } else {
        let k = choose|k: int| 0 <= k < fh.len() && normalized_entry(#[trigger] fh[k].path) == n;
        assert((d + fh)[d.len() + k] == fh[k]);
    }
}

} // verus!
