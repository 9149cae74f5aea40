//! The HEHE archive format: compression presets, creating archives from files
//! or from another archive, reading entries, and the `metadata.hehestl` entry.
use crate::archive::hehe_paths::{
    format_original_sources, opt_str, opt_string, sources_line, strings_view, strip_utf8_bom, without_bom,
};
use crate::archive::hehe_paths::{keys_distinct, metadata_path};
use crate::archive::image_webp::{apply_webp_conversion, webp_fold};
use crate::archive::backend::{skipped_view, SkippedEntry};
use crate::archive::hehe_paths::{
    lemma_folder_selects_files_under_it, collect_target_entries, contains_piece, ends_with_slash, entry_dto, entry_matches_selection,
    has_key, insert_unique, matches_selection, normalize_entry_chars, normalize_entry_path,
    normalized_entry, remap_entry_path, remapped, target_entries, toc_entry_view,
};
use crate::archive::path_safety::{
    fault_message, fault_of, relative_out, relative_out_path, resolve_safe_extract_path,
    safe_extract_path, PathFault,
};
use crate::archive::hehe_toc::{
    entry_bytes_in, entry_data, entry_fault_text, read_entry_raw, toc_views, EntryFault, TocEntry,
    items_view, magic_bytes, read_entry_spec, read_fault_text, read_toc,
    read_toc_spec, write_archive, written_archive, distinct_entry_paths, window_ok, laid_out,
    ReadFault, TocFault, TocView, METHOD_ZSTD,
};
use crate::archive::seven_zip::{entries_view, ArchiveEntryDto, EntryView};
use crate::codecs::{lossy_string, utf8_lossy};
use crate::error::{
    archive_error, error_message, is_archive_error, is_validation_error, AppError, AppResult,
};
use crate::path::{file_stem, file_stem_of, join, join_of, parent, parent_of};
use crate::ids::{is_stamp, is_v4_text, new_uuid_v4, now_rfc3339, uuid_accepts, uuid_parses};
use crate::text::{
    append_chars, append_str, push_piece, ascii_lower, ascii_lower_of, chars_eq, chars_of, contains_sub,
    contains_sub_of, dec, dec_of, first_index, first_index_of, has_char, has_char_of,
    lemma_index_of_from, lines, lines_of, signed_dec, signed_dec_of, slice_chars, str_eq_chars,
    string_of, strip_prefix, strip_prefix_of, trim, trim_chars, lex_lt, lex_lt_of, lemma_lex_trans,
    lemma_lex_total, lemma_lex_irrefl, lemma_first_two_lines, lemma_trimmed_ends,
    lemma_trim_unchanged, index_of_from, is_ws, strip_cr, trim_start, trim_end,
};
use vstd::slice::slice_to_vec;
use vstd::utf8::encode_utf8;
use vstd::prelude::*;

verus! {

/// The zstd level of the balanced preset.
pub const ZSTD_LEVEL_CREATE: i32 = 12;

/// How entries are compressed.
#[derive(Clone, Copy, Debug, PartialEq, Eq)]
pub struct HeheCompression {
    pub zstd_level: i32,
    pub window_log: Option<u32>,
    pub compress_stl: bool,
}

/// The balanced preset: zstd level 12, default window, meshes compressed too.
pub open spec fn balanced_spec() -> HeheCompression {
    HeheCompression { zstd_level: 12, window_log: None, compress_stl: true }
}

/// The preset that a name selects; any other name selects the balanced one.
pub open spec fn preset_spec(raw: Seq<char>) -> HeheCompression {
    let key = ascii_lower(trim(raw));
    if key == "fast"@ {
        HeheCompression { zstd_level: 3, window_log: None, compress_stl: false }
    } else if key == "ultra"@ {
        HeheCompression { zstd_level: 19, window_log: Some(27), compress_stl: true }
    } else {
        balanced_spec()
    }
}

/// The label written to the metadata: `zstd:<level>`, with `:w<log>` where a
/// window is set.
pub open spec fn label_spec(c: HeheCompression) -> Seq<char> {
    match c.window_log {
        Some(w) => "zstd:"@ + signed_dec(c.zstd_level as int) + ":w"@ + dec(w as nat),
        None => "zstd:"@ + signed_dec(c.zstd_level as int),
    }
}

/// The three presets are told apart by name (case and surrounding blanks
/// ignored): `ultra` alone gives zstd level 19 with a 2^27 window, labelled
/// `zstd:19:w27`; `fast` alone gives level 3 and stores meshes as they are,
/// labelled `zstd:3`; every other name gives the balanced level 12, no window,
/// meshes compressed, labelled `zstd:12`.
pub proof fn lemma_presets_by_name(raw: Seq<char>)
    ensures
        ({
            let c = preset_spec(raw);
            let key = ascii_lower(trim(raw));
            &&& (c.zstd_level == 19) == (key == "ultra"@)
            &&& (c.window_log == Some(27u32)) == (key == "ultra"@)
            &&& (c.window_log is Some) == (key == "ultra"@)
            &&& (c.zstd_level == 3) == (key == "fast"@)
            &&& (!c.compress_stl) == (key == "fast"@)
            &&& (c.zstd_level == 12) == (key != "ultra"@ && key != "fast"@)
            &&& key == "ultra"@ ==> label_spec(c) == "zstd:19:w27"@
            &&& key == "fast"@ ==> label_spec(c) == "zstd:3"@
            &&& (key != "ultra"@ && key != "fast"@) ==> label_spec(c) == "zstd:12"@
        }),
{
    reveal_strlit("fast");
    reveal_strlit("ultra");
    assert("fast"@ != "ultra"@) by {
        assert("fast"@.len() != "ultra"@.len());
    }
    reveal_strlit("zstd:");
    reveal_strlit(":w");
    reveal_strlit("zstd:19:w27");
    reveal_strlit("zstd:3");
    reveal_strlit("zstd:12");
    assert(dec(1) == seq!['1']);
    assert(dec(2) == seq!['2']);
    assert(dec(19) =~= seq!['1', '9']);
    assert(dec(12) =~= seq!['1', '2']);
    assert(dec(27) =~= seq!['2', '7']);
    assert(signed_dec(19) =~= seq!['1', '9']);
    assert(signed_dec(3) =~= seq!['3']);
    assert(signed_dec(12) =~= seq!['1', '2']);
    assert("zstd:"@ + seq!['1', '9'] + ":w"@ + seq!['2', '7'] =~= "zstd:19:w27"@);
    assert("zstd:"@ + seq!['3'] =~= "zstd:3"@);
    assert("zstd:"@ + seq!['1', '2'] =~= "zstd:12"@);
}

impl HeheCompression {
    pub fn balanced() -> (res: Self)
        ensures
            res == balanced_spec(),
    {
        HeheCompression { zstd_level: ZSTD_LEVEL_CREATE, window_log: None, compress_stl: true }
    }

    /// The preset named `raw` (`fast`, `ultra`, anything else balanced), case
    /// and surrounding whitespace ignored.
    pub fn parse_preset(raw: &str) -> (res: Self)
        ensures
            res == preset_spec(raw@),
    {
        let c = chars_of(raw);
        let t = trim_chars(&c);
        let key = ascii_lower_of(&t);
        let fast = chars_of("fast");
        let ultra = chars_of("ultra");
        if chars_eq(&key, &fast) {
            HeheCompression { zstd_level: 3, window_log: None, compress_stl: false }
        } else if chars_eq(&key, &ultra) {
            HeheCompression { zstd_level: 19, window_log: Some(27), compress_stl: true }
        } else {
            Self::balanced()
        }
    }

    pub fn metadata_label(&self) -> (res: String)
        ensures
            res@ == label_spec(*self),
    {
        let mut v: Vec<char> = Vec::new();
        append_str(&mut v, "zstd:");
        let l = signed_dec_of(self.zstd_level as i64);
        append_chars(&mut v, &l);
        match self.window_log {
            Some(w) => {
                append_str(&mut v, ":w");
                let d = dec_of(w as u64);
                append_chars(&mut v, &d);
            },
            None => {},
        }
        string_of(&v)
    }
}

/// What an archive is created with.
#[derive(Clone, Copy, Debug)]
pub struct HeheCreateOptions {
    pub compression: HeheCompression,
    pub convert_images_to_webp: bool,
}

impl HeheCreateOptions {
    /// Options from the values the UI sends: a preset name and the WebP switch,
    /// each optional (balanced, and no conversion, where absent).
    pub fn from_api(preset: Option<&str>, convert_images_to_webp: Option<bool>) -> (res: Self)
        ensures
            res.compression == (match preset {
                Some(p) => preset_spec(p@),
                None => balanced_spec(),
            }),
            res.convert_images_to_webp == (convert_images_to_webp == Some(true)),
    {
        let compression = match preset {
            Some(p) => HeheCompression::parse_preset(p),
            None => HeheCompression::balanced(),
        };
        let convert = match convert_images_to_webp {
            Some(b) => b,
            None => false,
        };
        HeheCreateOptions { compression, convert_images_to_webp: convert }
    }
}

/// What creating an archive reports.
#[derive(Debug, Clone)]
pub struct HeheCreateResult {
    pub archive_id: String,
    pub entry_count: u32,
    pub total_bytes: u64,
}


/// The keys the library writes itself, which existing metadata cannot keep.
pub open spec fn is_system_key(k: Seq<char>) -> bool {
    ||| k == "FormatVersion"@
    ||| k == "ArchiveId"@
    ||| k == "archive_id"@
    ||| k == "Created"@
    ||| k == "Compression"@
    ||| k == "OriginalSources"@
}

fn is_system_key_of(k: &Vec<char>) -> (res: bool)
    ensures
        res == is_system_key(k@),
{
    str_eq_chars("FormatVersion", k) || str_eq_chars("ArchiveId", k) || str_eq_chars(
        "archive_id",
        k,
    ) || str_eq_chars("Created", k) || str_eq_chars("Compression", k) || str_eq_chars(
        "OriginalSources",
        k,
    )
}

/// A line of existing metadata that is kept.
pub enum UserLine {
    Field(Seq<char>, Seq<char>),
    Verbatim(Seq<char>),
}

/// What becomes of a line of existing metadata: dropped where blank or a
/// system key; kept as written where it has no `:`, a link or a ` | `; else
/// kept as `key: value` with both parts trimmed.
pub open spec fn user_line(raw: Seq<char>) -> Option<UserLine> {
    let line = trim(raw);
    if line.len() == 0 {
        None
    } else if !has_char(line, ':') || contains_sub(line, "(http"@) || contains_sub(line, " | "@) {
        Some(UserLine::Verbatim(line))
    } else {
        match first_index(line, ':') {
            Some(k) => if is_system_key(trim(line.take(k))) {
                None
            } else {
                Some(UserLine::Field(trim(line.take(k)), trim(line.skip(k + 1))))
            },
            None => Some(UserLine::Verbatim(line)),
        }
    }
}

pub open spec fn render_line(u: UserLine) -> Seq<char> {
    match u {
        UserLine::Field(k, v) => k + ": "@ + v + "\n"@,
        UserLine::Verbatim(l) => l + "\n"@,
    }
}

pub open spec fn render_lines(us: Seq<UserLine>) -> Seq<char>
    decreases us.len(),
{
    if us.len() == 0 {
        Seq::empty()
    } else {
        render_lines(us.drop_last()) + render_line(us.last())
    }
}

/// The kept lines of existing metadata, in order.
pub open spec fn user_lines(raw: Seq<char>) -> Seq<UserLine> {
    lines(without_bom(raw)).filter_map(|l: Seq<char>| user_line(l))
}

/// The metadata an archive is written with.
pub open spec fn merged_metadata(
    existing: Option<Seq<char>>,
    archive_id: Seq<char>,
    sources: Seq<Seq<char>>,
    label: Seq<char>,
    created: Seq<char>,
) -> Seq<char> {
    let head = "FormatVersion: 1\n"@ + "ArchiveId: "@ + archive_id + "\n"@ + "Created: "@ + created
        + "\n"@ + "Compression: "@ + label + "\n"@;
    let src = match sources_line(sources) {
        Some(l) => "OriginalSources: "@ + l + "\n"@,
        None => Seq::empty(),
    };
    let tail = match existing {
        None => "Кат: Оригинальный | Cat: Original\nName:\nTags:\n"@,
        Some(raw) => render_lines(user_lines(raw)),
    };
    head + src + tail
}

/// The rendering of a line of existing metadata, where it is kept.
fn user_line_of(raw: &Vec<char>) -> (res: Option<Vec<char>>)
    ensures
        match res {
            Some(t) => user_line(raw@) matches Some(u) && t@ == render_line(u),
            None => user_line(raw@) is None,
        },
{
    let line = trim_chars(raw);
    if line.len() == 0 {
        return None;
    }
    let link = chars_of("(http");
    let bar = chars_of(" | ");
    if !has_char_of(&line, ':') || contains_sub_of(&line, &link) || contains_sub_of(&line, &bar) {
        let mut t = slice_chars(&line, 0, line.len());
        append_str(&mut t, "\n");
        assert(line@.subrange(0, line@.len() as int) =~= line@);
        return Some(t);
    }
    proof {
        lemma_index_of_from(line@, ':', 0);
    }
    match first_index_of(&line, ':') {
        Some(k) => {
            let key = trim_chars(&slice_chars(&line, 0, k));
            assert(line@.subrange(0, k as int) =~= line@.take(k as int));
            if is_system_key_of(&key) {
                return None;
            }
            let value = trim_chars(&slice_chars(&line, k + 1, line.len()));
            assert(line@.subrange(k + 1, line@.len() as int) =~= line@.skip(k + 1));
            let mut t = key;
            append_str(&mut t, ": ");
            append_chars(&mut t, &value);
            append_str(&mut t, "\n");
            Some(t)
        },
        None => {
            let mut t = slice_chars(&line, 0, line.len());
            append_str(&mut t, "\n");
            assert(line@.subrange(0, line@.len() as int) =~= line@);
            Some(t)
        },
    }
}

/// The metadata for an archive whose creation time is `created`: the system
/// keys first, then the sources, then what is kept of `existing` (or a
/// template where there was none).
pub fn merge_metadata_at(
    existing: Option<&str>,
    archive_id: &str,
    sources: &[String],
    compression_label: &str,
    created: &str,
) -> (res: String)
    ensures
        res@ == merged_metadata(
            opt_str(existing),
            archive_id@,
            strings_view(sources@),
            compression_label@,
            created@,
        ),
{
    let mut out: Vec<char> = Vec::new();
    append_str(&mut out, "FormatVersion: 1\n");
    append_str(&mut out, "ArchiveId: ");
    append_str(&mut out, archive_id);
    append_str(&mut out, "\n");
    append_str(&mut out, "Created: ");
    append_str(&mut out, created);
    append_str(&mut out, "\n");
    append_str(&mut out, "Compression: ");
    append_str(&mut out, compression_label);
    append_str(&mut out, "\n");
    match format_original_sources(sources) {
        Some(l) => {
            append_str(&mut out, "OriginalSources: ");
            append_str(&mut out, l.as_str());
            append_str(&mut out, "\n");
        },
        None => {},
    }
    match existing {
        None => {
            append_str(&mut out, "Кат: Оригинальный | Cat: Original\nName:\nTags:\n");
        },
        Some(raw) => {
            let text = strip_utf8_bom(&chars_of(raw));
            let ls = lines_of(&text);
            let ghost dv = ls.deep_view();
            let mut i: usize = 0;
            let ghost base = out@;
            assert(dv.take(0) =~= Seq::<Seq<char>>::empty());
            assert(out@ =~= base + render_lines(dv.take(0).filter_map(|l: Seq<char>| user_line(l))));
            while i < ls.len()
                invariant
                    i <= ls.len(),
                    dv == ls.deep_view(),
                    dv == lines(without_bom(raw@)),
                    out@ == base + render_lines(dv.take(i as int).filter_map(|l: Seq<char>| user_line(l))),
                decreases ls.len() - i,
            {
                assert(dv.take(i + 1).drop_last() =~= dv.take(i as int));
                assert(dv.take(i + 1).last() == ls@[i as int]@);
                match user_line_of(&ls[i]) {
                    Some(t) => {
                        let ghost prev = dv.take(i as int).filter_map(|l: Seq<char>| user_line(l));
                        append_chars(&mut out, &t);
                        assert(dv.take(i + 1).filter_map(|l: Seq<char>| user_line(l)) =~= prev.push(user_line(ls@[i as int]@).unwrap()));
                        assert(prev.push(user_line(ls@[i as int]@).unwrap()).drop_last() =~= prev);
                    },
                    None => {},
                }
                i = i + 1;
            }
            assert(dv.take(ls.len() as int) =~= dv);
        },
    }
    string_of(&out)
}

/// The metadata for a new archive, created now.
pub fn merge_metadata_hehestl(
    existing: Option<&str>,
    archive_id: &str,
    sources: &[String],
    compression_label: &str,
) -> (res: String)
    ensures
        exists|created: Seq<char>|
            is_stamp(created) && res@ == #[trigger] merged_metadata(
                opt_str(existing),
                archive_id@,
                strings_view(sources@),
                compression_label@,
                created,
            ),
{
    let created = now_rfc3339();
    merge_metadata_at(existing, archive_id, sources, compression_label, created.as_str())
}

/// The metadata of a new archive that nothing was written to before.
pub fn default_metadata_hehestl(archive_id: &str) -> (res: String)
    ensures
        exists|created: Seq<char>|
            is_stamp(created) && res@ == #[trigger] merged_metadata(
                None,
                archive_id@,
                Seq::empty(),
                label_spec(balanced_spec()),
                created,
            ),
        (uuid_accepts(archive_id@) && archive_id@.len() > 0 && !has_char(archive_id@, '\n') && trim(
            archive_id@,
        ) == archive_id@) ==> archive_id_of(res@) == Some(archive_id@),
{
    let label = HeheCompression::balanced().metadata_label();
    let sources: Vec<String> = Vec::new();
    let res = merge_metadata_hehestl(None, archive_id, sources.as_slice(), label.as_str());
    assert(strings_view(sources@) =~= Seq::<Seq<char>>::empty());
    proof {
        if uuid_accepts(archive_id@) && archive_id@.len() > 0 && !has_char(archive_id@, '\n') && trim(
            archive_id@,
        ) == archive_id@ {
            let created = choose|created: Seq<char>|
                is_stamp(created) && res@ == #[trigger] merged_metadata(
                    None,
                    archive_id@,
                    Seq::empty(),
                    label_spec(balanced_spec()),
                    created,
                );
            lemma_metadata_names_archive_id(None, archive_id@, Seq::empty(), label_spec(balanced_spec()), created);
        }
    }
    res
}

/// The archive id that a metadata line names, where it is a UUID.
pub open spec fn id_in_line(raw: Seq<char>) -> Option<Seq<char>> {
    let line = trim(raw);
    let rest = match strip_prefix(line, "ArchiveId:"@) {
        Some(r) => Some(r),
        None => strip_prefix(line, "archive_id:"@),
    };
    match rest {
        Some(r) => if uuid_accepts(trim(r)) {
            Some(trim(r))
        } else {
            None
        },
        None => None,
    }
}

/// The first id that the lines name.
pub open spec fn first_id(ls: Seq<Seq<char>>) -> Option<Seq<char>>
    decreases ls.len(),
{
    if ls.len() == 0 {
        None
    } else {
        match id_in_line(ls[0]) {
            Some(x) => Some(x),
            None => first_id(ls.drop_first()),
        }
    }
}

/// The archive id that metadata names: the first `ArchiveId:` (or
/// `archive_id:`) line whose value is a UUID.
pub open spec fn archive_id_of(content: Seq<char>) -> Option<Seq<char>> {
    first_id(lines(without_bom(content)))
}

fn id_in_line_of(raw: &Vec<char>) -> (res: Option<Vec<char>>)
    ensures
        match res {
            Some(v) => id_in_line(raw@) == Some(v@),
            None => id_in_line(raw@) is None,
        },
{
    let line = trim_chars(raw);
    let p1 = chars_of("ArchiveId:");
    let p2 = chars_of("archive_id:");
    let rest = match strip_prefix_of(&line, &p1) {
        Some(r) => Some(r),
        None => strip_prefix_of(&line, &p2),
    };
    match rest {
        Some(r) => {
            let id = trim_chars(&r);
            let s = string_of(&id);
            if uuid_parses(s.as_str()) {
                Some(id)
            } else {
                None
            }
        },
        None => None,
    }
}



/// Whether the paths of a run of items strictly increase.
pub open spec fn sorted_by_path(items: Seq<(Seq<char>, Seq<u8>)>) -> bool {
    forall|i: int, j: int|
        0 <= i < j < items.len() ==> lex_lt(#[trigger] items[i].0, #[trigger] items[j].0)
}

/// Whether `k` is the path of an item of `items` from index `lo` on.
pub open spec fn path_among(items: Seq<(String, Vec<u8>)>, lo: int, k: Seq<char>) -> bool {
    exists|j: int| lo <= j < items.len() && #[trigger] items[j].0@ == k
}

/// Inserts `item` at its place in a run sorted by path that does not hold its path.
fn insert_sorted(out: &mut Vec<(String, Vec<u8>)>, item: (String, Vec<u8>))
    requires
        sorted_by_path(items_view(old(out)@)),
        forall|q: int| 0 <= q < old(out)@.len() ==> #[trigger] old(out)@[q].0@ != item.0@,
    ensures
        sorted_by_path(items_view(final(out)@)),
        exists|pos: int| 0 <= pos <= old(out)@.len() && final(out)@ == old(out)@.insert(pos, item),
{
    let ghost ov = items_view(out@);
    let key = chars_of(item.0.as_str());
    let mut pos: usize = 0;
    while pos < out.len() && !lex_lt_of(&key, &chars_of(out[pos].0.as_str()))
        invariant
            pos <= out.len(),
            ov == items_view(out@),
            key@ == item.0@,
            forall|q: int| 0 <= q < pos ==> !lex_lt(key@, #[trigger] ov[q].0),
        decreases out.len() - pos,
    {
        pos = pos + 1;
    }
    let ghost iv = (item.0@, item.1@);
    out.insert(pos, item);
    proof {
        let nv = items_view(out@);
        assert(nv =~= ov.insert(pos as int, iv));
        assert forall|q: int| 0 <= q < pos implies lex_lt(#[trigger] ov[q].0, key@) by {
            lemma_lex_total(ov[q].0, key@);
            assert(ov[q].0 == old(out)@[q].0@);
        }
        if pos < ov.len() {
            assert(lex_lt(key@, ov[pos as int].0));
            assert forall|q: int| pos < q < ov.len() implies lex_lt(key@, #[trigger] ov[q].0) by {
                lemma_lex_trans(key@, ov[pos as int].0, ov[q].0);
            }
        }
        assert forall|a: int, b: int| 0 <= a < b < nv.len() implies lex_lt(
            #[trigger] nv[a].0,
            #[trigger] nv[b].0,
        ) by {
            if b < pos {
            } else if b == pos {
                assert(nv[a] == ov[a]);
            } else if a < pos {
                assert(nv[b] == ov[b - 1]);
                if pos < ov.len() {
                    lemma_lex_trans(ov[a].0, key@, ov[b - 1].0);
                }
            } else if a == pos {
                assert(nv[b] == ov[b - 1]);
            } else {
                assert(nv[a] == ov[a - 1]);
                assert(nv[b] == ov[b - 1]);
            }
        }
    }
}

/// The items of a new archive: the metadata entry first, then the files
/// sorted by path.
pub fn build_create_items(files: Vec<(String, Vec<u8>)>, metadata: String) -> (res: Vec<
    (String, Vec<u8>),
>)
    requires
        keys_distinct(files@),
    ensures
        res@.len() == files@.len() + 1,
        items_view(res@)[0] == (metadata_path(), encode_utf8(metadata@)),
        sorted_by_path(items_view(res@).skip(1)),
        forall|j: int|
            0 <= j < files@.len() ==> items_view(res@).skip(1).contains(
                #[trigger] items_view(files@)[j],
            ),
        forall|q: int| 1 <= q < res@.len() ==> path_among(files@, 0, #[trigger] res@[q].0@),
{
    let ghost orig = files@;
    let ghost ov = items_view(orig);
    let mut files = files;
    let mut out: Vec<(String, Vec<u8>)> = Vec::new();
    assert(items_view(out@) =~= Seq::<(Seq<char>, Seq<u8>)>::empty());
    while files.len() > 0
        invariant
            files@ == orig.take(files@.len() as int),
            files@.len() <= orig.len(),
            keys_distinct(orig),
            ov == items_view(orig),
            out@.len() == orig.len() - files@.len(),
            sorted_by_path(items_view(out@)),
            forall|j: int|
                files@.len() <= j < orig.len() ==> items_view(out@).contains(#[trigger] ov[j]),
            forall|q: int| 0 <= q < out@.len() ==> path_among(orig, files@.len() as int, #[trigger] out@[q].0@),
        decreases files@.len(),
    {
        let ghost n = files@.len() - 1;
        let item = files.pop().unwrap();
        assert(item == orig[n]);
        assert(files@ =~= orig.take(n));
        proof {
            assert forall|q: int| 0 <= q < out@.len() implies #[trigger] out@[q].0@ != item.0@ by {
                assert(path_among(orig, n + 1, out@[q].0@));
                let j = choose|j: int| n + 1 <= j < orig.len() && #[trigger] orig[j].0@ == out@[q].0@;
                assert(orig[n].0@ != orig[j].0@);
            }
        }
        let ghost before = out@;
        insert_sorted(&mut out, item);
        proof {
            let pos = choose|pos: int| 0 <= pos <= before.len() && out@ == before.insert(pos, item);
            assert forall|j: int| n <= j < orig.len() implies items_view(out@).contains(#[trigger] ov[j]) by {
                if j == n {
                    assert(items_view(out@)[pos] == ov[j]);
                } else {
                    let k = choose|k: int| 0 <= k < items_view(before).len() && items_view(before)[k] == ov[j];
                    if k < pos {
                        assert(items_view(out@)[k] == ov[j]);
                    } else {
                        assert(items_view(out@)[k + 1] == ov[j]);
                    }
                }
            }
            assert forall|q: int| 0 <= q < out@.len() implies path_among(orig, n, #[trigger] out@[q].0@) by {
                if q == pos {
                    assert(out@[q].0@ == orig[n].0@);
                } else if q < pos {
                    assert(out@[q] == before[q]);
                    assert(path_among(orig, n + 1, before[q].0@));
                    let j = choose|j: int| n + 1 <= j < orig.len() && #[trigger] orig[j].0@ == before[q].0@;
                    assert(orig[j].0@ == out@[q].0@);
                } else {
                    assert(out@[q] == before[q - 1]);
                    assert(path_among(orig, n + 1, before[q - 1].0@));
                    let j = choose|j: int| n + 1 <= j < orig.len() && #[trigger] orig[j].0@ == before[q - 1].0@;
                    assert(orig[j].0@ == out@[q].0@);
                }
            }
        }
    }
    let meta_bytes = slice_to_vec(metadata.as_str().as_bytes());
    let mut items: Vec<(String, Vec<u8>)> = Vec::new();
    items.push((String::from_str("metadata.hehestl"), meta_bytes));
    let ghost sorted = out@;
    items.append(&mut out);
    proof {
        assert(items@ =~= seq![items@[0]] + sorted);
        assert(items_view(items@).skip(1) =~= items_view(sorted));
        assert forall|q: int| 1 <= q < items@.len() implies path_among(orig, 0, #[trigger] items@[q].0@) by {
            assert(items@[q] == sorted[q - 1]);
            assert(path_among(orig, 0, sorted[q - 1].0@));
        }
    }
    items
}

/// The number of items and the sum of their sizes (held at `u64::MAX`).
pub open spec fn total_size(items: Seq<(Seq<char>, Seq<u8>)>) -> nat
    decreases items.len(),
{
    if items.len() == 0 {
        0
    } else {
        total_size(items.drop_last()) + items.last().1.len()
    }
}

pub fn stats_from_items(items: &Vec<(String, Vec<u8>)>) -> (res: (u32, u64))
    ensures
        res.0 == items@.len() as u32,
        res.1 == if total_size(items_view(items@)) > u64::MAX {
            u64::MAX as nat
        } else {
            total_size(items_view(items@))
        },
{
    let ghost iv = items_view(items@);
    let mut total: u64 = 0;
    let mut capped = false;
    let mut i: usize = 0;
    assert(iv.take(0) =~= Seq::<(Seq<char>, Seq<u8>)>::empty());
    while i < items.len()
        invariant
            i <= items.len(),
            iv == items_view(items@),
            capped ==> total == u64::MAX && total_size(iv.take(i as int)) > u64::MAX,
            !capped ==> total == total_size(iv.take(i as int)),
        decreases items.len() - i,
    {
        assert(iv.take(i + 1).drop_last() =~= iv.take(i as int));
        assert(iv.take(i + 1).last().1.len() == items@[i as int].1@.len());
        let n = items[i].1.len() as u64;
        if !capped {
            if total > u64::MAX - n {
                total = u64::MAX;
                capped = true;
            } else {
                total = total + n;
            }
        }
        i = i + 1;
    }
    assert(iv.take(items.len() as int) =~= iv);
    (items.len() as u32, total)
}


/// The TOC of an archive, empty where it cannot be read.
pub open spec fn toc_entries_of(b: Seq<u8>) -> Seq<TocView> {
    match read_toc_spec(b) {
        Ok(es) => es,
        Err(_) => Seq::empty(),
    }
}

/// The listing of a TOC, entry by entry.
pub open spec fn listing(es: Seq<TocView>) -> Seq<EntryView> {
    es.map_values(|e: TocView| toc_entry_view(e.path, e.raw_size, e.comp_size))
}

/// Whether the first bytes of a file are the HEHE magic.
pub open spec fn is_hehe_head(head: Seq<u8>) -> bool {
    head.len() >= 4 && head.take(4) == magic_bytes()
}

/// The text of the metadata entry of an archive, where it has one.
pub open spec fn metadata_of(b: Seq<u8>) -> Option<Seq<char>> {
    if !is_hehe_head(b) {
        None
    } else {
        match read_entry_spec(b, metadata_path()) {
            Ok(raw) => Some(utf8_lossy(raw)),
            Err(_) => None,
        }
    }
}

/// What a pagination window of `limit` entries from `offset` covers of `total`.
pub open spec fn page_end(offset: int, limit: int, total: int) -> int {
    if offset + limit > usize::MAX {
        if usize::MAX < total {
            usize::MAX as int
        } else {
            total
        }
    } else if offset + limit < total {
        offset + limit
    } else {
        total
    }
}

/// The integrity check after writing: each item reads back with its size,
/// and with its first 64 bytes.
pub open spec fn reads_back(b: Seq<u8>, items: Seq<(Seq<char>, Seq<u8>)>) -> bool {
    forall|k: int| 0 <= k < items.len() ==> #[trigger] item_reads_back(b, items[k])
}

/// Whether one item reads back with its size and its first 64 bytes.
pub open spec fn item_reads_back(b: Seq<u8>, item: (Seq<char>, Seq<u8>)) -> bool {
    match read_entry_spec(b, item.0) {
        Ok(got) => got.len() == item.1.len() && got.take(head_len(got.len() as int)) == item.1.take(
            head_len(got.len() as int),
        ),
        Err(_) => false,
    }
}

pub open spec fn head_len(n: int) -> int {
    if n < 64 {
        n
    } else {
        64
    }
}

/// Where a new archive is written before it takes its final name: the same
/// folder, the stem with `.hehe.tmp`.
pub open spec fn tmp_path(output: Seq<char>) -> Seq<char> {
    let par = match parent(output) {
        Some(p) => p,
        None => seq!['.'],
    };
    let stem = match file_stem(output) {
        Some(s) => s,
        None => "archive"@,
    };
    join(par, stem + ".hehe.tmp"@)
}

pub fn tmp_path_for(output_path: &str) -> (res: String)
    ensures
        res@ == tmp_path(output_path@),
{
    let o = chars_of(output_path);
    let par = match parent_of(&o) {
        Some(p) => p,
        None => {
            let mut d: Vec<char> = Vec::new();
            d.push('.');
            assert(d@ =~= seq!['.']);
            d
        },
    };
    let mut name = match file_stem_of(&o) {
        Some(s) => s,
        None => chars_of("archive"),
    };
    append_str(&mut name, ".hehe.tmp");
    let j = join_of(&par, &name);
    string_of(&j)
}

/// Whether the first `h` bytes of `a` and `b` agree.
fn same_prefix(a: &Vec<u8>, b: &Vec<u8>, h: usize) -> (res: bool)
    requires
        h <= a@.len(),
        h <= b@.len(),
    ensures
        res == (a@.take(h as int) == b@.take(h as int)),
{
    let mut q: usize = 0;
    while q < h
        invariant
            q <= h <= a@.len(),
            h <= b@.len(),
            forall|r: int| 0 <= r < q ==> a@[r] == b@[r],
        decreases h - q,
    {
        if a[q] != b[q] {
            assert(a@.take(h as int)[q as int] != b@.take(h as int)[q as int]);
            return false;
        }
        q = q + 1;
    }
    assert(a@.take(h as int) =~= b@.take(h as int));
    true
}

/// The HEHE archive format, over the bytes of an archive.
pub struct HeheFormat;

impl HeheFormat {
    /// Whether the first bytes of a file (at least four, where the file has
    /// them) are the HEHE magic.
    pub fn probe(head: &[u8]) -> (res: bool)
        ensures
            res == is_hehe_head(head@),
    {
        if head.len() < 4 {
            return false;
        }
        let r = head[0] == 72u8 && head[1] == 69u8 && head[2] == 72u8 && head[3] == 69u8;
        assert(r == (head@.take(4) =~= magic_bytes()));
        r
    }

    /// The entries of an archive, in TOC order.
    pub fn list(archive: &[u8]) -> (res: AppResult<Vec<ArchiveEntryDto>>)
        ensures
            match res {
                Ok(v) => read_toc_spec(archive@) matches Ok(es) && entries_view(v@) == listing(es),
                Err(e) => read_toc_spec(archive@) is Err && e is Archive,
            },
    {
        let toc = match read_toc(archive) {
            Ok(t) => t,
            Err(e) => return Err(e),
        };
        let (v, _) = Self::page_of(&toc, 0, usize::MAX);
        assert(crate::archive::hehe_toc::toc_views(toc@).subrange(0, toc@.len() as int)
            =~= crate::archive::hehe_toc::toc_views(toc@));
        Ok(v)
    }

    fn page_of(toc: &Vec<crate::archive::hehe_toc::TocEntry>, offset: usize, limit: usize) -> (res: (
        Vec<ArchiveEntryDto>,
        usize,
    ))
        requires
            offset <= toc@.len(),
        ensures
            res.1 == toc@.len(),
            entries_view(res.0@) == listing(
                crate::archive::hehe_toc::toc_views(toc@).subrange(
                    offset as int,
                    page_end(offset as int, limit as int, toc@.len() as int),
                ),
            ),
    {
        let ghost tv = crate::archive::hehe_toc::toc_views(toc@);
        let total = toc.len();
        let sum = offset.saturating_add(limit);
        let end = if sum < total {
            sum
        } else {
            total
        };
        let mut out: Vec<ArchiveEntryDto> = Vec::new();
        let mut i: usize = offset;
        assert(entries_view(out@) =~= listing(tv.subrange(offset as int, offset as int)));
        while i < end
            invariant
                offset <= i <= end <= toc@.len(),
                tv == crate::archive::hehe_toc::toc_views(toc@),
                entries_view(out@) == listing(tv.subrange(offset as int, i as int)),
            decreases end - i,
        {
            let e = &toc[i];
            let d = entry_dto(e.path.as_str(), e.raw_size, e.comp_size);
            let ghost old_out = out@;
            out.push(d);
            assert(entries_view(out@) =~= entries_view(old_out).push(d@));
            assert(listing(tv.subrange(offset as int, i + 1)) =~= listing(
                tv.subrange(offset as int, i as int),
            ).push(d@));
            i = i + 1;
        }
        (out, total)
    }

    /// A window of the entries of an archive: up to `limit` entries from
    /// `offset`, and the number of entries in all.
    pub fn list_paginated(archive: &[u8], offset: usize, limit: usize) -> (res: AppResult<
        (Vec<ArchiveEntryDto>, usize),
    >)
        requires
            read_toc_spec(archive@) matches Ok(es) ==> offset <= es.len(),
        ensures
            match res {
                Ok((v, total)) => read_toc_spec(archive@) matches Ok(es) && total == es.len()
                    && entries_view(v@) == listing(
                    es.subrange(offset as int, page_end(offset as int, limit as int, es.len() as int)),
                ),
                Err(e) => read_toc_spec(archive@) is Err && e is Archive,
            },
    {
        let toc = match read_toc(archive) {
            Ok(t) => t,
            Err(e) => return Err(e),
        };
        Ok(Self::page_of(&toc, offset, limit))
    }

    /// The raw data of the entry `entry_path` (compared normalized).
    pub fn read_entry_bytes(archive: &[u8], entry_path: &str) -> (res: AppResult<Vec<u8>>)
        ensures
            match res {
                Ok(v) => read_entry_spec(archive@, entry_path@) == Ok::<Seq<u8>, ReadFault>(v@),
                Err(e) => read_entry_spec(archive@, entry_path@) matches Err(f) && e is Archive && (
                read_fault_text(archive@, entry_path@, f) matches Some(t) ==> is_archive_error(
                    e,
                    t,
                )),
            },
    {
        let toc = match read_toc(archive) {
            Ok(t) => t,
            Err(e) => return Err(e),
        };
        entry_bytes_in(archive, &toc, entry_path)
    }

    /// The text of the metadata entry, where the archive is a HEHE archive
    /// that has one.
    pub fn read_metadata(archive: &[u8]) -> (res: Option<String>)
        ensures
            match res {
                Some(s) => metadata_of(archive@) == Some(s@),
                None => metadata_of(archive@) is None,
            },
    {
        if !Self::probe(archive) {
            return None;
        }
        match Self::read_entry_bytes(archive, "metadata.hehestl") {
            Ok(b) => Some(lossy_string(b.as_slice())),
            Err(_) => None,
        }
    }

    /// The archive id that metadata names.
    pub fn parse_archive_id_from_metadata(content: &str) -> (res: Option<String>)
        ensures
            match res {
                Some(s) => archive_id_of(content@) == Some(s@),
                None => archive_id_of(content@) is None,
            },
    {
        let text = strip_utf8_bom(&chars_of(content));
        let ls = lines_of(&text);
        let ghost dv = ls.deep_view();
        let mut i: usize = 0;
        assert(dv.skip(0) =~= dv);
        while i < ls.len()
            invariant
                i <= ls.len(),
                dv == ls.deep_view(),
                dv == lines(without_bom(content@)),
                archive_id_of(content@) == first_id(dv.skip(i as int)),
            decreases ls.len() - i,
        {
            assert(dv.skip(i as int)[0] == ls@[i as int]@);
            assert(dv.skip(i as int).drop_first() =~= dv.skip(i + 1));
            match id_in_line_of(&ls[i]) {
                Some(id) => {
                    return Some(string_of(&id));
                },
                None => {},
            }
            i = i + 1;
        }
        None
    }

    /// The bytes of an archive of `items`, in order (see `hehe_toc::write_archive`).
    pub fn write_archive(items: &Vec<(String, Vec<u8>)>, default_method: u8, compression: HeheCompression) -> (res:
        AppResult<Vec<u8>>)
        ensures
            match res {
                Ok(b) => {
                    &&& written_archive(items_view(items@), default_method, compression) == Some(b@)
                    &&& (window_ok(compression) && items.len() <= u32::MAX && distinct_entry_paths(
                        items_view(items@),
                    )) ==> forall|k: int|
                        0 <= k < items.len() ==> read_entry_spec(b@, #[trigger] items@[k].0@)
                            == Ok::<Seq<u8>, ReadFault>(items@[k].1@)
                    &&& (window_ok(compression) && items.len() <= u32::MAX && distinct_entry_paths(
                        items_view(items@),
                    )) ==> forall|q: Seq<char>|
                        #![trigger read_entry_spec(b@, q)]
                        (forall|k: int|
                            0 <= k < items.len() ==> normalized_entry(#[trigger] items@[k].0@) != normalized_entry(q))
                            ==> read_entry_spec(b@, q) == Err::<Seq<u8>, ReadFault>(ReadFault::NotFound)
                },
                Err(e) => written_archive(items_view(items@), default_method, compression) is None
                    && e is Archive,
            },
    {
        write_archive(items, default_method, compression)
    }

    /// The check a newly written archive passes before it takes its final
    /// name: each item reads back from `archive` (the written file, read
    /// again), its checksum matching on the way, with its size and its first
    /// 64 bytes.
    pub fn verify_archive_entries(archive: &[u8], expected: &Vec<(String, Vec<u8>)>) -> (res:
        AppResult<()>)
        ensures
            res is Ok <==> reads_back(archive@, items_view(expected@)),
            res matches Err(e) ==> e is Archive,
    {
        let ghost iv = items_view(expected@);
        let mut k: usize = 0;
        while k < expected.len()
            invariant
                k <= expected.len(),
                iv == items_view(expected@),
                forall|j: int| 0 <= j < k ==> #[trigger] item_reads_back(archive@, iv[j]),
            decreases expected.len() - k,
        {
            let path = &expected[k].0;
            let raw = &expected[k].1;
            assert(iv[k as int] == (path@, raw@));
            let p = chars_of(path.as_str());
            let got = match Self::read_entry_bytes(archive, path.as_str()) {
                Ok(g) => g,
                Err(e) => {
                    assert(!item_reads_back(archive@, iv[k as int]));
                    let mut m = p;
                    append_str(&mut m, "' — ");
                    let msg = e.message();
                    append_str(&mut m, msg.as_str());
                    return Err(archive_error("Проверка целостности не пройдена: entry '", &m));
                },
            };
            if got.len() != raw.len() {
                assert(!item_reads_back(archive@, iv[k as int]));
                let mut m = p;
                append_str(&mut m, "' — неверный размер");
                return Err(archive_error("Проверка целостности не пройдена: entry '", &m));
            }
            let h: usize = if raw.len() < 64 {
                raw.len()
            } else {
                64
            };
            if !same_prefix(&got, raw, h) {
                assert(!item_reads_back(archive@, iv[k as int]));
                let mut m = p;
                append_str(&mut m, "' — неверные данные");
                return Err(archive_error("Проверка целостности не пройдена: entry '", &m));
            }
            k = k + 1;
        }
        Ok(())
    }
}


/// What extracting one entry comes to.
pub enum Outcome {
    Ignored,
    PathRefused(PathFault),
    Unreadable(EntryFault),
    Written(Seq<char>, Seq<u8>),
}

/// What extracting entry `e` of the archive `b` under the root `root` comes
/// to: folders are passed over; an entry is refused where its output path is
/// unsafe, left out where its data cannot be read, else written.
pub open spec fn outcome(b: Seq<u8>, root: Seq<char>, e: TocView, preserve: bool) -> Outcome {
    if ends_with_slash(e.path) {
        Outcome::Ignored
    } else {
        match safe_extract_path(root, relative_out(e.path, preserve)) {
            Err(f) => Outcome::PathRefused(f),
            Ok(out) => match entry_data(b, e) {
                Err(d) => Outcome::Unreadable(d),
                Ok(raw) => Outcome::Written(out, raw),
            },
        }
    }
}

/// The files an extraction writes, with their contents, in order.
pub open spec fn plan_files(b: Seq<u8>, root: Seq<char>, ts: Seq<TocView>, preserve: bool) -> Seq<
    (Seq<char>, Seq<u8>),
>
    decreases ts.len(),
{
    if ts.len() == 0 {
        Seq::empty()
    } else {
        let r = plan_files(b, root, ts.drop_last(), preserve);
        match outcome(b, root, ts.last(), preserve) {
            Outcome::Written(o, d) => r.push((o, d)),
            _ => r,
        }
    }
}

/// The message of an unreadable entry, where the library writes it.
pub open spec fn unreadable_message(d: EntryFault, e: TocView) -> Option<Seq<char>> {
    match entry_fault_text(d, e) {
        Some(t) => Some("Ошибка архива: "@ + t),
        None => None,
    }
}

/// The entries an extraction leaves out, in order, each with its reason where
/// the library writes it.
pub open spec fn plan_skips(b: Seq<u8>, root: Seq<char>, ts: Seq<TocView>, preserve: bool) -> Seq<
    (Seq<char>, Option<Seq<char>>),
>
    decreases ts.len(),
{
    if ts.len() == 0 {
        Seq::empty()
    } else {
        let r = plan_skips(b, root, ts.drop_last(), preserve);
        let e = ts.last();
        match outcome(b, root, e, preserve) {
            Outcome::PathRefused(f) => r.push((e.path, Some(fault_message(f)))),
            Outcome::Unreadable(d) => r.push((e.path, unreadable_message(d, e))),
            _ => r,
        }
    }
}

/// Whether the skipped entries are those the plan expects, with the reasons it states.
pub open spec fn skips_match(got: Seq<(Seq<char>, Seq<char>)>, want: Seq<(Seq<char>, Option<Seq<char>>)>) -> bool {
    &&& got.len() == want.len()
    &&& forall|k: int|
        0 <= k < got.len() ==> (#[trigger] got[k]).0 == want[k].0 && (want[k].1 matches Some(r)
            ==> got[k].1 == r)
}

/// How many of the entries `ts` are files (not folders).
pub open spec fn file_count(ts: Seq<TocView>) -> nat
    decreases ts.len(),
{
    if ts.len() == 0 {
        0
    } else if ends_with_slash(ts.last().path) {
        file_count(ts.drop_last())
    } else {
        file_count(ts.drop_last()) + 1
    }
}

/// Every file entry an extraction considers is either written or left out,
/// never both and never neither: the files written and the entries left out
/// together are as many as the file entries.
pub proof fn lemma_each_file_written_or_skipped(b: Seq<u8>, root: Seq<char>, ts: Seq<TocView>, preserve: bool)
    ensures
        plan_files(b, root, ts, preserve).len() + plan_skips(b, root, ts, preserve).len() == file_count(ts),
    decreases ts.len(),
{
    if ts.len() > 0 {
        lemma_each_file_written_or_skipped(b, root, ts.drop_last(), preserve);
    }
}

/// The requested paths normalized, each kept once, in first-seen order.
pub open spec fn dedup_norm(entries: Seq<Seq<char>>) -> Seq<Seq<char>>
    decreases entries.len(),
{
    if entries.len() == 0 {
        Seq::empty()
    } else {
        let r = dedup_norm(entries.drop_last());
        let n = normalized_entry(entries.last());
        if r.contains(n) {
            r
        } else {
            r.push(n)
        }
    }
}

/// The entries an extraction of `entries` considers: all of them where none
/// are named.
pub open spec fn extraction_targets(es: Seq<TocView>, entries: Seq<Seq<char>>) -> Seq<TocView> {
    if entries.len() == 0 {
        es
    } else {
        target_entries(es, dedup_norm(entries))
    }
}

/// What an extraction writes and what it leaves out.
pub struct ExtractPlan {
    pub files: Vec<(String, Vec<u8>)>,
    pub skipped: Vec<SkippedEntry>,
}

proof fn lemma_dedup_norm_has(entries: Seq<Seq<char>>, i: int)
    requires
        0 <= i < entries.len(),
    ensures
        dedup_norm(entries).contains(normalized_entry(entries[i])),
    decreases entries.len(),
{
    let r = dedup_norm(entries.drop_last());
    let n = normalized_entry(entries.last());
    if i < entries.len() - 1 {
        lemma_dedup_norm_has(entries.drop_last(), i);
        assert(entries.drop_last()[i] == entries[i]);
        if !r.contains(n) {
            let q = choose|q: int| 0 <= q < r.len() && r[q] == normalized_entry(entries[i]);
            assert(r.push(n)[q] == r[q]);
        }
    } else {
        if !r.contains(n) {
            assert(r.push(n)[r.len() as int] == n);
        }
    }
}

/// Naming a folder in an extraction takes every file under it: where a
/// requested path names no file (every entry of its normalized path is a
/// folder), each file entry whose normalized path is the request's normalized
/// path followed by `/` and more is among the extraction's targets, by its
/// normalized path.
pub proof fn lemma_extract_takes_files_under_named_folder(
    es: Seq<TocView>,
    entries: Seq<Seq<char>>,
    i: int,
    j: int,
)
    requires
        0 <= i < entries.len(),
        0 <= j < es.len(),
        !ends_with_slash(es[j].path),
        forall|k: int|
            0 <= k < es.len() && normalized_entry(#[trigger] es[k].path) == normalized_entry(entries[i])
                ==> ends_with_slash(es[k].path),
        ({
            let n = normalized_entry(es[j].path);
            let f = normalized_entry(entries[i]);
            n.len() > f.len() && n.take(f.len() as int) == f && n[f.len() as int] == '/'
        }),
    ensures
        exists|k: int|
            0 <= k < extraction_targets(es, entries).len() && normalized_entry(
                #[trigger] extraction_targets(es, entries)[k].path,
            ) == normalized_entry(es[j].path),
{
    let filter = dedup_norm(entries);
    lemma_dedup_norm_has(entries, i);
    let q = choose|q: int| 0 <= q < filter.len() && filter[q] == normalized_entry(entries[i]);
    lemma_folder_selects_files_under_it(es, filter, q, j);
    assert(extraction_targets(es, entries) == target_entries(es, filter));
    let t = target_entries(es, filter);
    let k = choose|k: int| 0 <= k < t.len() && normalized_entry(#[trigger] t[k].path) == normalized_entry(es[j].path);
    assert(normalized_entry(extraction_targets(es, entries)[k].path) == normalized_entry(es[j].path));
}

fn dedup_norm_of(entries: &[String]) -> (res: Vec<Vec<char>>)
    ensures
        res.deep_view() == dedup_norm(strings_view(entries@)),
{
    let ghost sv = strings_view(entries@);
    let mut out: Vec<Vec<char>> = Vec::new();
    let mut i: usize = 0;
    assert(sv.take(0) =~= Seq::<Seq<char>>::empty());
    assert(out.deep_view() =~= Seq::<Seq<char>>::empty());
    while i < entries.len()
        invariant
            i <= entries@.len(),
            sv == strings_view(entries@),
            out.deep_view() == dedup_norm(sv.take(i as int)),
        decreases entries@.len() - i,
    {
        assert(sv.take(i + 1).drop_last() =~= sv.take(i as int));
        assert(sv.take(i + 1).last() == entries@[i as int]@);
        let n = normalize_entry_chars(&chars_of(entries[i].as_str()));
        if !contains_piece(&out, &n) {
            push_piece(&mut out, n);
        }
        i = i + 1;
    }
    assert(sv.take(entries@.len() as int) =~= sv);
    out
}

fn copy_entries(toc: &Vec<TocEntry>) -> (res: Vec<TocEntry>)
    ensures
        toc_views(res@) == toc_views(toc@),
{
    let mut out: Vec<TocEntry> = Vec::new();
    let mut i: usize = 0;
    while i < toc.len()
        invariant
            i <= toc.len(),
            toc_views(out@) == toc_views(toc@).take(i as int),
        decreases toc.len() - i,
    {
        let ghost old_out = out@;
        out.push(toc[i].duplicate());
        assert(toc_views(out@) =~= toc_views(old_out).push(toc@[i as int]@));
        assert(toc_views(toc@).take(i + 1) =~= toc_views(toc@).take(i as int).push(toc@[i as int]@));
        i = i + 1;
    }
    assert(toc_views(toc@).take(toc.len() as int) =~= toc_views(toc@));
    out
}

impl HeheFormat {
    /// Extracts entries of an archive under the destination root `destination`
    /// (absolute and canonical): every entry where `entries` is empty, else the
    /// entries named and those under named folders. Returns the files to write
    /// (path and contents) and the entries left out with their reasons.
    pub fn extract(archive: &[u8], destination: &str, entries: &[String], preserve_paths: bool) -> (res:
        AppResult<ExtractPlan>)
        ensures
            match res {
                Ok(plan) => read_toc_spec(archive@) matches Ok(es) && {
                    let ts = extraction_targets(es, strings_view(entries@));
                    &&& items_view(plan.files@) == plan_files(archive@, destination@, ts, preserve_paths)
                    &&& skips_match(skipped_view(plan.skipped@), plan_skips(archive@, destination@, ts, preserve_paths))
                },
                Err(e) => read_toc_spec(archive@) is Err && e is Archive,
            },
    {
        let toc = match read_toc(archive) {
            Ok(t) => t,
            Err(e) => return Err(e),
        };
        let targets = if entries.len() == 0 {
            copy_entries(&toc)
        } else {
            let filter = dedup_norm_of(entries);
            collect_target_entries(&toc, &filter)
        };
        let ghost ts = toc_views(targets@);
        let mut files: Vec<(String, Vec<u8>)> = Vec::new();
        let mut skipped: Vec<SkippedEntry> = Vec::new();
        let mut i: usize = 0;
        assert(ts.take(0) =~= Seq::<TocView>::empty());
        assert(items_view(files@) =~= Seq::<(Seq<char>, Seq<u8>)>::empty());
        assert(skipped_view(skipped@) =~= Seq::<(Seq<char>, Seq<char>)>::empty());
        while i < targets.len()
            invariant
                i <= targets.len(),
                ts == toc_views(targets@),
                items_view(files@) == plan_files(archive@, destination@, ts.take(i as int), preserve_paths),
                skips_match(skipped_view(skipped@), plan_skips(archive@, destination@, ts.take(i as int), preserve_paths)),
            decreases targets.len() - i,
        {
            let e = &targets[i];
            let ghost ev = e@;
            assert(ts.take(i + 1).drop_last() =~= ts.take(i as int));
            assert(ts.take(i + 1).last() == ev);
            let p = chars_of(e.path.as_str());
            if p.len() > 0 && p[p.len() - 1] == '/' {
            } else {
                let relative = relative_out_path(e.path.as_str(), preserve_paths);
                match resolve_safe_extract_path(destination, relative.as_str()) {
                    Err(err) => {
                        let ghost old_sk = skipped_view(skipped@);
                        let reason = err.message();
                        skipped.push(SkippedEntry { path: e.path.clone(), reason });
                        assert(skipped_view(skipped@) =~= old_sk.push((ev.path, reason@)));
                    },
                    Ok(out) => {
                        match read_entry_raw(archive, e) {
                            Err(err) => {
                                let ghost old_sk = skipped_view(skipped@);
                                let reason = err.message();
                                skipped.push(SkippedEntry { path: e.path.clone(), reason });
                                assert(skipped_view(skipped@) =~= old_sk.push((ev.path, reason@)));
                            },
                            Ok(raw) => {
                                let ghost old_files = items_view(files@);
                                let ghost item = (out@, raw@);
                                files.push((out, raw));
                                assert(items_view(files@) =~= old_files.push(item));
                            },
                        }
                    },
                }
            }
            i = i + 1;
        }
        assert(ts.take(targets.len() as int) =~= ts);
        Ok(ExtractPlan { files, skipped })
    }
}


/// The items of a new archive have distinct paths, compared normalized,
/// where the files do and none of them is the metadata entry.
proof fn lemma_create_items_distinct(items: Seq<(String, Vec<u8>)>, files: Seq<(String, Vec<u8>)>)
    requires
        items.len() == files.len() + 1,
        items_view(items)[0].0 == metadata_path(),
        sorted_by_path(items_view(items).skip(1)),
        forall|q: int| 1 <= q < items.len() ==> path_among(files, 0, #[trigger] items[q].0@),
        distinct_entry_paths(items_view(files)),
        forall|j: int| 0 <= j < files.len() ==> normalized_entry(#[trigger] files[j].0@) != metadata_path(),
        normalized_entry(metadata_path()) == metadata_path(),
    ensures
        distinct_entry_paths(items_view(items)),
{
    let iv = items_view(items);
    let fv = items_view(files);
    assert forall|a: int, b: int| 0 <= a < b < iv.len() implies normalized_entry(#[trigger] iv[a].0)
        != normalized_entry(#[trigger] iv[b].0) by {
        assert(path_among(files, 0, items[b].0@));
        let jb = choose|j: int| 0 <= j < files.len() && #[trigger] files[j].0@ == items[b].0@;
        assert(iv[b].0 == fv[jb].0);
        if a == 0 {
            assert(normalized_entry(files[jb].0@) != metadata_path());
        } else {
            assert(path_among(files, 0, items[a].0@));
            let ja = choose|j: int| 0 <= j < files.len() && #[trigger] files[j].0@ == items[a].0@;
            assert(iv[a].0 == fv[ja].0);
            assert(iv.skip(1)[a - 1] == iv[a]);
            assert(iv.skip(1)[b - 1] == iv[b]);
            assert(lex_lt(iv[a].0, iv[b].0));
            lemma_lex_irrefl(iv[a].0, iv[b].0);
            assert(ja != jb);
            if ja < jb {
                assert(normalized_entry(fv[ja].0) != normalized_entry(fv[jb].0));
            } else {
                assert(normalized_entry(fv[jb].0) != normalized_entry(fv[ja].0));
            }
        }
    }
}


/// Each item of a new archive reads back: the metadata entry, and every file.
proof fn lemma_create_reads_back(
    b: Seq<u8>,
    items: Seq<(String, Vec<u8>)>,
    files: Seq<(String, Vec<u8>)>,
    meta: Seq<char>,
    c: HeheCompression,
)
    requires
        items.len() == files.len() + 1,
        items_view(items)[0] == (metadata_path(), encode_utf8(meta)),
        sorted_by_path(items_view(items).skip(1)),
        forall|j: int|
            0 <= j < files.len() ==> items_view(items).skip(1).contains(
                #[trigger] items_view(files)[j],
            ),
        forall|q: int| 1 <= q < items.len() ==> path_among(files, 0, #[trigger] items[q].0@),
        checkable(items_view(files), c),
        (window_ok(c) && items.len() <= u32::MAX && distinct_entry_paths(items_view(items)))
            ==> forall|k: int|
            0 <= k < items.len() ==> read_entry_spec(b, #[trigger] items[k].0@) == Ok::<
                Seq<u8>,
                ReadFault,
            >(items[k].1@),
    ensures
        read_entry_spec(b, metadata_path()) == Ok::<Seq<u8>, ReadFault>(encode_utf8(meta)),
        forall|j: int|
            0 <= j < files.len() ==> read_entry_spec(b, #[trigger] items_view(files)[j].0) == Ok::<
                Seq<u8>,
                ReadFault,
            >(items_view(files)[j].1),
{
    let fs = items_view(files);
    reveal_strlit("metadata.hehestl");
    assert(normalized_entry(metadata_path()) =~= metadata_path());
    assert forall|j: int| 0 <= j < files.len() implies normalized_entry(#[trigger] files[j].0@)
        != metadata_path() by {
        assert(fs[j].0 == files[j].0@);
    }
    lemma_create_items_distinct(items, files);
    assert(items_view(items)[0] == (items[0].0@, items[0].1@));
    assert(read_entry_spec(b, items[0].0@) == Ok::<Seq<u8>, ReadFault>(items[0].1@));
    assert forall|j: int| 0 <= j < files.len() implies read_entry_spec(b, #[trigger] fs[j].0)
        == Ok::<Seq<u8>, ReadFault>(fs[j].1) by {
        assert(items_view(items).skip(1).contains(fs[j]));
        let q = choose|q: int|
            0 <= q < items_view(items).skip(1).len() && items_view(items).skip(1)[q] == fs[j];
        assert(items_view(items)[q + 1] == (items[q + 1].0@, items[q + 1].1@));
        assert(read_entry_spec(b, items[q + 1].0@) == Ok::<Seq<u8>, ReadFault>(items[q + 1].1@));
    }
}


/// The file set that is packed: the files, converted to WebP where asked.
pub open spec fn packed_files(files: Seq<(Seq<char>, Seq<u8>)>, convert: bool) -> Seq<(Seq<char>, Seq<u8>)> {
    if convert {
        webp_fold(files, files.len())
    } else {
        files
    }
}

/// Whether what is read back from an archive can be checked against what was
/// packed: the paths of the files and of the metadata are distinct compared
/// normalized, their count fits the header, and the zstd window is one the
/// decoder reads.
pub open spec fn checkable(fs: Seq<(Seq<char>, Seq<u8>)>, c: HeheCompression) -> bool {
    &&& distinct_entry_paths(fs)
    &&& forall|j: int| 0 <= j < fs.len() ==> normalized_entry(#[trigger] fs[j].0) != metadata_path()
    &&& fs.len() + 1 <= u32::MAX
    &&& window_ok(c)
}

/// Whether `items` lay out a new archive of the files `fs` under the metadata
/// text `meta`: the metadata entry first, then each file once, sorted by path.
pub open spec fn create_layout(
    items: Seq<(Seq<char>, Seq<u8>)>,
    meta: Seq<char>,
    fs: Seq<(Seq<char>, Seq<u8>)>,
) -> bool {
    &&& items.len() == fs.len() + 1
    &&& items[0] == (metadata_path(), encode_utf8(meta))
    &&& sorted_by_path(items.skip(1))
    &&& forall|j: int| 0 <= j < fs.len() ==> items.skip(1).contains(#[trigger] fs[j])
}

/// The sum of the item sizes, held at `u64::MAX`.
pub open spec fn capped_total(items: Seq<(Seq<char>, Seq<u8>)>) -> nat {
    if total_size(items) > u64::MAX {
        u64::MAX as nat
    } else {
        total_size(items)
    }
}

/// Whether `b`, `r` and `items` are a new archive of the files `fs`: a fresh
/// version 4 id, the metadata merged for it at some time stamp, the items laid
/// out (metadata first, files sorted), `b` the archive of those items, and
/// the counts of `r` taken from them.
pub open spec fn created_archive(
    b: Seq<u8>,
    r: HeheCreateResult,
    items: Seq<(Seq<char>, Seq<u8>)>,
    existing: Option<Seq<char>>,
    sources: Seq<Seq<char>>,
    fs: Seq<(Seq<char>, Seq<u8>)>,
    c: HeheCompression,
) -> bool {
    &&& uuid_accepts(r.archive_id@)
    &&& is_v4_text(r.archive_id@)
    &&& exists|created: Seq<char>|
        is_stamp(created) && #[trigger] create_layout(
            items,
            merged_metadata(existing, r.archive_id@, sources, label_spec(c), created),
            fs,
        )
    &&& written_archive(items, METHOD_ZSTD, c) == Some(b)
    &&& r.entry_count == items.len() as u32
    &&& r.total_bytes == capped_total(items)
}

/// Whether every file of `fs`, and the metadata, read back from `b` where the
/// set can be checked.
pub open spec fn files_read_back(
    b: Seq<u8>,
    items: Seq<(Seq<char>, Seq<u8>)>,
    fs: Seq<(Seq<char>, Seq<u8>)>,
    c: HeheCompression,
) -> bool {
    checkable(fs, c) ==> {
        &&& read_entry_spec(b, metadata_path()) == Ok::<Seq<u8>, ReadFault>(items[0].1)
        &&& forall|j: int|
            0 <= j < fs.len() ==> read_entry_spec(b, #[trigger] fs[j].0) == Ok::<Seq<u8>, ReadFault>(
                fs[j].1,
            )
    }
}

/// Whether writing can be what makes creation fail: for some id and time
/// stamp, the laid-out items of `fs` cannot be written as an archive.
pub open spec fn create_write_fails(
    existing: Option<Seq<char>>,
    sources: Seq<Seq<char>>,
    fs: Seq<(Seq<char>, Seq<u8>)>,
    c: HeheCompression,
) -> bool {
    exists|id: Seq<char>, created: Seq<char>, items: Seq<(Seq<char>, Seq<u8>)>|
        #[trigger] create_layout(items, merged_metadata(existing, id, sources, label_spec(c), created), fs)
            && written_archive(items, METHOD_ZSTD, c) is None
}

/// Lays out and writes the files under the metadata text, and counts what was written.
#[verifier::rlimit(30)]
fn pack_items(work: Vec<(String, Vec<u8>)>, metadata: String, c: HeheCompression) -> (res: AppResult<
    (Vec<u8>, (u32, u64), Vec<(String, Vec<u8>)>),
>)
    requires
        keys_distinct(work@),
    ensures
        match res {
            Ok((b, st, items)) => {
                &&& create_layout(items_view(items@), metadata@, items_view(work@))
                &&& written_archive(items_view(items@), METHOD_ZSTD, c) == Some(b@)
                &&& st.0 == items@.len() as u32
                &&& st.1 == capped_total(items_view(items@))
                &&& files_read_back(b@, items_view(items@), items_view(work@), c)
            },
            Err(e) => e is Archive && exists|items: Seq<(Seq<char>, Seq<u8>)>|
                #[trigger] create_layout(items, metadata@, items_view(work@))
                    && written_archive(items, METHOD_ZSTD, c) is None,
        },
{
    let ghost fs = items_view(work@);
    let ghost files_before = work@;
    let ghost meta_text = metadata@;
    let items = build_create_items(work, metadata);
    let ghost iv = items_view(items@);
    assert(iv.len() == fs.len() + 1);
    assert(iv[0] == (metadata_path(), encode_utf8(meta_text)));
    assert forall|j: int| 0 <= j < fs.len() implies iv.skip(1).contains(#[trigger] fs[j]) by {
        assert(items_view(files_before)[j] == fs[j]);
    }
    assert(create_layout(iv, meta_text, fs));
    let stats = stats_from_items(&items);
    let bytes = match write_archive(&items, METHOD_ZSTD, c) {
        Ok(b) => b,
        Err(e) => {
            return Err(e);
        },
    };
    proof {
        if checkable(fs, c) {
            lemma_create_reads_back(bytes@, items@, files_before, meta_text, c);
            assert(iv[0].1 == encode_utf8(meta_text));
        }
    }
    Ok((bytes, stats, items))
}

proof fn lemma_write_fails_witness(
    existing: Option<Seq<char>>,
    id: Seq<char>,
    sources: Seq<Seq<char>>,
    fs: Seq<(Seq<char>, Seq<u8>)>,
    c: HeheCompression,
    created: Seq<char>,
    items: Seq<(Seq<char>, Seq<u8>)>,
)
    requires
        create_layout(items, merged_metadata(existing, id, sources, label_spec(c), created), fs),
        written_archive(items, METHOD_ZSTD, c) is None,
    ensures
        create_write_fails(existing, sources, fs, c),
{
}

proof fn lemma_created_witness(
    b: Seq<u8>,
    r: HeheCreateResult,
    items: Seq<(Seq<char>, Seq<u8>)>,
    existing: Option<Seq<char>>,
    sources: Seq<Seq<char>>,
    fs: Seq<(Seq<char>, Seq<u8>)>,
    c: HeheCompression,
    created: Seq<char>,
)
    requires
        uuid_accepts(r.archive_id@),
        is_v4_text(r.archive_id@),
        is_stamp(created),
        create_layout(items, merged_metadata(existing, r.archive_id@, sources, label_spec(c), created), fs),
        written_archive(items, METHOD_ZSTD, c) == Some(b),
        r.entry_count == items.len() as u32,
        r.total_bytes == capped_total(items),
    ensures
        created_archive(b, r, items, existing, sources, fs, c),
{
}

/// Merges the metadata for a fresh id, then lays out and writes the files.
#[verifier::rlimit(30)]
fn create_with_metadata(
    work: Vec<(String, Vec<u8>)>,
    root_metadata: Option<String>,
    sources: &[String],
    c: HeheCompression,
) -> (res: AppResult<(Vec<u8>, HeheCreateResult, Vec<(String, Vec<u8>)>)>)
    requires
        keys_distinct(work@),
    ensures
        match res {
            Ok((b, r, items)) => created_archive(
                b@,
                r,
                items_view(items@),
                opt_string(root_metadata),
                strings_view(sources@),
                items_view(work@),
                c,
            ) && files_read_back(b@, items_view(items@), items_view(work@), c),
            Err(e) => e is Archive && create_write_fails(
                opt_string(root_metadata),
                strings_view(sources@),
                items_view(work@),
                c,
            ),
        },
{
    let ghost fs = items_view(work@);
    let archive_id = new_uuid_v4();
    let label = c.metadata_label();
    let metadata = match &root_metadata {
        Some(m) => {
            let ms = m.as_str();
            let r = merge_metadata_hehestl(Some(ms), archive_id.as_str(), sources, label.as_str());
            assert(opt_str(Some(ms)) == opt_string(root_metadata));
            r
        },
        None => merge_metadata_hehestl(None, archive_id.as_str(), sources, label.as_str()),
    };
    let ghost existing = opt_string(root_metadata);
    let ghost sv = strings_view(sources@);
    let ghost created = choose|created: Seq<char>|
        is_stamp(created) && metadata@ == #[trigger] merged_metadata(
            existing,
            archive_id@,
            sv,
            label_spec(c),
            created,
        );
    assert(metadata@ == merged_metadata(existing, archive_id@, sv, label_spec(c), created));
    match pack_items(work, metadata, c) {
        Ok((b, st, items)) => {
            let r = HeheCreateResult { archive_id, entry_count: st.0, total_bytes: st.1 };
            proof {
                lemma_created_witness(b@, r, items_view(items@), existing, sv, fs, c, created);
            }
            Ok((b, r, items))
        },
        Err(e) => {
            proof {
                let items = choose|items: Seq<(Seq<char>, Seq<u8>)>|
                    #[trigger] create_layout(items, merged_metadata(existing, archive_id@, sv, label_spec(c), created), fs)
                        && written_archive(items, METHOD_ZSTD, c) is None;
                lemma_write_fails_witness(existing, archive_id@, sv, fs, c, created, items);
            }
            Err(e)
        },
    }
}

impl HeheFormat {
    /// A new archive of the given files (paths in TOC form, each once), with
    /// metadata merged from `root_metadata`; `file_paths` are the sources the
    /// user picked, recorded in the metadata. Returns the archive's bytes,
    /// what was created, and the items written (the metadata entry first, then
    /// the files sorted by path), against which the written file is checked.
    ///
    /// It fails only where there is nothing to pack, or where the laid-out
    /// items cannot be written; what was packed reads back.
    pub fn create(
        files: Vec<(String, Vec<u8>)>,
        root_metadata: Option<String>,
        file_paths: &[String],
        options: HeheCreateOptions,
    ) -> (res: AppResult<(Vec<u8>, HeheCreateResult, Vec<(String, Vec<u8>)>)>)
        requires
            keys_distinct(files@),
        ensures
            file_paths@.len() == 0 ==> (res matches Err(e) && is_validation_error(
                e,
                "Нет файлов для архива"@,
            )),
            file_paths@.len() > 0 ==> match res {
                Ok((b, r, items)) => created_archive(
                    b@,
                    r,
                    items_view(items@),
                    opt_string(root_metadata),
                    strings_view(file_paths@),
                    packed_files(items_view(files@), options.convert_images_to_webp),
                    options.compression,
                ) && files_read_back(
                    b@,
                    items_view(items@),
                    packed_files(items_view(files@), options.convert_images_to_webp),
                    options.compression,
                ),
                Err(e) => e is Archive && create_write_fails(
                    opt_string(root_metadata),
                    strings_view(file_paths@),
                    packed_files(items_view(files@), options.convert_images_to_webp),
                    options.compression,
                ),
            },
    {
        if file_paths.len() == 0 {
            return Err(AppError::Validation(String::from_str("Нет файлов для архива")));
        }
        let ghost orig_view = items_view(files@);
        let mut work = files;
        if options.convert_images_to_webp {
            let _ = apply_webp_conversion(&mut work);
        }
        assert(items_view(work@) == packed_files(orig_view, options.convert_images_to_webp));
        create_with_metadata(work, root_metadata, file_paths, options.compression)
    }
}


/// What packing from another archive has gathered so far: the metadata text
/// found there (if any) and the files, in TOC order.
pub type Gathered = (Option<Seq<char>>, Seq<(Seq<char>, Seq<u8>)>);

/// One TOC entry of the source archive taken into what is gathered: folders
/// and unselected entries are passed over; the others are renamed, then read;
/// the metadata entry becomes the metadata. `None` where the new path is empty,
/// the data cannot be read, or two entries get the same path.
pub open spec fn gather_step(
    source: Seq<u8>,
    st: Option<Gathered>,
    e: TocView,
    sels: Seq<String>,
    strip: Option<Seq<char>>,
) -> Option<Gathered> {
    match st {
        None => None,
        Some((meta, fs)) => if ends_with_slash(e.path) || !matches_selection(
            normalized_entry(e.path),
            sels,
        ) {
            Some((meta, fs))
        } else {
            match remapped(normalized_entry(e.path), strip) {
                None => None,
                Some(m) => match read_entry_spec(source, e.path) {
                    Err(_) => None,
                    Ok(d) => if m == metadata_path() {
                        Some((Some(utf8_lossy(d)), fs))
                    } else if exists|i: int| 0 <= i < fs.len() && #[trigger] fs[i].0 == m {
                        None
                    } else {
                        Some((meta, fs.push((m, d))))
                    },
                },
            }
        },
    }
}

/// What packing from another archive gathers from its TOC `es`.
pub open spec fn gather(source: Seq<u8>, es: Seq<TocView>, sels: Seq<String>, strip: Option<Seq<char>>) -> Option<
    Gathered,
>
    decreases es.len(),
{
    if es.len() == 0 {
        Some((None, Seq::empty()))
    } else {
        gather_step(source, gather(source, es.drop_last(), sels, strip), es.last(), sels, strip)
    }
}

proof fn lemma_gather_prefix(
    source: Seq<u8>,
    es: Seq<TocView>,
    sels: Seq<String>,
    strip: Option<Seq<char>>,
    k: int,
)
    requires
        0 <= k <= es.len(),
        gather(source, es.take(k), sels, strip) is None,
    ensures
        gather(source, es, sels, strip) is None,
    decreases es.len() - k,
{
    if k < es.len() {
        assert(es.take(k + 1).drop_last() =~= es.take(k));
        lemma_gather_prefix(source, es, sels, strip, k + 1);
    } else {
        assert(es.take(k) =~= es);
    }
}

impl HeheFormat {
    /// A new archive from entries of another: the entries at or under the
    /// selected paths (all where none are selected), renamed with `strip_prefix`
    /// taken off, behind merged metadata, laid out as every new archive is (the
    /// metadata entry first, the files sorted by path). `source_path` is where
    /// the source archive lies, recorded in the metadata. Returns the bytes,
    /// what was created and the items written.
    ///
    /// It fails only where the source cannot be read or gathered (a TOC that
    /// does not parse, an entry that cannot be read or renamed, two entries
    /// under one name), or where the laid-out items cannot be written; what
    /// was packed reads back.
    pub fn create_from_archive(
        source: &[u8],
        source_path: &str,
        entry_paths: &[String],
        strip_prefix: Option<&str>,
        options: HeheCreateOptions,
    ) -> (res: AppResult<(Vec<u8>, HeheCreateResult, Vec<(String, Vec<u8>)>)>)
        ensures
            match res {
                Ok((b, r, items)) => read_toc_spec(source@) matches Ok(es) && gather(
                    source@,
                    es,
                    entry_paths@,
                    opt_str(strip_prefix),
                ) matches Some((meta, fs)) && {
                    let fs2 = packed_files(fs, options.convert_images_to_webp);
                    &&& created_archive(
                        b@,
                        r,
                        items_view(items@),
                        meta,
                        seq![source_path@],
                        fs2,
                        options.compression,
                    )
                    &&& files_read_back(b@, items_view(items@), fs2, options.compression)
                },
                Err(e) => read_toc_spec(source@) is Err || gather(
                    source@,
                    toc_entries_of(source@),
                    entry_paths@,
                    opt_str(strip_prefix),
                ) is None || (gather(
                    source@,
                    toc_entries_of(source@),
                    entry_paths@,
                    opt_str(strip_prefix),
                ) matches Some((meta, fs)) && e is Archive && create_write_fails(
                    meta,
                    seq![source_path@],
                    packed_files(fs, options.convert_images_to_webp),
                    options.compression,
                )),
            },
    {
        let toc = match read_toc(source) {
            Ok(t) => t,
            Err(e) => return Err(e),
        };
        let ghost es = toc_views(toc@);
        let ghost sels = entry_paths@;
        let ghost strip = opt_str(strip_prefix);
        let mut files: Vec<(String, Vec<u8>)> = Vec::new();
        let mut root_metadata: Option<String> = None;
        let mut i: usize = 0;
        assert(es.take(0) =~= Seq::<TocView>::empty());
        assert(items_view(files@) =~= Seq::<(Seq<char>, Seq<u8>)>::empty());
        while i < toc.len()
            invariant
                i <= toc.len(),
                es == toc_views(toc@),
                read_toc_spec(source@) == Ok::<Seq<TocView>, TocFault>(es),
                sels == entry_paths@,
                strip == opt_str(strip_prefix),
                gather(source@, es.take(i as int), sels, strip) == Some(
                    (opt_string(root_metadata), items_view(files@)),
                ),
                keys_distinct(files@),
            decreases toc.len() - i,
        {
            let e = &toc[i];
            let ghost ev = e@;
            assert(es.take(i + 1).drop_last() =~= es.take(i as int));
            assert(es.take(i + 1).last() == ev);
            let p = chars_of(e.path.as_str());
            let dir = p.len() > 0 && p[p.len() - 1] == '/';
            if !dir {
                let norm = normalize_entry_path(e.path.as_str());
                if entry_matches_selection(norm.as_str(), entry_paths) {
                    let mapped = match remap_entry_path(norm.as_str(), strip_prefix) {
                        Ok(m) => m,
                        Err(err) => {
                            proof {
                                lemma_gather_prefix(source@, es, sels, strip, i + 1);
                            }
                            return Err(err);
                        },
                    };
                    let data = match entry_bytes_in(source, &toc, e.path.as_str()) {
                        Ok(d) => d,
                        Err(err) => {
                            proof {
                                lemma_gather_prefix(source@, es, sels, strip, i + 1);
                            }
                            return Err(err);
                        },
                    };
                    if str_eq_chars("metadata.hehestl", &chars_of(mapped.as_str())) {
                        root_metadata = Some(lossy_string(data.as_slice()));
                    } else {
                        let ghost before = files@;
                        let ghost mv = mapped@;
                        let ghost dv = data@;
                        match insert_unique(&mut files, mapped, data) {
                            Ok(()) => {
                                assert(items_view(files@) =~= items_view(before).push((mv, dv)));
                                assert(!(exists|q: int| 0 <= q < items_view(before).len() && #[trigger] items_view(before)[q].0 == mv)) by {
                                    if exists|q: int| 0 <= q < items_view(before).len() && #[trigger] items_view(before)[q].0 == mv {
                                        let q = choose|q: int| 0 <= q < items_view(before).len() && #[trigger] items_view(before)[q].0 == mv;
                                        assert(before[q].0@ == mv);
                                    }
                                }
                            },
                            Err(err) => {
                                proof {
                                    let q = choose|q: int| 0 <= q < before.len() && #[trigger] before[q].0@ == mv;
                                    assert(items_view(before)[q].0 == mv);
                                    lemma_gather_prefix(source@, es, sels, strip, i + 1);
                                }
                                return Err(err);
                            },
                        }
                    }
                }
            }
            i = i + 1;
        }
        assert(es.take(toc.len() as int) =~= es);
        let ghost fs = items_view(files@);
        let ghost meta = opt_string(root_metadata);
        if options.convert_images_to_webp {
            let _ = apply_webp_conversion(&mut files);
        }
        assert(items_view(files@) == packed_files(fs, options.convert_images_to_webp));
        let mut sources: Vec<String> = Vec::new();
        sources.push(String::from_str(source_path));
        assert(strings_view(sources@) =~= seq![source_path@]);
        create_with_metadata(files, root_metadata, sources.as_slice(), options.compression)
    }
}


/// Metadata written for an archive names its id: reading the id back from it
/// gives the id written, where the id is one `Uuid::parse_str` accepts, on one
/// line, with no blanks at its ends.
pub proof fn lemma_metadata_names_archive_id(
    existing: Option<Seq<char>>,
    id: Seq<char>,
    sources: Seq<Seq<char>>,
    label: Seq<char>,
    created: Seq<char>,
)
    requires
        uuid_accepts(id),
        id.len() > 0,
        !has_char(id, '\n'),
        trim(id) == id,
    ensures
        archive_id_of(merged_metadata(existing, id, sources, label, created)) == Some(id),
{
    reveal_strlit("FormatVersion: 1\n");
    reveal_strlit("FormatVersion: 1");
    reveal_strlit("ArchiveId: ");
    reveal_strlit("ArchiveId:");
    reveal_strlit("archive_id:");
    reveal_strlit("\n");
    let text = merged_metadata(existing, id, sources, label, created);
    let a = "FormatVersion: 1"@;
    let lit = "ArchiveId: "@;
    let b = lit + id;
    let src = match sources_line(sources) {
        Some(l) => "OriginalSources: "@ + l + "\n"@,
        None => Seq::empty(),
    };
    let tail = match existing {
        None => "Кат: Оригинальный | Cat: Original\nName:\nTags:\n"@,
        Some(raw) => render_lines(user_lines(raw)),
    };
    let rest = "Created: "@ + created + "\n"@ + "Compression: "@ + label + "\n"@ + src + tail;
    assert("FormatVersion: 1\n"@ =~= a + seq!['\n']);
    assert("\n"@ =~= seq!['\n']);
    assert(text =~= a + seq!['\n'] + b + seq!['\n'] + rest);
    assert(without_bom(text) == text);
    assert(first_index(a, '\n') is None) by {
        reveal_with_fuel(index_of_from, 18);
    }
    assert(first_index(lit, '\n') is None) by {
        reveal_with_fuel(index_of_from, 13);
    }
    lemma_index_of_from(lit, '\n', 0);
    lemma_index_of_from(id, '\n', 0);
    lemma_index_of_from(b, '\n', 0);
    if has_char(b, '\n') {
        let k = first_index(b, '\n').unwrap();
        if k < lit.len() {
            assert(b[k] == lit[k]);
        } else {
            assert(b[k] == id[k - lit.len()]);
        }
    }
    lemma_first_two_lines(a, b, rest);
    lemma_trimmed_ends(id);
    let ls = lines(text);
    assert(b.last() == id.last());
    assert(strip_cr(a) == a);
    assert(strip_cr(b) == b);
    assert(ls[0] == a);
    assert(ls[1] == b);
    lemma_trim_unchanged(a);
    assert(a.take(10)[0] != "ArchiveId:"@[0]);
    assert(a.take(11)[0] != "archive_id:"@[0]);
    assert(id_in_line(ls[0]) is None);
    lemma_trim_unchanged(b);
    assert(b.take(10) =~= "ArchiveId:"@);
    let r = b.skip(10);
    assert(r =~= seq![' '] + id);
    assert(r.drop_first() =~= id);
    assert(trim_start(r) == trim_start(id));
    assert(trim_start(id) == id);
    assert(trim_end(id) == id);
    assert(trim(r) == id);
    assert(id_in_line(ls[1]) == Some(id));
    assert(ls.drop_first()[0] == ls[1]);
    assert(ls.drop_first().len() > 0);
    assert(first_id(ls.drop_first()) == Some(id));
    assert(first_id(ls) == first_id(ls.drop_first()));
    assert(archive_id_of(text) == first_id(ls));
}

} // verus!
