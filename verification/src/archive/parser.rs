//! Parsers for the listings that `7z l -ba` and `7z l -slt` print.
use crate::archive::seven_zip::{entries_view, opt_view, ArchiveEntryDto, EntryView};
use crate::text::{
    append_chars, ascii_lower, join_sep, join_sep_from, ascii_lower_of, chars_of, has_char, has_char_of, last_index,
    last_index_of, lemma_last_index, lines, lines_of, parse_u64, parse_u64_of, slice_chars,
    string_of, strip_prefix, strip_prefix_of, trim, trim_chars, words, words_of,
};
use vstd::prelude::*;
use vstd::utf8::encode_utf8;

verus! {

pub open spec fn is_sep(c: char) -> bool {
    c == '/' || c == '\\'
}

/// The last index holding `/` or `\`.
pub open spec fn last_sep(s: Seq<char>) -> Option<int>
    decreases s.len(),
{
    if s.len() == 0 {
        None
    } else if is_sep(s.last()) {
        Some(s.len() - 1)
    } else {
        last_sep(s.drop_last())
    }
}

proof fn lemma_last_sep(s: Seq<char>)
    ensures
        last_sep(s) matches Some(k) ==> 0 <= k < s.len(),
    decreases s.len(),
{
    if s.len() > 0 && !is_sep(s.last()) {
        lemma_last_sep(s.drop_last());
    }
}

/// The part after the last `/` or `\` (`rsplit(['/', '\\']).next()`).
pub open spec fn base_name(p: Seq<char>) -> Seq<char> {
    match last_sep(p) {
        Some(k) => p.skip(k + 1),
        None => p,
    }
}

/// The lower-cased part after the last `.`, or empty where there is no `.`.
pub open spec fn dotted_extension(name: Seq<char>) -> Seq<char> {
    match last_index(name, '.') {
        Some(k) => ascii_lower(name.skip(k + 1)),
        None => Seq::empty(),
    }
}

/// The entry that a listing line describes.
pub open spec fn entry_view_of(
    path: Seq<char>,
    size: u64,
    packed: u64,
    modified: Option<Seq<char>>,
    is_dir: bool,
) -> EntryView {
    EntryView {
        path: path,
        name: base_name(path),
        size: size,
        packed_size: packed,
        modified: modified,
        is_dir: is_dir,
        extension: dotted_extension(base_name(path)),
    }
}

fn base_name_of(p: &Vec<char>) -> (res: Vec<char>)
    ensures
        res@ == base_name(p@),
{
    let mut j: usize = p.len();
    assert(p@.take(j as int) == p@);
    while j > 0
        invariant
            j <= p.len(),
            last_sep(p@) == last_sep(p@.take(j as int)),
        decreases j,
    {
        assert(p@.take(j as int).last() == p@[j - 1]);
        assert(p@.take(j as int).drop_last() == p@.take(j - 1));
        if p[j - 1] == '/' || p[j - 1] == '\\' {
            return slice_chars(p, j, p.len());
        }
        j = j - 1;
    }
    slice_chars(p, 0, p.len())
}

pub(crate) fn dotted_extension_of(name: &Vec<char>) -> (res: Vec<char>)
    ensures
        res@ == dotted_extension(name@),
{
    proof {
        lemma_last_index(name@, '.');
    }
    match last_index_of(name, '.') {
        Some(k) => {
            assert(k < name.len());
            let tail = slice_chars(name, k + 1, name.len());
            ascii_lower_of(&tail)
        },
        None => Vec::new(),
    }
}

/// One listing entry from its fields.
fn build_entry(
    path: Vec<char>,
    size: u64,
    packed: u64,
    modified: Option<String>,
    is_dir: bool,
) -> (res: ArchiveEntryDto)
    ensures
        res@ == entry_view_of(path@, size, packed, opt_view(modified), is_dir),
{
    let name = base_name_of(&path);
    let extension = dotted_extension_of(&name);
    ArchiveEntryDto {
        path: string_of(&path),
        name: string_of(&name),
        size,
        packed_size: packed,
        modified,
        is_dir,
        extension: string_of(&extension),
    }
}

/// A size column: its number, or 0 where it does not parse.
pub open spec fn size_or_zero(s: Seq<char>) -> u64 {
    match parse_u64(s) {
        Some(v) => v,
        None => 0,
    }
}

fn size_or_zero_of(s: &Vec<char>) -> (res: u64)
    ensures
        res == size_or_zero(s@),
{
    match parse_u64_of(s) {
        Some(v) => v,
        None => 0,
    }
}

/// The entry that one line of `7z l -ba` describes, if any.
pub open spec fn ba_line(raw: Seq<char>) -> Option<EntryView> {
    let line = trim(raw);
    let b = encode_utf8(line);
    if b.len() < 19 || b[4] != 45u8 {
        None
    } else {
        let parts = words(line);
        if parts.len() < 6 {
            None
        } else {
            let path = join_sep(parts.skip(5), seq![' ']);
            if path.len() == 0 {
                None
            } else {
                let is_dir = has_char(parts[2], 'D') || path.last() == '/' || path.last() == '\\';
                Some(
                    entry_view_of(
                        path,
                        size_or_zero(parts[3]),
                        size_or_zero(parts[4]),
                        Some(parts[0] + seq![' '] + parts[1]),
                        is_dir,
                    ),
                )
            }
        }
    }
}

/// The listing that `7z l -ba` printed.
pub open spec fn ba_listing(s: Seq<char>) -> Seq<EntryView> {
    lines(s).filter_map(|l: Seq<char>| ba_line(l))
}

fn ba_line_of(raw: &Vec<char>) -> (res: Option<ArchiveEntryDto>)
    ensures
        match res {
            Some(e) => ba_line(raw@) == Some(e@),
            None => ba_line(raw@) is None,
        },
{
    let line = trim_chars(raw);
    let line_str = string_of(&line);
    let bytes = line_str.as_str().as_bytes();
    if bytes.len() < 19 || bytes[4] != 45u8 {
        return None;
    }
    let parts = words_of(&line);
    if parts.len() < 6 {
        return None;
    }
    let mut space: Vec<char> = Vec::new();
    space.push(' ');
    let path = join_sep_from(&parts, 5, &space);
    assert(space@ == seq![' ']);
    if path.len() == 0 {
        return None;
    }
    let mut modified = slice_chars(&parts[0], 0, parts[0].len());
    modified.push(' ');
    append_chars(&mut modified, &parts[1]);
    let is_dir = has_char_of(&parts[2], 'D') || path[path.len() - 1] == '/' || path[path.len()
        - 1] == '\\';
    let size = size_or_zero_of(&parts[3]);
    let packed = size_or_zero_of(&parts[4]);
    proof {
        assert(parts.deep_view()[0] == parts@[0]@);
        assert(parts.deep_view()[1] == parts@[1]@);
        assert(parts.deep_view()[2] == parts@[2]@);
        assert(parts.deep_view()[3] == parts@[3]@);
        assert(parts.deep_view()[4] == parts@[4]@);
        assert(modified@ == parts@[0]@ + seq![' '] + parts@[1]@);
        assert(line@ == trim(raw@));
        assert(parts.deep_view() == words(trim(raw@)));
        assert(path@ == join_sep(words(trim(raw@)).skip(5), seq![' ']));
        assert(is_dir == (has_char(parts@[2]@, 'D') || path@.last() == '/' || path@.last() == '\\'));
    }
    Some(build_entry(path, size, packed, Some(string_of(&modified)), is_dir))
}

/// `7z l -ba` listing: one entry per line that starts with a date.
pub fn parse_ba_listing(stdout: &str) -> (res: Vec<ArchiveEntryDto>)
    ensures
        entries_view(res@) == ba_listing(stdout@),
{
    let text = chars_of(stdout);
    let ls = lines_of(&text);
    let mut entries: Vec<ArchiveEntryDto> = Vec::new();
    let mut i: usize = 0;
    while i < ls.len()
        invariant
            i <= ls.len(),
            ls.deep_view() == lines(stdout@),
            entries_view(entries@) == ls.deep_view().take(i as int).filter_map(
                |l: Seq<char>| ba_line(l),
            ),
        decreases ls.len() - i,
    {
        let ghost dv = ls.deep_view();
        assert(dv.take(i + 1).drop_last() == dv.take(i as int));
        assert(dv.take(i + 1).last() == ls@[i as int]@);
        match ba_line_of(&ls[i]) {
            Some(e) => {
                entries.push(e);
                assert(entries_view(entries@) =~= dv.take(i as int).filter_map(
                    |l: Seq<char>| ba_line(l),
                ) + seq![e@]);
            },
            None => {},
        }
        i = i + 1;
    }
    assert(ls.deep_view().take(ls.len() as int) == ls.deep_view());
    entries
}

/// The state of the `7z l -slt` reader between lines.
pub struct SltState {
    pub entries: Seq<EntryView>,
    pub path: Seq<char>,
    pub size: u64,
    pub packed: u64,
    pub modified: Option<Seq<char>>,
    pub is_dir: bool,
}

pub open spec fn slt_start() -> SltState {
    SltState {
        entries: Seq::empty(),
        path: Seq::empty(),
        size: 0,
        packed: 0,
        modified: None,
        is_dir: false,
    }
}

/// The pending entry, if it has a path, added to the list.
pub open spec fn slt_flush(st: SltState) -> SltState {
    if st.path.len() == 0 {
        st
    } else {
        SltState {
            entries: st.entries.push(
                entry_view_of(st.path, st.size, st.packed, st.modified, st.is_dir),
            ),
            path: Seq::empty(),
            size: 0,
            packed: 0,
            modified: None,
            is_dir: false,
        }
    }
}

/// One line of `7z l -slt` read into the state.
pub open spec fn slt_step(st: SltState, raw: Seq<char>) -> SltState {
    let line = trim(raw);
    if line.len() == 0 {
        slt_flush(st)
    } else if let Some(rest) = strip_prefix(line, "Path = "@) {
        SltState { path: rest, ..slt_flush(st) }
    } else if let Some(rest) = strip_prefix(line, "Size = "@) {
        SltState { size: size_or_zero(rest), ..st }
    } else if let Some(rest) = strip_prefix(line, "Packed Size = "@) {
        SltState { packed: size_or_zero(rest), ..st }
    } else if let Some(rest) = strip_prefix(line, "Modified = "@) {
        SltState { modified: Some(rest), ..st }
    } else if let Some(rest) = strip_prefix(line, "Attributes = "@) {
        if has_char(rest, 'D') {
            SltState { is_dir: true, ..st }
        } else {
            st
        }
    } else {
        st
    }
}

pub open spec fn slt_fold(ls: Seq<Seq<char>>) -> SltState
    decreases ls.len(),
{
    if ls.len() == 0 {
        slt_start()
    } else {
        slt_step(slt_fold(ls.drop_last()), ls.last())
    }
}

/// The listing that `7z l -slt` printed: one entry per `Path = ` block.
pub open spec fn slt_listing(s: Seq<char>) -> Seq<EntryView> {
    slt_flush(slt_fold(lines(s))).entries
}

/// The `7z l -slt` reader's state in executable form.
struct SltReader {
    entries: Vec<ArchiveEntryDto>,
    path: Vec<char>,
    size: u64,
    packed: u64,
    modified: Option<String>,
    is_dir: bool,
}

impl SltReader {
    spec fn state(&self) -> SltState {
        SltState {
            entries: entries_view(self.entries@),
            path: self.path@,
            size: self.size,
            packed: self.packed,
            modified: opt_view(self.modified),
            is_dir: self.is_dir,
        }
    }

    fn flush(&mut self)
        ensures
            final(self).state() == slt_flush(old(self).state()),
    {
        if self.path.len() > 0 {
            let mut taken: Option<String> = None;
            std::mem::swap(&mut taken, &mut self.modified);
            let mut p: Vec<char> = Vec::new();
            std::mem::swap(&mut p, &mut self.path);
            let e = build_entry(p, self.size, self.packed, taken, self.is_dir);
            let ghost old_entries = self.entries@;
            self.entries.push(e);
            assert(entries_view(self.entries@) =~= entries_view(old_entries).push(e@));
            self.size = 0;
            self.packed = 0;
            self.is_dir = false;
        }
    }
}

/// `7z l -slt` listing: blocks of `Key = value` lines, one block per entry.
pub fn parse_slt_listing(stdout: &str) -> (res: Vec<ArchiveEntryDto>)
    ensures
        entries_view(res@) == slt_listing(stdout@),
{
    let text = chars_of(stdout);
    let ls = lines_of(&text);
    let p_path = chars_of("Path = ");
    let p_size = chars_of("Size = ");
    let p_packed = chars_of("Packed Size = ");
    let p_modified = chars_of("Modified = ");
    let p_attr = chars_of("Attributes = ");
    let mut rd = SltReader {
        entries: Vec::new(),
        path: Vec::new(),
        size: 0,
        packed: 0,
        modified: None,
        is_dir: false,
    };
    assert(entries_view(rd.entries@) =~= Seq::<EntryView>::empty());
    assert(rd.path@ =~= Seq::<char>::empty());
    assert(rd.state() == slt_start());
    let mut i: usize = 0;
    while i < ls.len()
        invariant
            i <= ls.len(),
            ls.deep_view() == lines(stdout@),
            p_path@ == "Path = "@,
            p_size@ == "Size = "@,
            p_packed@ == "Packed Size = "@,
            p_modified@ == "Modified = "@,
            p_attr@ == "Attributes = "@,
            rd.state() == slt_fold(ls.deep_view().take(i as int)),
        decreases ls.len() - i,
    {
        let ghost dv = ls.deep_view();
        assert(dv.take(i + 1).drop_last() == dv.take(i as int));
        assert(dv.take(i + 1).last() == ls@[i as int]@);
        let line = trim_chars(&ls[i]);
        if line.len() == 0 {
            rd.flush();
        } else if let Some(rest) = strip_prefix_of(&line, &p_path) {
            rd.flush();
            rd.path = rest;
        } else if let Some(rest) = strip_prefix_of(&line, &p_size) {
            rd.size = size_or_zero_of(&rest);
        } else if let Some(rest) = strip_prefix_of(&line, &p_packed) {
            rd.packed = size_or_zero_of(&rest);
        } else if let Some(rest) = strip_prefix_of(&line, &p_modified) {
            rd.modified = Some(string_of(&rest));
        } else if let Some(rest) = strip_prefix_of(&line, &p_attr) {
            if has_char_of(&rest, 'D') {
                rd.is_dir = true;
            }
        }
        i = i + 1;
    }
    assert(ls.deep_view().take(ls.len() as int) == ls.deep_view());
    rd.flush();
    rd.entries
}

/// The path a `7z l -slt` line names, where it is a `Path = ` line with a
/// path (the line trimmed).
pub open spec fn path_line(raw: Seq<char>) -> Option<Seq<char>> {
    match strip_prefix(trim(raw), "Path = "@) {
        Some(rest) => if rest.len() > 0 {
            Some(rest)
        } else {
            None
        },
        None => None,
    }
}

/// The paths of the entries read so far, with the pending one where it has a path.
pub open spec fn slt_paths(st: SltState) -> Seq<Seq<char>> {
    let done = st.entries.map_values(|e: EntryView| e.path);
    if st.path.len() > 0 {
        done.push(st.path)
    } else {
        done
    }
}

proof fn lemma_slt_fold_paths(ls: Seq<Seq<char>>)
    ensures
        slt_paths(slt_fold(ls)) == ls.filter_map(|l: Seq<char>| path_line(l)),
    decreases ls.len(),
{
    if ls.len() > 0 {
        lemma_slt_fold_paths(ls.drop_last());
        let st = slt_fold(ls.drop_last());
        let fl = slt_flush(st);
        assert(slt_paths(fl) =~= slt_paths(st)) by {
            if st.path.len() > 0 {
                assert(fl.entries.map_values(|e: EntryView| e.path) =~= st.entries.map_values(
                    |e: EntryView| e.path,
                ).push(st.path));
            }
        }
        let line = trim(ls.last());
        reveal_strlit("Path = ");
        reveal_strlit("Size = ");
        reveal_strlit("Packed Size = ");
        reveal_strlit("Modified = ");
        reveal_strlit("Attributes = ");
        if line.len() == 0 {
            assert(strip_prefix(line, "Path = "@) is None);
        } else if let Some(rest) = strip_prefix(line, "Path = "@) {
            let nst = slt_step(st, ls.last());
            assert(nst.entries == fl.entries);
            assert(nst.path == rest);
        } else {
            let nst = slt_step(st, ls.last());
            assert(nst.entries == st.entries && nst.path == st.path) by {
                if let Some(r) = strip_prefix(line, "Size = "@) {
                } else if let Some(r) = strip_prefix(line, "Packed Size = "@) {
                } else if let Some(r) = strip_prefix(line, "Modified = "@) {
                } else if let Some(r) = strip_prefix(line, "Attributes = "@) {
                }
            }
        }
    }
}

/// A `7z l -slt` listing has one entry per `Path = ` line that names a path,
/// in the order of the lines, whether or not blocks are separated by blank
/// lines and whether or not the text ends with one.
pub proof fn lemma_slt_one_entry_per_path_line(stdout: Seq<char>)
    ensures
        slt_listing(stdout).map_values(|e: EntryView| e.path) == lines(stdout).filter_map(
            |l: Seq<char>| path_line(l),
        ),
{
    let st = slt_fold(lines(stdout));
    lemma_slt_fold_paths(lines(stdout));
    let fl = slt_flush(st);
    if st.path.len() > 0 {
        assert(fl.entries.map_values(|e: EntryView| e.path) =~= st.entries.map_values(
            |e: EntryView| e.path,
        ).push(st.path));
    }
}

proof fn lemma_last_sep_exact(s: Seq<char>)
    ensures
        last_sep(s) matches Some(k) ==> 0 <= k < s.len() && (s[k] == '/' || s[k] == '\\') && forall|j: int|
            k < j < s.len() ==> s[j] != '/' && s[j] != '\\',
        last_sep(s) is None ==> forall|j: int| 0 <= j < s.len() ==> s[j] != '/' && s[j] != '\\',
    decreases s.len(),
{
    if s.len() > 0 && !is_sep(s.last()) {
        lemma_last_sep_exact(s.drop_last());
        assert forall|j: int| 0 <= j < s.len() - 1 implies s[j] == s.drop_last()[j] by {}
    }
}

/// A listed entry is named by the last segment of its path, `/` and `\` both
/// separating (7-Zip on Windows prints `\`): the name holds neither, ends the
/// path, and what comes before it in the path is empty or ends with a
/// separator.
pub proof fn lemma_listed_name_after_last_separator(
    path: Seq<char>,
    size: u64,
    packed: u64,
    modified: Option<Seq<char>>,
    is_dir: bool,
)
    ensures
        ({
            let n = entry_view_of(path, size, packed, modified, is_dir).name;
            &&& n.len() <= path.len()
            &&& path.skip(path.len() - n.len()) == n
            &&& forall|i: int| 0 <= i < n.len() ==> n[i] != '/' && n[i] != '\\'
            &&& (n.len() == path.len() || path[path.len() - n.len() - 1] == '/' || path[path.len() - n.len() - 1] == '\\')
        }),
{
    lemma_last_sep_exact(path);
    let n = base_name(path);
    match last_sep(path) {
        Some(k) => {
            assert(n =~= path.skip(k + 1));
            assert(path.skip(path.len() - n.len()) =~= n);
            assert forall|i: int| 0 <= i < n.len() implies n[i] != '/' && n[i] != '\\' by {
                assert(n[i] == path[k + 1 + i]);
            }
        },
        None => {
            assert(path.skip(0) =~= path);
        },
    }
}

} // verus!
