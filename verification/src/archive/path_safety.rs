//! Where an archive entry may be written: under the destination root, by a path
//! that no entry name can lead out of (Zip Slip) and that Windows can create.
use crate::error::AppError;
use crate::path::{
    file_name, file_name_of, components, components_of, has_parent_piece, has_parent_piece_from, has_parent_piece_of, join, join_of, segments,
    segments_of,
};
use crate::text::{
    ascii_upper, ascii_upper_of, chars_eq, chars_of, has_char, has_char_of, join_sep,
    join_sep_from, last_index, last_index_of, lemma_last_index, replace_char, replace_char_of,
    slice_chars, str_eq_chars, string_of, trim, trim_chars,
};
use vstd::prelude::*;

verus! {

/// Why an entry may not be written where it asks to be.
pub enum PathFault {
    ZipSlip(Seq<char>, Seq<char>),
    Reserved(Seq<char>),
}

/// The fault that an error reports, for the two kinds of path errors.
pub open spec fn fault_of(e: AppError) -> Option<PathFault> {
    match e {
        AppError::ArchiveZipSlip { entry, reason } => Some(PathFault::ZipSlip(entry@, reason@)),
        AppError::ArchiveReservedName(n) => Some(PathFault::Reserved(n@)),
        _ => None,
    }
}

fn zip_slip(entry: &Vec<char>, reason: &str) -> (res: AppError)
    ensures
        fault_of(res) == Some(PathFault::ZipSlip(entry@, reason@)),
{
    AppError::ArchiveZipSlip { entry: string_of(entry), reason: String::from_str(reason) }
}

/// A device name that Windows reserves, in upper case.
pub open spec fn is_reserved(u: Seq<char>) -> bool {
    ||| u == "CON"@
    ||| u == "PRN"@
    ||| u == "AUX"@
    ||| u == "NUL"@
    ||| u == "COM1"@
    ||| u == "COM2"@
    ||| u == "COM3"@
    ||| u == "COM4"@
    ||| u == "COM5"@
    ||| u == "COM6"@
    ||| u == "COM7"@
    ||| u == "COM8"@
    ||| u == "COM9"@
    ||| u == "LPT1"@
    ||| u == "LPT2"@
    ||| u == "LPT3"@
    ||| u == "LPT4"@
    ||| u == "LPT5"@
    ||| u == "LPT6"@
    ||| u == "LPT7"@
    ||| u == "LPT8"@
    ||| u == "LPT9"@
}

fn is_reserved_of(u: &Vec<char>) -> (res: bool)
    ensures
        res == is_reserved(u@),
{
    str_eq_chars("CON", u) || str_eq_chars("PRN", u) || str_eq_chars("AUX", u) || str_eq_chars(
        "NUL",
        u,
    ) || str_eq_chars("COM1", u) || str_eq_chars("COM2", u) || str_eq_chars("COM3", u)
        || str_eq_chars("COM4", u) || str_eq_chars("COM5", u) || str_eq_chars("COM6", u)
        || str_eq_chars("COM7", u) || str_eq_chars("COM8", u) || str_eq_chars("COM9", u)
        || str_eq_chars("LPT1", u) || str_eq_chars("LPT2", u) || str_eq_chars("LPT3", u)
        || str_eq_chars("LPT4", u) || str_eq_chars("LPT5", u) || str_eq_chars("LPT6", u)
        || str_eq_chars("LPT7", u) || str_eq_chars("LPT8", u) || str_eq_chars("LPT9", u)
}

/// A name without what follows its last `.`.
pub open spec fn strip_extension(name: Seq<char>) -> Seq<char> {
    match last_index(name, '.') {
        Some(k) => name.take(k),
        None => name,
    }
}

fn strip_extension_of(name: &Vec<char>) -> (res: Vec<char>)
    ensures
        res@ == strip_extension(name@),
{
    proof {
        lemma_last_index(name@, '.');
    }
    match last_index_of(name, '.') {
        Some(k) => slice_chars(name, 0, k),
        None => slice_chars(name, 0, name.len()),
    }
}

/// Whether a name ends with a dot, a space or a tab, which Windows drops.
pub open spec fn has_trailing_dot_or_space(name: Seq<char>) -> bool {
    name.len() > 0 && (name.last() == '.' || name.last() == ' ' || name.last() == '\t')
}

/// What is wrong with one path segment, if anything; `rel` is the whole
/// relative path, which the error names.
pub open spec fn segment_fault(n: Seq<char>, rel: Seq<char>) -> Option<PathFault> {
    if has_char(n, ':') {
        Some(PathFault::ZipSlip(rel, "absolute path segment"@))
    } else if has_trailing_dot_or_space(n) {
        Some(PathFault::ZipSlip(rel, "trailing dots or spaces (Windows)"@))
    } else if is_reserved(ascii_upper(strip_extension(n))) {
        Some(PathFault::Reserved(n))
    } else {
        None
    }
}

/// The first segment fault, segments taken in order.
pub open spec fn components_fault(segs: Seq<Seq<char>>, rel: Seq<char>) -> Option<PathFault>
    decreases segs.len(),
{
    if segs.len() == 0 {
        None
    } else {
        match segment_fault(segs[0], rel) {
            Some(f) => Some(f),
            None => components_fault(segs.drop_first(), rel),
        }
    }
}

fn segment_fault_of(n: &Vec<char>, rel: &Vec<char>) -> (res: Result<(), AppError>)
    ensures
        match res {
            Ok(()) => segment_fault(n@, rel@) is None,
            Err(e) => segment_fault(n@, rel@) is Some && fault_of(e) == segment_fault(n@, rel@),
        },
{
    if has_char_of(n, ':') {
        return Err(zip_slip(rel, "absolute path segment"));
    }
    if n.len() > 0 && (n[n.len() - 1] == '.' || n[n.len() - 1] == ' ' || n[n.len() - 1] == '\t') {
        return Err(zip_slip(rel, "trailing dots or spaces (Windows)"));
    }
    let stem = strip_extension_of(n);
    let upper = ascii_upper_of(&stem);
    if is_reserved_of(&upper) {
        return Err(AppError::ArchiveReservedName(string_of(n)));
    }
    Ok(())
}

/// Checks each segment of the normalized path `rel` in order.
fn validate_components(segs: &Vec<Vec<char>>, rel: &Vec<char>) -> (res: Result<(), AppError>)
    ensures
        match res {
            Ok(()) => components_fault(segs.deep_view(), rel@) is None,
            Err(e) => components_fault(segs.deep_view(), rel@) is Some && fault_of(e)
                == components_fault(segs.deep_view(), rel@),
        },
{
    let ghost dv = segs.deep_view();
    let mut i: usize = 0;
    assert(dv.skip(0) =~= dv);
    while i < segs.len()
        invariant
            i <= segs.len(),
            dv == segs.deep_view(),
            components_fault(dv, rel@) == components_fault(dv.skip(i as int), rel@),
        decreases segs.len() - i,
    {
        assert(dv.skip(i as int)[0] == segs@[i as int]@);
        assert(dv.skip(i as int).drop_first() =~= dv.skip(i + 1));
        match segment_fault_of(&segs[i], rel) {
            Ok(()) => {},
            Err(e) => return Err(e),
        }
        i = i + 1;
    }
    assert(dv.skip(segs.len() as int) =~= Seq::<Seq<char>>::empty());
    Ok(())
}

/// Whether `candidate`, taken by components, lies under `root` with no `..`
/// after it.
pub open spec fn within_root(root: Seq<char>, candidate: Seq<char>) -> bool {
    let rc = components(root);
    let cc = components(candidate);
    rc.len() <= cc.len() && cc.take(rc.len() as int) == rc && !has_parent_piece(
        cc.skip(rc.len() as int),
    )
}

/// Refuses a candidate path that is not under `root`, or that leaves it by `..`.
pub fn ensure_within_root(root: &str, candidate: &str, entry: &str) -> (res: Result<(), AppError>)
    ensures
        match res {
            Ok(()) => within_root(root@, candidate@),
            Err(e) => !within_root(root@, candidate@) && fault_of(e) == Some(
                PathFault::ZipSlip(entry@, "path escapes destination root"@),
            ),
        },
{
    let r = chars_of(root);
    let c = chars_of(candidate);
    let e = chars_of(entry);
    let rc = components_of(&r);
    let cc = components_of(&c);
    if rc.len() > cc.len() {
        return Err(zip_slip(&e, "path escapes destination root"));
    }
    let mut i: usize = 0;
    while i < rc.len()
        invariant
            i <= rc.len() <= cc.len(),
            rc.deep_view() == components(root@),
            cc.deep_view() == components(candidate@),
            e@ == entry@,
            forall|k: int| 0 <= k < i ==> #[trigger] cc.deep_view()[k] == rc.deep_view()[k],
        decreases rc.len() - i,
    {
        assert(cc.deep_view()[i as int] == cc@[i as int]@);
        assert(rc.deep_view()[i as int] == rc@[i as int]@);
        if !chars_eq(&cc[i], &rc[i]) {
            assert(cc.deep_view().take(rc.len() as int)[i as int] != rc.deep_view()[i as int]);
            assert(cc.deep_view().take(rc.len() as int) != rc.deep_view());
            return Err(zip_slip(&e, "path escapes destination root"));
        }
        i = i + 1;
    }
    assert(cc.deep_view().take(rc.len() as int) =~= rc.deep_view());
    if has_parent_piece_from(&cc, rc.len()) {
        return Err(zip_slip(&e, "path escapes destination root"));
    }
    Ok(())
}

/// The segments of an entry path: trimmed, `\` read as `/`, empty and `.`
/// pieces dropped.
pub open spec fn entry_segments(entry: Seq<char>) -> Seq<Seq<char>> {
    segments(replace_char(trim(entry), '\\', '/'))
}

/// Where the entry `entry` is written under the destination root `root`, or why
/// it is refused.
pub open spec fn safe_extract_path(root: Seq<char>, entry: Seq<char>) -> Result<Seq<char>, PathFault> {
    if has_char(entry, '\0') {
        Err(PathFault::ZipSlip(entry, "null byte in path"@))
    } else if trim(entry).len() == 0 {
        Err(PathFault::ZipSlip(entry, "empty entry path"@))
    } else if has_parent_piece(entry_segments(entry)) {
        Err(PathFault::ZipSlip(entry, "parent traversal (..)"@))
    } else if entry_segments(entry).len() == 0 {
        Err(PathFault::ZipSlip(entry, "path resolves to root"@))
    } else {
        let rel = join_sep(entry_segments(entry), seq!['/']);
        match components_fault(entry_segments(entry), rel) {
            Some(f) => Err(f),
            None => if within_root(root, join(root, rel)) {
                Ok(join(root, rel))
            } else {
                Err(PathFault::ZipSlip(entry, "path escapes destination root"@))
            },
        }
    }
}

/// The path under the destination root `dest_root` (already absolute and
/// canonical) at which the archive entry `entry_path` is written, or why it may
/// not be written.
pub fn resolve_safe_extract_path(dest_root: &str, entry_path: &str) -> (res: Result<String, AppError>)
    ensures
        match res {
            Ok(p) => safe_extract_path(dest_root@, entry_path@) == Ok::<Seq<char>, PathFault>(p@),
            Err(e) => safe_extract_path(dest_root@, entry_path@) matches Err(f) && fault_of(e)
                == Some(f),
        },
{
    let entry = chars_of(entry_path);
    if has_char_of(&entry, '\0') {
        return Err(zip_slip(&entry, "null byte in path"));
    }
    let trimmed = trim_chars(&entry);
    if trimmed.len() == 0 {
        return Err(zip_slip(&entry, "empty entry path"));
    }
    let slashed = replace_char_of(&trimmed, '\\', '/');
    let segs = segments_of(&slashed);
    if has_parent_piece_of(&segs) {
        return Err(zip_slip(&entry, "parent traversal (..)"));
    }
    if segs.len() == 0 {
        return Err(zip_slip(&entry, "path resolves to root"));
    }
    let mut slash: Vec<char> = Vec::new();
    slash.push('/');
    assert(slash@ == seq!['/']);
    let rel = join_sep_from(&segs, 0, &slash);
    assert(segs.deep_view().skip(0) =~= segs.deep_view());
    match validate_components(&segs, &rel) {
        Ok(()) => {},
        Err(e) => return Err(e),
    }
    let root = chars_of(dest_root);
    let joined = join_of(&root, &rel);
    let joined_str = string_of(&joined);
    match ensure_within_root(dest_root, joined_str.as_str(), entry_path) {
        Ok(()) => Ok(joined_str),
        Err(e) => Err(e),
    }
}

/// The message of a path error, as the user sees it.
pub open spec fn fault_message(f: PathFault) -> Seq<char> {
    match f {
        PathFault::ZipSlip(entry, reason) => "Zip Slip: "@ + entry + " — "@ + reason,
        PathFault::Reserved(n) => "Зарезервированное имя Windows: "@ + n,
    }
}

/// The path, relative to the destination, under which an entry is written:
/// its whole path with `\` separators where paths are kept, else its file name.
pub open spec fn relative_out(path: Seq<char>, preserve: bool) -> Seq<char> {
    if preserve {
        replace_char(path, '/', '\\')
    } else {
        match file_name(path) {
            Some(n) => n,
            None => path,
        }
    }
}

pub fn relative_out_path(path: &str, preserve: bool) -> (res: String)
    ensures
        res@ == relative_out(path@, preserve),
{
    let p = chars_of(path);
    if preserve {
        let r = replace_char_of(&p, '/', '\\');
        string_of(&r)
    } else {
        match file_name_of(&p) {
            Some(n) => string_of(&n),
            None => string_of(&p),
        }
    }
}

/// An accepted entry path lies under the destination root: the root's
/// components start the result's, and none after them is `..`.
pub proof fn lemma_resolved_within_root(root: Seq<char>, entry: Seq<char>)
    ensures
        safe_extract_path(root, entry) matches Ok(p) ==> within_root(root, p),
{
}

/// An entry path with a `..` segment, or a NUL character, is always refused,
/// whatever the destination root.
pub proof fn lemma_traversal_refused(root: Seq<char>, entry: Seq<char>)
    requires
        has_parent_piece(entry_segments(entry)) || has_char(entry, '\0'),
    ensures
        safe_extract_path(root, entry) is Err,
{
}

/// Which entry paths are accepted, and where they go: exactly those with no
/// NUL, not blank, whose segments (split on `/` and `\\`, leaving out empty
/// ones and `.`) are not empty, hold no `..`, break none of the segment rules
/// (no `:`, no trailing dot or blank, no reserved Windows name), and whose
/// joined path stays under the root; the result is the root joined with the
/// segments.
pub proof fn lemma_accepted_exactly(root: Seq<char>, entry: Seq<char>)
    ensures
        safe_extract_path(root, entry) is Ok <==> {
            let segs = entry_segments(entry);
            let rel = join_sep(segs, seq!['/']);
            &&& !has_char(entry, '\0')
            &&& trim(entry).len() > 0
            &&& segs.len() > 0
            &&& !has_parent_piece(segs)
            &&& components_fault(segs, rel) is None
            &&& within_root(root, join(root, rel))
        },
        safe_extract_path(root, entry) matches Ok(p) ==> p == join(
            root,
            join_sep(entry_segments(entry), seq!['/']),
        ),
{
}

} // verus!
