//! What a listing of an archive holds, how extraction is asked for, and the
//! command lines given to the 7-Zip program.
use crate::archive::extract_cache::session_out_path;
use crate::archive::hehe_paths::strings_view;
use crate::error::{is_validation_error, AppError, AppResult};
use crate::path::{extension, extension_of};
use crate::text::{append_str, ascii_lower, ascii_lower_of, chars_of, str_eq_chars, string_of};
use vstd::prelude::*;

pub use crate::archive::extract_cache::part_path_for;

verus! {

/// One entry of an archive listing.
#[derive(Debug, Clone, PartialEq, Eq, Hash)]
pub struct ArchiveEntryDto {
    pub path: String,
    pub name: String,
    pub size: u64,
    pub packed_size: u64,
    pub modified: Option<String>,
    pub is_dir: bool,
    pub extension: String,
}

/// An archive entry as plain values.
pub struct EntryView {
    pub path: Seq<char>,
    pub name: Seq<char>,
    pub size: u64,
    pub packed_size: u64,
    pub modified: Option<Seq<char>>,
    pub is_dir: bool,
    pub extension: Seq<char>,
}

pub open spec fn opt_view(o: Option<String>) -> Option<Seq<char>> {
    match o {
        Some(s) => Some(s@),
        None => None,
    }
}

impl View for ArchiveEntryDto {
    type V = EntryView;

    open spec fn view(&self) -> EntryView {
        EntryView {
            path: self.path@,
            name: self.name@,
            size: self.size,
            packed_size: self.packed_size,
            modified: opt_view(self.modified),
            is_dir: self.is_dir,
            extension: self.extension@,
        }
    }
}

/// The views of a sequence of entries.
pub open spec fn entries_view(v: Seq<ArchiveEntryDto>) -> Seq<EntryView> {
    v.map_values(|e: ArchiveEntryDto| e@)
}

/// What to do with a file that already exists at the destination.
#[derive(Debug, Clone, Copy, PartialEq, Eq)]
pub enum OverwriteMode {
    Ask,
    Skip,
    Replace,
}

/// The overwrite mode the UI names: `skip`, `replace`, anything else asks.
pub fn overwrite_mode_of(name: &str) -> (res: OverwriteMode)
    ensures
        res == if name@ == "skip"@ {
            OverwriteMode::Skip
        } else if name@ == "replace"@ {
            OverwriteMode::Replace
        } else {
            OverwriteMode::Ask
        },
{
    let n = chars_of(name);
    if str_eq_chars("skip", &n) {
        OverwriteMode::Skip
    } else if str_eq_chars("replace", &n) {
        OverwriteMode::Replace
    } else {
        OverwriteMode::Ask
    }
}

/// How entries are written out.
#[derive(Debug, Clone)]
pub struct ExtractOptions {
    pub preserve_paths: bool,
    pub overwrite: OverwriteMode,
    pub extensions_filter: Option<Vec<String>>,
}

/// The extensions that extraction keeps by default.
pub open spec fn default_filter() -> Seq<Seq<char>> {
    seq!["stl"@, "obj"@, "zip"@, "rar"@, "7z"@]
}

impl Default for ExtractOptions {
    fn default() -> (res: Self)
        ensures
            res.preserve_paths,
            res.overwrite == OverwriteMode::Ask,
            res.extensions_filter matches Some(f) && f@.map_values(|s: String| s@)
                == default_filter(),
    {
        let mut f: Vec<String> = Vec::new();
        f.push(String::from_str("stl"));
        f.push(String::from_str("obj"));
        f.push(String::from_str("zip"));
        f.push(String::from_str("rar"));
        f.push(String::from_str("7z"));
        assert(f@.map_values(|s: String| s@) =~= default_filter());
        ExtractOptions {
            preserve_paths: true,
            overwrite: OverwriteMode::Ask,
            extensions_filter: Some(f),
        }
    }
}


/// The 7-Zip program that reads and writes ZIP, RAR, 7z and other archives.
pub struct SevenZipAdapter {
    seven_zip_path: String,
}

impl SevenZipAdapter {
    /// The adapter for the 7-Zip program at `seven_zip_path`.
    pub fn with_path(seven_zip_path: String) -> (res: Self)
        ensures
            res.program()@ == seven_zip_path@,
    {
        SevenZipAdapter { seven_zip_path }
    }

    pub closed spec fn program(&self) -> String {
        self.seven_zip_path
    }

    /// Where the 7-Zip program is.
    pub fn seven_zip_path(&self) -> (res: &str)
        ensures
            res@ == self.program()@,
    {
        self.seven_zip_path.as_str()
    }
}

/// Whether a path's extension (in any case) is one 7-Zip is asked to open.
pub open spec fn is_sevenz_path(path: Seq<char>) -> bool {
    let ext = match extension(path) {
        Some(e) => ascii_lower(e),
        None => Seq::empty(),
    };
    ext == "zip"@ || ext == "rar"@ || ext == "7z"@ || ext == "tar"@ || ext == "gz"@
}

impl SevenZipAdapter {
    /// Whether 7-Zip is asked to open a path: an existing file (`is_file`)
    /// with one of its extensions.
    pub fn probe(&self, path: &str, is_file: bool) -> (res: AppResult<bool>)
        ensures
            res == Ok::<bool, AppError>(is_file && is_sevenz_path(path@)),
    {
        if !is_file {
            return Ok(false);
        }
        Ok(is_sevenz_path_of(path))
    }
}

pub fn is_sevenz_path_of(path: &str) -> (res: bool)
    ensures
        res == is_sevenz_path(path@),
{
    let p = chars_of(path);
    let ext = match extension_of(&p) {
        Some(e) => ascii_lower_of(&e),
        None => Vec::new(),
    };
    str_eq_chars("zip", &ext) || str_eq_chars("rar", &ext) || str_eq_chars("7z", &ext)
        || str_eq_chars("tar", &ext) || str_eq_chars("gz", &ext)
}

fn push_str(v: &mut Vec<String>, s: &str)
    ensures
        strings_view(final(v)@) == strings_view(old(v)@).push(s@),
{
    let ghost old_v = old(v)@;
    v.push(String::from_str(s));
    assert(strings_view(v@) =~= strings_view(old_v).push(s@));
}

fn push_all(v: &mut Vec<String>, items: &[String])
    ensures
        strings_view(final(v)@) == strings_view(old(v)@) + strings_view(items@),
{
    let mut i: usize = 0;
    while i < items.len()
        invariant
            i <= items@.len(),
            strings_view(v@) == strings_view(old(v)@) + strings_view(items@).take(i as int),
        decreases items@.len() - i,
    {
        let ghost before = v@;
        v.push(items[i].clone());
        assert(strings_view(v@) =~= strings_view(before).push(items@[i as int]@));
        assert(strings_view(items@).take(i + 1) =~= strings_view(items@).take(i as int).push(
            items@[i as int]@,
        ));
        i = i + 1;
    }
    assert(strings_view(items@).take(items@.len() as int) =~= strings_view(items@));
}

/// The flag that tells 7-Zip what to do with files that exist.
pub open spec fn overwrite_flag(m: OverwriteMode) -> Seq<char> {
    match m {
        OverwriteMode::Skip => "-aos"@,
        OverwriteMode::Replace => "-aoa"@,
        OverwriteMode::Ask => "-aou"@,
    }
}

/// The arguments of `7z x` for extracting `entries` (all where none) of an
/// archive into `destination`.
pub open spec fn extract_args_spec(
    archive: Seq<char>,
    destination: Seq<char>,
    entries: Seq<Seq<char>>,
    overwrite: OverwriteMode,
    preserve_paths: bool,
) -> Seq<Seq<char>> {
    seq!["x"@, archive, "-o"@ + destination, "-mmt=on"@, overwrite_flag(overwrite)] + (if preserve_paths {
        Seq::empty()
    } else {
        seq!["-e"@]
    }) + (if entries.len() == 0 {
        seq!["-r"@]
    } else {
        entries
    })
}

pub fn extract_args(archive: &str, destination: &str, entries: &[String], options: &ExtractOptions) -> (res:
    Vec<String>)
    ensures
        strings_view(res@) == extract_args_spec(
            archive@,
            destination@,
            strings_view(entries@),
            options.overwrite,
            options.preserve_paths,
        ),
{
    let mut args: Vec<String> = Vec::new();
    push_str(&mut args, "x");
    push_str(&mut args, archive);
    let mut o = chars_of("-o");
    append_str(&mut o, destination);
    let os = string_of(&o);
    push_str(&mut args, os.as_str());
    push_str(&mut args, "-mmt=on");
    match options.overwrite {
        OverwriteMode::Skip => push_str(&mut args, "-aos"),
        OverwriteMode::Replace => push_str(&mut args, "-aoa"),
        OverwriteMode::Ask => push_str(&mut args, "-aou"),
    }
    if !options.preserve_paths {
        push_str(&mut args, "-e");
    }
    if entries.len() == 0 {
        push_str(&mut args, "-r");
    } else {
        push_all(&mut args, entries);
    }
    proof {
        let base = seq!["x"@, archive@, "-o"@ + destination@, "-mmt=on"@, overwrite_flag(options.overwrite)];
        let mid: Seq<Seq<char>> = if options.preserve_paths {
            Seq::empty()
        } else {
            seq!["-e"@]
        };
        let tail: Seq<Seq<char>> = if entries@.len() == 0 {
            seq!["-r"@]
        } else {
            strings_view(entries@)
        };
        assert(strings_view(args@) =~= base + mid + tail);
    }
    args
}

/// The archive type flag for creating `output`: `.7z` or `.zip` only.
pub open spec fn create_type_flag_spec(output: Seq<char>) -> Option<Seq<char>> {
    let ext = match extension(output) {
        Some(e) => ascii_lower(e),
        None => Seq::empty(),
    };
    if ext == "7z"@ {
        Some("-t7z"@)
    } else if ext == "zip"@ {
        Some("-tzip"@)
    } else {
        None
    }
}

pub fn create_type_flag(output: &str) -> (res: AppResult<String>)
    ensures
        match res {
            Ok(f) => create_type_flag_spec(output@) == Some(f@),
            Err(e) => create_type_flag_spec(output@) is None && is_validation_error(
                e,
                "Создание архива поддерживается только для .zip и .7z"@,
            ),
        },
{
    let p = chars_of(output);
    let ext = match extension_of(&p) {
        Some(e) => ascii_lower_of(&e),
        None => Vec::new(),
    };
    if str_eq_chars("7z", &ext) {
        Ok(String::from_str("-t7z"))
    } else if str_eq_chars("zip", &ext) {
        Ok(String::from_str("-tzip"))
    } else {
        Err(AppError::Validation(String::from_str("Создание архива поддерживается только для .zip и .7z")))
    }
}

/// The arguments of `7z a` for creating `output` of the given files.
pub fn create_args(type_flag: &str, output: &str, file_paths: &[String]) -> (res: Vec<String>)
    ensures
        strings_view(res@) == seq!["a"@, type_flag@, "-aoa"@, output@] + strings_view(file_paths@),
{
    let mut args: Vec<String> = Vec::new();
    push_str(&mut args, "a");
    push_str(&mut args, type_flag);
    push_str(&mut args, "-aoa");
    push_str(&mut args, output);
    push_all(&mut args, file_paths);
    assert(strings_view(args@) =~= seq!["a"@, type_flag@, "-aoa"@, output@] + strings_view(file_paths@));
    args
}

/// The arguments for extracting entries into a staging folder: `x` keeping
/// paths, else `e`.
pub fn extract_dir_args(archive: &str, staging: &str, entries: &[String], preserve_paths: bool) -> (res:
    Vec<String>)
    ensures
        strings_view(res@) == seq![
            if preserve_paths { "x"@ } else { "e"@ },
            "-y"@,
            "-aoa"@,
            "-mmt=on"@,
            archive@,
            "-o"@ + staging@,
        ] + strings_view(entries@),
{
    let mut args: Vec<String> = Vec::new();
    if preserve_paths {
        push_str(&mut args, "x");
    } else {
        push_str(&mut args, "e");
    }
    push_str(&mut args, "-y");
    push_str(&mut args, "-aoa");
    push_str(&mut args, "-mmt=on");
    push_str(&mut args, archive);
    let mut o = chars_of("-o");
    append_str(&mut o, staging);
    let os = string_of(&o);
    push_str(&mut args, os.as_str());
    push_all(&mut args, entries);
    assert(strings_view(args@) =~= seq![
        if preserve_paths { "x"@ } else { "e"@ },
        "-y"@,
        "-aoa"@,
        "-mmt=on"@,
        archive@,
        "-o"@ + staging@,
    ] + strings_view(entries@));
    args
}

/// Where 7-Zip leaves an entry in a staging folder.
pub fn staging_candidate(staging: &str, entry_path: &str, preserve_paths: bool) -> (res: String)
    ensures
        res@ == crate::archive::extract_cache::out_path_under(staging@, entry_path@, preserve_paths),
{
    session_out_path(staging, entry_path, preserve_paths)
}

} // verus!
