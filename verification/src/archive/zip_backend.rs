//! The native ZIP reader: which archives it takes, and the listing entry of a
//! ZIP member.
use crate::archive::hehe_backend::starts_with_bytes;
use crate::archive::seven_zip::{ArchiveEntryDto, EntryView, SevenZipAdapter};
use crate::archive::sevenz_fallback::{zip_empty_sig, zip_local_sig, zip_sig_of};
use crate::path::{extension, extension_of, file_name, file_name_of};
use crate::text::{
    append_chars, append_str, ascii_lower, ascii_lower_of, chars_of, dec, dec_of, eq_ignore_case,
    eq_ignore_case_of, replace_char, replace_char_of, string_of,
};
use std::sync::Arc;
use vstd::prelude::*;

verus! {

/// A member of a ZIP archive as the ZIP reader reports it.
pub struct ZipEntryInfo {
    pub name: String,
    pub is_dir: bool,
    pub size: u64,
    pub compressed_size: u64,
    /// Year, month, day, hour, minute, second.
    pub last_modified: Option<(u16, u8, u8, u8, u8, u8)>,
}

/// The decimal form of `n`, padded with zeros on the left to `width` digits.
pub open spec fn padded(n: nat, width: nat) -> Seq<char> {
    if dec(n).len() < width {
        Seq::new((width - dec(n).len()) as nat, |i: int| '0') + dec(n)
    } else {
        dec(n)
    }
}

fn padded_of(n: u64, width: usize) -> (res: Vec<char>)
    ensures
        res@ == padded(n as nat, width as nat),
{
    let d = dec_of(n);
    if d.len() < width {
        let mut out: Vec<char> = Vec::new();
        let k = width - d.len();
        let mut i: usize = 0;
        while i < k
            invariant
                i <= k,
                out@ == Seq::new(i as nat, |j: int| '0'),
            decreases k - i,
        {
            out.push('0');
            i = i + 1;
            assert(out@ =~= Seq::new(i as nat, |j: int| '0'));
        }
        append_chars(&mut out, &d);
        out
    } else {
        d
    }
}

/// A time as `YYYY-MM-DD HH:MM:SS`.
pub open spec fn timestamp(t: (u16, u8, u8, u8, u8, u8)) -> Seq<char> {
    padded(t.0 as nat, 4) + "-"@ + padded(t.1 as nat, 2) + "-"@ + padded(t.2 as nat, 2) + " "@
        + padded(t.3 as nat, 2) + ":"@ + padded(t.4 as nat, 2) + ":"@ + padded(t.5 as nat, 2)
}

/// The listing entry of a ZIP member: `\` read as `/`, a directory where the
/// reader says so or the name ends with `/`.
pub open spec fn zip_entry_view(info: ZipEntryInfo) -> EntryView {
    member_view(info.name@, info.is_dir, info.size, info.compressed_size, info.last_modified)
}

/// The listing entry of a ZIP member with these fields.
pub open spec fn member_view(
    raw_name: Seq<char>,
    is_dir: bool,
    size: u64,
    compressed_size: u64,
    last_modified: Option<(u16, u8, u8, u8, u8, u8)>,
) -> EntryView {
    let name = replace_char(raw_name, '\\', '/');
    EntryView {
        path: name,
        name: match file_name(name) {
            Some(n) => n,
            None => name,
        },
        size: size,
        packed_size: compressed_size,
        modified: match last_modified {
            Some(t) => Some(timestamp(t)),
            None => None,
        },
        is_dir: is_dir || (name.len() > 0 && name.last() == '/'),
        extension: match extension(name) {
            Some(e) => ascii_lower(e),
            None => Seq::empty(),
        },
    }
}

pub fn zip_entry_dto(info: ZipEntryInfo) -> (res: ArchiveEntryDto)
    ensures
        res@ == zip_entry_view(info),
{
    let name = replace_char_of(&chars_of(info.name.as_str()), '\\', '/');
    let is_dir = info.is_dir || (name.len() > 0 && name[name.len() - 1] == '/');
    let modified = match info.last_modified {
        Some(t) => {
            let mut s = padded_of(t.0 as u64, 4);
            append_str(&mut s, "-");
            append_chars(&mut s, &padded_of(t.1 as u64, 2));
            append_str(&mut s, "-");
            append_chars(&mut s, &padded_of(t.2 as u64, 2));
            append_str(&mut s, " ");
            append_chars(&mut s, &padded_of(t.3 as u64, 2));
            append_str(&mut s, ":");
            append_chars(&mut s, &padded_of(t.4 as u64, 2));
            append_str(&mut s, ":");
            append_chars(&mut s, &padded_of(t.5 as u64, 2));
            Some(string_of(&s))
        },
        None => None,
    };
    let extension = match extension_of(&name) {
        Some(e) => ascii_lower_of(&e),
        None => Vec::new(),
    };
    let base = match file_name_of(&name) {
        Some(n) => n,
        None => chars_of(string_of(&name).as_str()),
    };
    ArchiveEntryDto {
        path: string_of(&name),
        name: string_of(&base),
        size: info.size,
        packed_size: info.compressed_size,
        modified,
        is_dir,
        extension: string_of(&extension),
    }
}

/// The native ZIP reader; it falls back to 7-Zip where it fails.
pub struct ZipBackend {
    seven_zip: Arc<SevenZipAdapter>,
}

impl ZipBackend {
    pub fn new(seven_zip: Arc<SevenZipAdapter>) -> (res: Self)
        ensures
            res.adapter() == seven_zip,
    {
        ZipBackend { seven_zip }
    }

    pub closed spec fn adapter(&self) -> Arc<SevenZipAdapter> {
        self.seven_zip
    }

    /// The 7-Zip program this reader falls back to.
    pub fn seven_zip(&self) -> (res: &SevenZipAdapter)
        ensures
            *res == *self.adapter(),
    {
        &self.seven_zip
    }

    /// Whether an archive is a ZIP by both its first bytes and its extension.
    pub fn probe_magic(magic: &[u8], extension: &str) -> (res: bool)
        ensures
            res == ((starts_with_bytes(magic@, zip_local_sig()) || starts_with_bytes(
                magic@,
                zip_empty_sig(),
            )) && eq_ignore_case(extension@, "zip"@)),
    {
        zip_sig_of(magic) && eq_ignore_case_of(&chars_of(extension), &chars_of("zip"))
    }
}

/// A member name as the ZIP reader is asked for it: `\` read as `/`.
pub fn zip_member_name(entry_path: &str) -> (res: String)
    ensures
        res@ == replace_char(entry_path@, '\\', '/'),
{
    let r = replace_char_of(&chars_of(entry_path), '\\', '/');
    string_of(&r)
}

} // verus!
