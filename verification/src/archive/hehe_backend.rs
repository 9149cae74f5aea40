//! The reader for HEHE archives: recognising them, and where their entries go.
use crate::archive::backend::SkippedEntry;
use crate::archive::hehe_format::{is_hehe_head, HeheFormat};
use crate::archive::path_safety::{
    fault_of, relative_out, relative_out_path, resolve_safe_extract_path, safe_extract_path,
    PathFault,
};
use crate::error::{error_message, AppError};
use crate::text::{chars_of, eq_ignore_case, eq_ignore_case_of};
use vstd::prelude::*;

verus! {

/// Whether bytes begin with `prefix`.
pub open spec fn starts_with_bytes(b: Seq<u8>, prefix: Seq<u8>) -> bool {
    prefix.len() <= b.len() && b.take(prefix.len() as int) == prefix
}

pub fn starts_with_bytes_of(b: &[u8], prefix: &[u8]) -> (res: bool)
    ensures
        res == starts_with_bytes(b@, prefix@),
{
    if prefix.len() > b.len() {
        return false;
    }
    let mut i: usize = 0;
    while i < prefix.len()
        invariant
            i <= prefix@.len() <= b@.len(),
            forall|j: int| 0 <= j < i ==> b@[j] == prefix@[j],
        decreases prefix.len() - i,
    {
        if b[i] != prefix[i] {
            assert(b@.take(prefix@.len() as int)[i as int] != prefix@[i as int]);
            return false;
        }
        i = i + 1;
    }
    assert(b@.take(prefix@.len() as int) =~= prefix@);
    true
}

/// The reader of HEHE archives.
pub struct HeheBackend;

impl HeheBackend {
    /// Whether the first bytes or the extension mark a HEHE archive.
    pub fn probe_magic(magic: &[u8], extension: &str) -> (res: bool)
        ensures
            res == (starts_with_bytes(magic@, seq![72u8, 69u8, 72u8, 69u8]) || eq_ignore_case(
                extension@,
                "hehe"@,
            )),
    {
        let sig: [u8; 4] = [72u8, 69u8, 72u8, 69u8];
        assert(sig@ =~= seq![72u8, 69u8, 72u8, 69u8]);
        starts_with_bytes_of(magic, &sig) || eq_ignore_case_of(&chars_of(extension), &chars_of("hehe"))
    }

    /// Whether the first bytes of a file are the HEHE magic.
    pub fn probe(head: &[u8]) -> (res: bool)
        ensures
            res == is_hehe_head(head@),
    {
        HeheFormat::probe(head)
    }
}

/// Where an entry is written under the destination root (absolute and
/// canonical): its whole path where paths are kept, else its file name, made
/// safe.
pub fn safe_out_path(destination: &str, entry_path: &str, preserve_paths: bool) -> (res: Result<
    String,
    AppError,
>)
    ensures
        match res {
            Ok(p) => safe_extract_path(destination@, relative_out(entry_path@, preserve_paths))
                == Ok::<Seq<char>, PathFault>(p@),
            Err(e) => safe_extract_path(destination@, relative_out(entry_path@, preserve_paths)) matches Err(
                f,
            ) && fault_of(e) == Some(f),
        },
{
    let relative = relative_out_path(entry_path, preserve_paths);
    resolve_safe_extract_path(destination, relative.as_str())
}

/// Why an entry was left out: the error's message.
pub fn skip_reason(err: &AppError) -> (res: String)
    ensures
        res@ == error_message(*err),
{
    err.message()
}

/// The entry left out for `err`.
pub fn skipped(entry_path: &str, err: AppError) -> (res: SkippedEntry)
    ensures
        res@ == (entry_path@, error_message(err)),
{
    SkippedEntry { path: String::from_str(entry_path), reason: skip_reason(&err) }
}

} // verus!
