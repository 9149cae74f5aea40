//! Which reader serves an archive.
use crate::archive::backend::BackendKind;
use crate::archive::hehe_backend::{starts_with_bytes, HeheBackend};
use crate::archive::sevenz_fallback::{zip_empty_sig, zip_local_sig, SevenZFallbackBackend};
use crate::archive::seven_zip::{is_sevenz_path, SevenZipAdapter};
use crate::archive::zip_backend::ZipBackend;
use crate::error::{AppError, AppResult};
use crate::path::{extension, extension_of};
use crate::text::{ascii_lower, ascii_lower_of, chars_of, eq_ignore_case, string_of};
use vstd::prelude::*;

verus! {

/// The lower-cased extension of a path, empty where it has none.
pub open spec fn probe_extension_spec(path: Seq<char>) -> Seq<char> {
    match extension(path) {
        Some(e) => ascii_lower(e),
        None => Seq::empty(),
    }
}

pub fn probe_extension(path: &str) -> (res: String)
    ensures
        res@ == probe_extension_spec(path@),
{
    let p = chars_of(path);
    match extension_of(&p) {
        Some(e) => string_of(&ascii_lower_of(&e)),
        None => String::new(),
    }
}

/// The reader for an archive whose first bytes are `magic` and whose extension
/// is `extension`: HEHE where the bytes or the extension say so, or else where
/// a probe of the file (`hehe_probe`) does (its error is passed on); the
/// native ZIP reader for ZIPs where it is enabled; else 7-Zip.
pub open spec fn backend_for(magic: Seq<u8>, extension: Seq<char>, hehe_probe: Result<bool, AppError>, zip_native: bool) -> Result<BackendKind, AppError> {
    if starts_with_bytes(magic, seq![72u8, 69u8, 72u8, 69u8]) || eq_ignore_case(extension, "hehe"@) {
        Ok(BackendKind::Hehe)
    } else {
        match hehe_probe {
            Err(e) => Err(e),
            Ok(true) => Ok(BackendKind::Hehe),
            Ok(false) => if zip_native && (starts_with_bytes(magic, zip_local_sig()) || starts_with_bytes(
                magic,
                zip_empty_sig(),
            )) && eq_ignore_case(extension, "zip"@) {
                Ok(BackendKind::Zip)
            } else {
                Ok(BackendKind::SevenZ)
            },
        }
    }
}

/// Which reader serves an archive (see `backend_for`); `hehe_probe` is what
/// probing the file for the HEHE magic gave.
pub fn probe_and_create(magic: &[u8], extension: &str, hehe_probe: AppResult<bool>, zip_native: bool) -> (res: AppResult<BackendKind>)
    ensures
        res == backend_for(magic@, extension@, hehe_probe, zip_native),
{
    if HeheBackend::probe_magic(magic, extension) {
        return Ok(BackendKind::Hehe);
    }
    match hehe_probe {
        Err(e) => Err(e),
        Ok(true) => Ok(BackendKind::Hehe),
        Ok(false) => {
            if zip_native && ZipBackend::probe_magic(magic, extension) {
                Ok(BackendKind::Zip)
            } else {
                Ok(BackendKind::SevenZ)
            }
        },
    }
}

/// Whether a path is an archive this program reads: a HEHE archive by its
/// magic (`hehe_probe`, whose error is passed on), else an existing file
/// (`is_file`) with an extension 7-Zip opens.
pub fn probe_archive(path: &str, is_file: bool, hehe_probe: AppResult<bool>, seven_zip: &SevenZipAdapter) -> (res: AppResult<bool>)
    ensures
        res == match hehe_probe {
            Err(e) => Err(e),
            Ok(true) => Ok(true),
            Ok(false) => Ok(is_file && is_sevenz_path(path@)),
        },
{
    match hehe_probe {
        Err(e) => Err(e),
        Ok(true) => Ok(true),
        Ok(false) => seven_zip.probe(path, is_file),
    }
}

} // verus!
