//! The reader that hands archives to 7-Zip: which archives it takes.
use crate::archive::hehe_backend::{starts_with_bytes, starts_with_bytes_of};
use crate::archive::seven_zip::SevenZipAdapter;
use crate::text::{ascii_lower, ascii_lower_of, chars_of, str_eq_chars};
use std::sync::Arc;
use vstd::prelude::*;

verus! {

/// The first bytes of a ZIP local file header, and of an empty ZIP.
pub open spec fn zip_local_sig() -> Seq<u8> {
    seq![0x50u8, 0x4Bu8, 0x03u8, 0x04u8]
}

pub open spec fn zip_empty_sig() -> Seq<u8> {
    seq![0x50u8, 0x4Bu8, 0x05u8, 0x06u8]
}

/// The first bytes of a 7z archive.
pub open spec fn sevenz_sig() -> Seq<u8> {
    seq![0x37u8, 0x7Au8, 0xBCu8, 0xAFu8, 0x27u8, 0x1Cu8]
}

/// The first bytes of a RAR archive.
pub open spec fn rar_sig() -> Seq<u8> {
    seq![0x52u8, 0x61u8, 0x72u8, 0x21u8, 0x1Au8, 0x07u8]
}

pub fn zip_sig_of(magic: &[u8]) -> (res: bool)
    ensures
        res == (starts_with_bytes(magic@, zip_local_sig()) || starts_with_bytes(magic@, zip_empty_sig())),
{
    let a: [u8; 4] = [0x50u8, 0x4Bu8, 0x03u8, 0x04u8];
    let b: [u8; 4] = [0x50u8, 0x4Bu8, 0x05u8, 0x06u8];
    assert(a@ =~= zip_local_sig());
    assert(b@ =~= zip_empty_sig());
    starts_with_bytes_of(magic, &a) || starts_with_bytes_of(magic, &b)
}

/// The reader that runs 7-Zip.
pub struct SevenZFallbackBackend {
    seven_zip: Arc<SevenZipAdapter>,
}

impl SevenZFallbackBackend {
    pub fn new(seven_zip: Arc<SevenZipAdapter>) -> (res: Self)
        ensures
            res.adapter() == seven_zip,
    {
        SevenZFallbackBackend { seven_zip }
    }

    pub closed spec fn adapter(&self) -> Arc<SevenZipAdapter> {
        self.seven_zip
    }

    /// The 7-Zip program this reader runs.
    pub fn seven_zip(&self) -> (res: &SevenZipAdapter)
        ensures
            *res == *self.adapter(),
    {
        &self.seven_zip
    }

    /// Whether the first bytes (a ZIP, 7z or RAR signature) or the extension
    /// (`zip`, `rar`, `7z`, `tar`, `gz`, in any case) mark an archive 7-Zip reads.
    pub fn probe_magic(magic: &[u8], extension: &str) -> (res: bool)
        ensures
            res == (starts_with_bytes(magic@, zip_local_sig()) || starts_with_bytes(magic@, zip_empty_sig())
                || starts_with_bytes(magic@, sevenz_sig()) || (magic@.len() >= 7 && magic@.take(6)
                == rar_sig()) || ascii_lower(extension@) == "zip"@ || ascii_lower(extension@) == "rar"@
                || ascii_lower(extension@) == "7z"@ || ascii_lower(extension@) == "tar"@ || ascii_lower(
                extension@,
            ) == "gz"@),
    {
        if zip_sig_of(magic) {
            return true;
        }
        let s: [u8; 6] = [0x37u8, 0x7Au8, 0xBCu8, 0xAFu8, 0x27u8, 0x1Cu8];
        assert(s@ =~= sevenz_sig());
        if starts_with_bytes_of(magic, &s) {
            return true;
        }
        if magic.len() >= 7 {
            let r: [u8; 6] = [0x52u8, 0x61u8, 0x72u8, 0x21u8, 0x1Au8, 0x07u8];
            assert(r@ =~= rar_sig());
            if starts_with_bytes_of(magic, &r) {
                return true;
            }
        }
        let ext = ascii_lower_of(&chars_of(extension));
        str_eq_chars("zip", &ext) || str_eq_chars("rar", &ext) || str_eq_chars("7z", &ext)
            || str_eq_chars("tar", &ext) || str_eq_chars("gz", &ext)
    }
}

} // verus!
