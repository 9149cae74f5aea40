//! SHA-256 digests (`sha2`), written as lower-case hex. Trusted.
use sha2::Digest;
use vstd::prelude::*;

verus! {

/// The SHA-256 digest of `data` as 64 lower-case hex digits.
pub uninterp spec fn sha256_hex_of(data: Seq<u8>) -> Seq<char>;

/// Whether a character is a lower-case hex digit.
pub open spec fn is_lower_hex(c: char) -> bool {
    ('0' <= c && c <= '9') || ('a' <= c && c <= 'f')
}

/// `Sha256::new()`, one `update` with `data`, `finalize()`, written with
/// `format!("{:x}", ..)`. The result is named `sha256_hex_of`; it is 64
/// lower-case hex digits (the digest is 32 bytes, `{:x}` writes two digits each).
#[verifier::external_body]
pub(crate) fn sha256_hex(data: &[u8]) -> (res: String)
    ensures
        res@ == sha256_hex_of(data@),
        res@.len() == 64,
        forall|i: int| 0 <= i < res@.len() ==> is_lower_hex(#[trigger] res@[i]),
{
    let mut hasher = sha2::Sha256::new();
    hasher.update(data);
    format!("{:x}", hasher.finalize())
}

/// The SHA-256 digest of `data`, as its 32 bytes.
pub uninterp spec fn sha256_of(data: Seq<u8>) -> Seq<u8>;

/// `Sha256::digest(data)`, as a vector: the result is named `sha256_of`; it
/// is 32 bytes long.
#[verifier::external_body]
pub(crate) fn sha256_digest(data: &[u8]) -> (res: Vec<u8>)
    ensures
        res@ == sha256_of(data@),
        res@.len() == 32,
{
    sha2::Sha256::digest(data).to_vec()
}

} // verus!
