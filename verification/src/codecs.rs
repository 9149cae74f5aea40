//! The outside codecs that the archive format rests on: CRC-32 (`crc32fast`),
//! zstd (`zstd`), zlib (`flate2`) and UTF-8 decoding (std).
//!
//! Every function here is trusted: Verus believes its contract. Where a result
//! takes pages to state (a compressed stream, a checksum), the contract names it
//! with a spec function of no body and states only the short facts the crate
//! documents, such as that decoding what the encoder produced gives the input back.
use std::io::Read;
use std::io::Write;
use vstd::prelude::*;
use vstd::utf8::{decode_utf8, encode_utf8, valid_utf8};

verus! {

/// The bytes of a successful result, `None` for a failure.
pub open spec fn ok_bytes(r: Result<Vec<u8>, String>) -> Option<Seq<u8>> {
    match r {
        Ok(v) => Some(v@),
        Err(_) => None,
    }
}

/// The CRC-32 (IEEE) checksum of `data`, as `crc32fast` computes it.
pub uninterp spec fn crc32_of(data: Seq<u8>) -> u32;

/// `crc32fast::Hasher::new`, one `update` with `data`, then `finalize`: the
/// result is the checksum of `data`, named `crc32_of`.
#[verifier::external_body]
pub(crate) fn crc32(data: &[u8]) -> (res: u32)
    ensures
        res == crc32_of(data@),
{
    let mut h = crc32fast::Hasher::new();
    h.update(data);
    h.finalize()
}

/// What `zstd::stream::encode_all` gives for `raw` at `level`, where it succeeds.
pub uninterp spec fn zstd_encoded(raw: Seq<u8>, level: i32) -> Option<Seq<u8>>;

/// What a `zstd::bulk::Compressor` at `level` with the `WindowLog(window_log)`
/// parameter gives for `raw`, where every step succeeds.
pub uninterp spec fn zstd_window_encoded(raw: Seq<u8>, level: i32, window_log: u32) -> Option<
    Seq<u8>,
>;

/// What `zstd::stream::decode_all` gives for `comp`, where it succeeds.
pub uninterp spec fn zstd_decoded(comp: Seq<u8>) -> Option<Seq<u8>>;

/// `zstd::stream::encode_all(raw, level)`. The result is named `zstd_encoded`;
/// zstd is lossless, so a frame it produced decodes back to `raw`. The text of
/// an error is the outside error's, and is not stated.
#[verifier::external_body]
pub(crate) fn zstd_encode(raw: &[u8], level: i32) -> (res: Result<Vec<u8>, String>)
    ensures
        ok_bytes(res) == zstd_encoded(raw@, level),
        res matches Ok(c) ==> zstd_decoded(c@) == Some(raw@),
{
    match zstd::stream::encode_all(raw, level) {
        Ok(v) => Ok(v),
        Err(e) => Err(e.to_string()),
    }
}

/// `zstd::bulk::Compressor::new(level)`, `set_parameter(CParameter::WindowLog(window_log))`
/// and `compress(raw)`. The result is named `zstd_window_encoded`. The default
/// decoder accepts windows up to 2^27 bytes, so for `window_log <= 27` the frame
/// decodes back to `raw`; beyond that nothing is claimed of decoding it.
#[verifier::external_body]
pub(crate) fn zstd_encode_window(raw: &[u8], level: i32, window_log: u32) -> (res: Result<
    Vec<u8>,
    String,
>)
    ensures
        ok_bytes(res) == zstd_window_encoded(raw@, level, window_log),
        window_log <= 27 ==> (res matches Ok(c) ==> zstd_decoded(c@) == Some(raw@)),
{
    let mut enc = match zstd::bulk::Compressor::new(level) {
        Ok(enc) => enc,
        Err(e) => return Err(e.to_string()),
    };
    if let Err(e) = enc.set_parameter(zstd::zstd_safe::CParameter::WindowLog(window_log)) {
        return Err(e.to_string());
    }
    match enc.compress(raw) {
        Ok(v) => Ok(v),
        Err(e) => Err(e.to_string()),
    }
}

/// `zstd::stream::decode_all(comp)`: its result is named `zstd_decoded`; the
/// text of an error is the outside error's, and is not stated.
#[verifier::external_body]
pub(crate) fn zstd_decode(comp: &[u8]) -> (res: Result<Vec<u8>, String>)
    ensures
        ok_bytes(res) == zstd_decoded(comp@),
{
    match zstd::stream::decode_all(comp) {
        Ok(v) => Ok(v),
        Err(e) => Err(e.to_string()),
    }
}

/// What a `flate2::write::ZlibEncoder` at `Compression::default()` gives for
/// `raw`, written whole and finished, where that succeeds.
pub uninterp spec fn zlib_encoded(raw: Seq<u8>) -> Option<Seq<u8>>;

/// What a `flate2::read::ZlibDecoder` over `comp`, read to the end, gives.
pub uninterp spec fn zlib_decoded(comp: Seq<u8>) -> Option<Seq<u8>>;

/// `ZlibEncoder::new(Vec::new(), Compression::default())`, `write_all(raw)`,
/// `finish()`. The result is named `zlib_encoded`; the zlib stream decodes back
/// to `raw`. The text of an error is not stated.
#[verifier::external_body]
pub(crate) fn zlib_encode(raw: &[u8]) -> (res: Result<Vec<u8>, String>)
    ensures
        ok_bytes(res) == zlib_encoded(raw@),
        res matches Ok(c) ==> zlib_decoded(c@) == Some(raw@),
{
    let mut enc = flate2::write::ZlibEncoder::new(Vec::new(), flate2::Compression::default());
    if let Err(e) = enc.write_all(raw) {
        return Err(e.to_string());
    }
    match enc.finish() {
        Ok(v) => Ok(v),
        Err(e) => Err(e.to_string()),
    }
}

/// `ZlibDecoder::new(comp)` read to the end: its result is named `zlib_decoded`;
/// the text of an error is not stated.
#[verifier::external_body]
pub(crate) fn zlib_decode(comp: &[u8]) -> (res: Result<Vec<u8>, String>)
    ensures
        ok_bytes(res) == zlib_decoded(comp@),
{
    let mut out: Vec<u8> = Vec::new();
    match flate2::read::ZlibDecoder::new(comp).read_to_end(&mut out) {
        Ok(_) => Ok(out),
        Err(e) => Err(e.to_string()),
    }
}

/// `String::from_utf8`: it succeeds exactly on valid UTF-8, and then the
/// string's bytes are the input. The text of an error is not stated.
#[verifier::external_body]
pub(crate) fn utf8_string(bytes: Vec<u8>) -> (res: Result<String, String>)
    ensures
        res is Ok <==> valid_utf8(bytes@),
        res matches Ok(s) ==> encode_utf8(s@) == bytes@,
{
    match String::from_utf8(bytes) {
        Ok(s) => Ok(s),
        Err(e) => Err(e.to_string()),
    }
}

/// What `String::from_utf8_lossy` gives for `bytes`.
pub uninterp spec fn utf8_lossy(bytes: Seq<u8>) -> Seq<char>;

/// `String::from_utf8_lossy(bytes).into_owned()`. The result is named
/// `utf8_lossy`; on valid UTF-8 it is the decoded text. What replaces invalid
/// sequences is not stated.
#[verifier::external_body]
pub(crate) fn lossy_string(bytes: &[u8]) -> (res: String)
    ensures
        res@ == utf8_lossy(bytes@),
        valid_utf8(bytes@) ==> res@ == decode_utf8(bytes@),
{
    String::from_utf8_lossy(bytes).into_owned()
}

} // verus!
