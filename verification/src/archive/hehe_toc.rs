//! The byte layout of a HEHE archive: a 32-byte header, the entries' data one
//! after another, then the table of contents (TOC).
//!
//! Header: `HEHE`, version (u16), flags (u16), TOC offset (u64), TOC count (u32),
//! twelve reserved bytes; all integers little-endian. Each TOC entry: path
//! length (u16), the path in UTF-8, method (u8), CRC-32 of the raw data (u32),
//! compressed size, raw size and data offset (u64 each).
use crate::archive::hehe_format::HeheCompression;
use crate::archive::hehe_paths::{normalize_entry_chars, normalized_entry};
use crate::path::{extension, extension_of};
use crate::codecs::{
    crc32, crc32_of, ok_bytes, utf8_string, zlib_decode, zlib_decoded, zlib_encode, zlib_encoded,
    zstd_decode, zstd_decoded, zstd_encode, zstd_encode_window, zstd_encoded,
    zstd_window_encoded,
};
use crate::error::{archive_error, archive_error_str, is_archive_error, AppError, AppResult};
use crate::text::{ascii_lower, ascii_lower_of, chars_eq, chars_of, dec, dec_of};
use vstd::bytes::*;
use vstd::prelude::*;
use vstd::slice::{slice_subrange, slice_to_vec};
use vstd::utf8::*;

verus! {

pub const VERSION: u16 = 1;

pub const HEADER_SIZE: u64 = 32;

pub const METHOD_STORE: u8 = 0;

pub const METHOD_DEFLATE: u8 = 1;

pub const METHOD_ZSTD: u8 = 2;

/// `HEHE`.
pub open spec fn magic_bytes() -> Seq<u8> {
    seq![72u8, 69u8, 72u8, 69u8]
}

pub open spec fn zeros(n: nat) -> Seq<u8> {
    Seq::new(n, |i: int| 0u8)
}

/// The archive header as plain values.
pub struct HeaderView {
    pub magic: Seq<u8>,
    pub version: u16,
    pub flags: u16,
    pub toc_offset: u64,
    pub toc_count: u32,
}

/// The archive header.
pub struct FileHeader {
    pub magic: Vec<u8>,
    pub version: u16,
    pub flags: u16,
    pub toc_offset: u64,
    pub toc_count: u32,
}

impl View for FileHeader {
    type V = HeaderView;

    open spec fn view(&self) -> HeaderView {
        HeaderView {
            magic: self.magic@,
            version: self.version,
            flags: self.flags,
            toc_offset: self.toc_offset,
            toc_count: self.toc_count,
        }
    }
}

/// The 32 bytes of a header.
pub open spec fn header_bytes(h: HeaderView) -> Seq<u8> {
    h.magic + spec_u16_to_le_bytes(h.version) + spec_u16_to_le_bytes(h.flags)
        + spec_u64_to_le_bytes(h.toc_offset) + spec_u32_to_le_bytes(h.toc_count) + zeros(12)
}

/// The header at the start of `b`, where `b` holds at least 32 bytes.
pub open spec fn parse_header(b: Seq<u8>) -> Option<HeaderView> {
    if b.len() < 32 {
        None
    } else {
        Some(
            HeaderView {
                magic: b.subrange(0, 4),
                version: spec_u16_from_le_bytes(b.subrange(4, 6)),
                flags: spec_u16_from_le_bytes(b.subrange(6, 8)),
                toc_offset: spec_u64_from_le_bytes(b.subrange(8, 16)),
                toc_count: spec_u32_from_le_bytes(b.subrange(16, 20)),
            },
        )
    }
}

proof fn lemma_header_len(h: HeaderView)
    requires
        h.magic.len() == 4,
    ensures
        header_bytes(h).len() == 32,
{
    lemma_auto_spec_u16_to_from_le_bytes();
    lemma_auto_spec_u32_to_from_le_bytes();
    lemma_auto_spec_u64_to_from_le_bytes();
    assert(spec_u16_to_le_bytes(h.version).len() == 2);
    assert(spec_u16_to_le_bytes(h.flags).len() == 2);
    assert(spec_u64_to_le_bytes(h.toc_offset).len() == 8);
    assert(spec_u32_to_le_bytes(h.toc_count).len() == 4);
}

/// Reading a header back gives the header that was written.
pub proof fn lemma_parse_header(h: HeaderView, rest: Seq<u8>)
    requires
        h.magic.len() == 4,
    ensures
        parse_header(header_bytes(h) + rest) == Some(h),
{
    lemma_auto_spec_u16_to_from_le_bytes();
    lemma_auto_spec_u32_to_from_le_bytes();
    lemma_auto_spec_u64_to_from_le_bytes();
    lemma_header_len(h);
    let v = spec_u16_to_le_bytes(h.version);
    let f = spec_u16_to_le_bytes(h.flags);
    let o = spec_u64_to_le_bytes(h.toc_offset);
    let c = spec_u32_to_le_bytes(h.toc_count);
    assert(v.len() == 2 && f.len() == 2 && o.len() == 8 && c.len() == 4);
    let b = header_bytes(h) + rest;
    assert(b.subrange(0, 4) =~= h.magic);
    assert(b.subrange(4, 6) =~= v);
    assert(b.subrange(6, 8) =~= f);
    assert(b.subrange(8, 16) =~= o);
    assert(b.subrange(16, 20) =~= c);
}

/// The header bytes of `h`.
pub fn encode_header(h: &FileHeader) -> (res: Vec<u8>)
    requires
        h.magic@.len() == 4,
    ensures
        res@ == header_bytes(h@),
        res@.len() == 32,
{
    let mut out: Vec<u8> = Vec::new();
    out.extend_from_slice(h.magic.as_slice());
    let v = u16_to_le_bytes(h.version);
    out.extend_from_slice(v.as_slice());
    let f = u16_to_le_bytes(h.flags);
    out.extend_from_slice(f.as_slice());
    let o = u64_to_le_bytes(h.toc_offset);
    out.extend_from_slice(o.as_slice());
    let c = u32_to_le_bytes(h.toc_count);
    out.extend_from_slice(c.as_slice());
    let mut i: usize = 0;
    let ghost pre = out@;
    while i < 12
        invariant
            i <= 12,
            out@ == pre + zeros(i as nat),
        decreases 12 - i,
    {
        out.push(0u8);
        i = i + 1;
        assert(out@ =~= pre + zeros(i as nat));
    }
    proof {
        lemma_header_len(h@);
        assert(out@ =~= header_bytes(h@));
    }
    out
}

/// The header at the start of `b`.
pub fn decode_header(b: &[u8]) -> (res: Option<FileHeader>)
    ensures
        match res {
            Some(h) => parse_header(b@) == Some(h@),
            None => parse_header(b@) is None,
        },
{
    if b.len() < 32 {
        return None;
    }
    let magic = slice_to_vec(slice_subrange(b, 0, 4));
    let version = u16_from_le_bytes(slice_subrange(b, 4, 6));
    let flags = u16_from_le_bytes(slice_subrange(b, 6, 8));
    let toc_offset = u64_from_le_bytes(slice_subrange(b, 8, 16));
    let toc_count = u32_from_le_bytes(slice_subrange(b, 16, 20));
    Some(FileHeader { magic, version, flags, toc_offset, toc_count })
}

/// One TOC entry as plain values.
pub struct TocView {
    pub path: Seq<char>,
    pub method: u8,
    pub crc32: u32,
    pub comp_size: u64,
    pub raw_size: u64,
    pub data_offset: u64,
}

/// One entry of the table of contents.
#[derive(Debug, Clone)]
pub struct TocEntry {
    pub path: String,
    pub method: u8,
    pub crc32: u32,
    pub comp_size: u64,
    pub raw_size: u64,
    pub data_offset: u64,
}

impl View for TocEntry {
    type V = TocView;

    open spec fn view(&self) -> TocView {
        TocView {
            path: self.path@,
            method: self.method,
            crc32: self.crc32,
            comp_size: self.comp_size,
            raw_size: self.raw_size,
            data_offset: self.data_offset,
        }
    }
}

impl TocEntry {
    /// A copy of the entry.
    pub fn duplicate(&self) -> (res: TocEntry)
        ensures
            res@ == self@,
    {
        TocEntry {
            path: self.path.clone(),
            method: self.method,
            crc32: self.crc32,
            comp_size: self.comp_size,
            raw_size: self.raw_size,
            data_offset: self.data_offset,
        }
    }
}

pub open spec fn toc_views(es: Seq<TocEntry>) -> Seq<TocView> {
    es.map_values(|e: TocEntry| e@)
}

/// Whether a path's UTF-8 form fits the 16-bit length field.
pub open spec fn path_fits(p: Seq<char>) -> bool {
    encode_utf8(p).len() <= 0xffff
}

/// The bytes of one TOC entry.
pub open spec fn toc_entry_bytes(e: TocView) -> Seq<u8> {
    let pb = encode_utf8(e.path);
    spec_u16_to_le_bytes(pb.len() as u16) + pb + seq![e.method] + spec_u32_to_le_bytes(e.crc32)
        + spec_u64_to_le_bytes(e.comp_size) + spec_u64_to_le_bytes(e.raw_size)
        + spec_u64_to_le_bytes(e.data_offset)
}

/// The TOC entry at `pos` in `b`, with the position after it.
pub open spec fn parse_toc_entry(b: Seq<u8>, pos: int) -> Option<(TocView, int)> {
    if pos < 0 || pos + 2 > b.len() {
        None
    } else {
        let n = spec_u16_from_le_bytes(b.subrange(pos, pos + 2)) as int;
        let q = pos + 2 + n;
        if q + 29 > b.len() || !valid_utf8(b.subrange(pos + 2, q)) {
            None
        } else {
            Some(
                (
                    TocView {
                        path: decode_utf8(b.subrange(pos + 2, q)),
                        method: b[q],
                        crc32: spec_u32_from_le_bytes(b.subrange(q + 1, q + 5)),
                        comp_size: spec_u64_from_le_bytes(b.subrange(q + 5, q + 13)),
                        raw_size: spec_u64_from_le_bytes(b.subrange(q + 13, q + 21)),
                        data_offset: spec_u64_from_le_bytes(b.subrange(q + 21, q + 29)),
                    },
                    q + 29,
                ),
            )
        }
    }
}

/// Reading an entry back gives the entry that was written, and the position after it.
pub proof fn lemma_parse_toc_entry(e: TocView, pre: Seq<u8>, post: Seq<u8>)
    requires
        path_fits(e.path),
    ensures
        parse_toc_entry(pre + toc_entry_bytes(e) + post, pre.len() as int) == Some(
            (e, (pre.len() + toc_entry_bytes(e).len()) as int),
        ),
        toc_entry_bytes(e).len() == 31 + encode_utf8(e.path).len(),
{
    lemma_auto_spec_u16_to_from_le_bytes();
    lemma_auto_spec_u32_to_from_le_bytes();
    lemma_auto_spec_u64_to_from_le_bytes();
    encode_utf8_valid_utf8(e.path);
    encode_utf8_decode_utf8(e.path);
    let pb = encode_utf8(e.path);
    let n = pb.len() as u16;
    let l = spec_u16_to_le_bytes(n);
    let c = spec_u32_to_le_bytes(e.crc32);
    let cs = spec_u64_to_le_bytes(e.comp_size);
    let rs = spec_u64_to_le_bytes(e.raw_size);
    let dof = spec_u64_to_le_bytes(e.data_offset);
    assert(l.len() == 2 && c.len() == 4 && cs.len() == 8 && rs.len() == 8 && dof.len() == 8);
    let eb = toc_entry_bytes(e);
    let b = pre + eb + post;
    let p = pre.len() as int;
    let q = p + 2 + pb.len();
    assert(b.subrange(p, p + 2) =~= l);
    assert(spec_u16_from_le_bytes(l) == n);
    assert(n as int == pb.len());
    assert(b.subrange(p + 2, q) =~= pb);
    assert(b[q] == e.method);
    assert(b.subrange(q + 1, q + 5) =~= c);
    assert(b.subrange(q + 5, q + 13) =~= cs);
    assert(b.subrange(q + 13, q + 21) =~= rs);
    assert(b.subrange(q + 21, q + 29) =~= dof);
}

/// The bytes of a TOC, its entries in order.
pub open spec fn toc_bytes(es: Seq<TocView>) -> Seq<u8>
    decreases es.len(),
{
    if es.len() == 0 {
        Seq::empty()
    } else {
        toc_entry_bytes(es[0]) + toc_bytes(es.drop_first())
    }
}

pub proof fn lemma_toc_bytes_push(es: Seq<TocView>, e: TocView)
    ensures
        toc_bytes(es.push(e)) == toc_bytes(es) + toc_entry_bytes(e),
    decreases es.len(),
{
    if es.len() == 0 {
        assert(es.push(e).drop_first() =~= Seq::<TocView>::empty());
        assert(es.push(e)[0] == e);
        assert(toc_bytes(es.push(e).drop_first()) == Seq::<u8>::empty());
        assert(toc_bytes(es) == Seq::<u8>::empty());
        assert(toc_bytes(es.push(e)) =~= toc_bytes(es) + toc_entry_bytes(e));
    } else {
        assert(es.push(e).drop_first() =~= es.drop_first().push(e));
        assert(es.push(e)[0] == es[0]);
        lemma_toc_bytes_push(es.drop_first(), e);
        assert(toc_bytes(es.push(e)) =~= toc_bytes(es) + toc_entry_bytes(e));
    }
}

/// `n` TOC entries read one after another from `pos`.
pub open spec fn parse_toc_n(b: Seq<u8>, pos: int, n: nat) -> Option<Seq<TocView>>
    decreases n,
{
    if n == 0 {
        Some(Seq::empty())
    } else {
        match parse_toc_entry(b, pos) {
            None => None,
            Some((e, next)) => match parse_toc_n(b, next, (n - 1) as nat) {
                None => None,
                Some(rest) => Some(seq![e] + rest),
            },
        }
    }
}

/// Reading a TOC back gives the entries that were written.
pub proof fn lemma_parse_toc_n(es: Seq<TocView>, pre: Seq<u8>, post: Seq<u8>)
    requires
        forall|i: int| 0 <= i < es.len() ==> path_fits(#[trigger] es[i].path),
    ensures
        parse_toc_n(pre + toc_bytes(es) + post, pre.len() as int, es.len()) == Some(es),
    decreases es.len(),
{
    if es.len() > 0 {
        let e0 = toc_entry_bytes(es[0]);
        let rest = toc_bytes(es.drop_first());
        assert(pre + toc_bytes(es) + post =~= pre + e0 + (rest + post));
        lemma_parse_toc_entry(es[0], pre, rest + post);
        assert(pre + toc_bytes(es) + post =~= (pre + e0) + rest + post);
        assert forall|i: int| 0 <= i < es.drop_first().len() implies path_fits(
            #[trigger] es.drop_first()[i].path,
        ) by {
            assert(es.drop_first()[i] == es[i + 1]);
        }
        lemma_parse_toc_n(es.drop_first(), pre + e0, post);
        assert(seq![es[0]] + es.drop_first() =~= es);
    }
}

/// The error that a short read gives.
pub open spec fn eof_text() -> Seq<char> {
    "failed to fill whole buffer"@
}

fn eof_error() -> (res: AppError)
    ensures
        is_archive_error(res, eof_text()),
{
    archive_error_str("failed to fill whole buffer")
}

/// The bytes of one TOC entry; an error where the path is too long for the format.
pub fn encode_toc_entry(e: &TocEntry) -> (res: AppResult<Vec<u8>>)
    ensures
        match res {
            Ok(v) => path_fits(e.path@) && v@ == toc_entry_bytes(e@),
            Err(err) => !path_fits(e.path@) && is_archive_error(err, "path too long"@),
        },
{
    let pb = e.path.as_str().as_bytes();
    if pb.len() > 0xffff {
        return Err(archive_error_str("path too long"));
    }
    let mut out = u16_to_le_bytes(pb.len() as u16);
    out.extend_from_slice(pb);
    out.push(e.method);
    let c = u32_to_le_bytes(e.crc32);
    out.extend_from_slice(c.as_slice());
    let cs = u64_to_le_bytes(e.comp_size);
    out.extend_from_slice(cs.as_slice());
    let rs = u64_to_le_bytes(e.raw_size);
    out.extend_from_slice(rs.as_slice());
    let d = u64_to_le_bytes(e.data_offset);
    out.extend_from_slice(d.as_slice());
    assert(out@ =~= toc_entry_bytes(e@));
    Ok(out)
}

/// The TOC entry at `pos` in `b`, with the position after it.
pub fn decode_toc_entry(b: &[u8], pos: usize) -> (res: AppResult<(TocEntry, usize)>)
    ensures
        match res {
            Ok((e, next)) => parse_toc_entry(b@, pos as int) == Some((e@, next as int)),
            Err(err) => parse_toc_entry(b@, pos as int) is None && err is Archive,
        },
{
    if pos > b.len() || b.len() - pos < 2 {
        return Err(eof_error());
    }
    let n = u16_from_le_bytes(slice_subrange(b, pos, pos + 2)) as usize;
    let p = pos + 2;
    if b.len() - p < n {
        return Err(eof_error());
    }
    let path_bytes = slice_to_vec(slice_subrange(b, p, p + n));
    let q = p + n;
    let path = match utf8_string(path_bytes) {
        Ok(s) => s,
        Err(m) => return Err(AppError::Archive(m)),
    };
    if b.len() - q < 29 {
        return Err(eof_error());
    }
    proof {
        encode_utf8_valid_utf8(path@);
        encode_utf8_decode_utf8(path@);
    }
    let method = b[q];
    let crc = u32_from_le_bytes(slice_subrange(b, q + 1, q + 5));
    let comp_size = u64_from_le_bytes(slice_subrange(b, q + 5, q + 13));
    let raw_size = u64_from_le_bytes(slice_subrange(b, q + 13, q + 21));
    let data_offset = u64_from_le_bytes(slice_subrange(b, q + 21, q + 29));
    Ok((TocEntry { path, method, crc32: crc, comp_size, raw_size, data_offset }, q + 29))
}


/// Why the TOC of an archive cannot be read.
pub enum TocFault {
    Short,
    BadMagic,
    BadVersion(u16),
    BadEntries,
}

/// The TOC of an archive: the header checked, then its entries.
pub open spec fn read_toc_spec(b: Seq<u8>) -> Result<Seq<TocView>, TocFault> {
    match parse_header(b) {
        None => Err(TocFault::Short),
        Some(h) => if h.magic != magic_bytes() {
            Err(TocFault::BadMagic)
        } else if h.version != VERSION {
            Err(TocFault::BadVersion(h.version))
        } else {
            match parse_toc_n(b, h.toc_offset as int, h.toc_count as nat) {
                None => Err(TocFault::BadEntries),
                Some(es) => Ok(es),
            }
        },
    }
}

/// The text of a TOC error, where the library writes it.
pub open spec fn toc_fault_text(f: TocFault) -> Option<Seq<char>> {
    match f {
        TocFault::Short => Some(eof_text()),
        TocFault::BadMagic => Some("invalid HEHE magic"@),
        TocFault::BadVersion(v) => Some("unsupported HEHE version "@ + dec(v as nat)),
        TocFault::BadEntries => None,
    }
}

/// `count` TOC entries read from `pos` on.
fn decode_toc_entries(b: &[u8], pos: u64, count: u32) -> (res: AppResult<Vec<TocEntry>>)
    ensures
        match res {
            Ok(es) => parse_toc_n(b@, pos as int, count as nat) == Some(toc_views(es@)),
            Err(e) => parse_toc_n(b@, pos as int, count as nat) is None && e is Archive,
        },
{
    let mut es: Vec<TocEntry> = Vec::new();
    if count == 0 {
        assert(toc_views(es@) =~= Seq::<TocView>::empty());
        return Ok(es);
    }
    if pos > b.len() as u64 {
        return Err(eof_error());
    }
    let mut cur: usize = pos as usize;
    let mut i: u32 = 0;
    assert(toc_views(es@) + parse_toc_n(b@, pos as int, count as nat).unwrap() =~= parse_toc_n(
        b@,
        pos as int,
        count as nat,
    ).unwrap());
    while i < count
        invariant
            i <= count,
            parse_toc_n(b@, pos as int, count as nat) == (match parse_toc_n(
                b@,
                cur as int,
                (count - i) as nat,
            ) {
                Some(rest) => Some(toc_views(es@) + rest),
                None => None,
            }),
        decreases count - i,
    {
        match decode_toc_entry(b, cur) {
            Ok((e, next)) => {
                let ghost old_es = es@;
                let ghost rest = parse_toc_n(b@, next as int, (count - i - 1) as nat);
                es.push(e);
                assert(toc_views(es@) =~= toc_views(old_es).push(e@));
                proof {
                    if rest is Some {
                        assert(toc_views(old_es) + (seq![e@] + rest.unwrap()) =~= toc_views(es@)
                            + rest.unwrap());
                    }
                }
                cur = next;
                i = i + 1;
            },
            Err(err) => {
                return Err(err);
            },
        }
    }
    assert(toc_views(es@) + Seq::<TocView>::empty() =~= toc_views(es@));
    Ok(es)
}

/// The TOC of the archive `b`.
pub fn read_toc(b: &[u8]) -> (res: AppResult<Vec<TocEntry>>)
    ensures
        match res {
            Ok(es) => read_toc_spec(b@) == Ok::<Seq<TocView>, TocFault>(toc_views(es@)),
            Err(e) => read_toc_spec(b@) matches Err(f) && e is Archive && (toc_fault_text(f) matches Some(
                t,
            ) ==> is_archive_error(e, t)),
        },
{
    let h = match decode_header(b) {
        Some(h) => h,
        None => return Err(eof_error()),
    };
    if !(h.magic.len() == 4 && h.magic[0] == 72u8 && h.magic[1] == 69u8 && h.magic[2] == 72u8
        && h.magic[3] == 69u8) {
        assert(h.magic@ != magic_bytes());
        return Err(archive_error_str("invalid HEHE magic"));
    }
    assert(h.magic@ =~= magic_bytes());
    if h.version != VERSION {
        let d = dec_of(h.version as u64);
        return Err(archive_error("unsupported HEHE version ", &d));
    }
    decode_toc_entries(b, h.toc_offset, h.toc_count)
}

/// The raw data that a method's compressed bytes stand for; `None` where they
/// do not decode, or the method is unknown.
pub open spec fn decompressed(method: u8, comp: Seq<u8>) -> Option<Seq<u8>> {
    if method == METHOD_STORE {
        Some(comp)
    } else if method == METHOD_DEFLATE {
        zlib_decoded(comp)
    } else if method == METHOD_ZSTD {
        zstd_decoded(comp)
    } else {
        None
    }
}

/// The raw data of `comp` stored with `method`.
pub fn decompress(method: u8, comp: &[u8]) -> (res: AppResult<Vec<u8>>)
    ensures
        match res {
            Ok(v) => decompressed(method, comp@) == Some(v@),
            Err(e) => decompressed(method, comp@) is None && e is Archive && (method > 2
                ==> is_archive_error(e, "unknown method "@ + dec(method as nat))),
        },
{
    if method == METHOD_STORE {
        Ok(slice_to_vec(comp))
    } else if method == METHOD_DEFLATE {
        match zlib_decode(comp) {
            Ok(v) => Ok(v),
            Err(m) => Err(AppError::Archive(m)),
        }
    } else if method == METHOD_ZSTD {
        match zstd_decode(comp) {
            Ok(v) => Ok(v),
            Err(m) => Err(AppError::Archive(m)),
        }
    } else {
        let d = dec_of(method as u64);
        Err(archive_error("unknown method ", &d))
    }
}

/// Why an entry's data cannot be read.
pub enum EntryFault {
    Truncated,
    UnknownMethod(u8),
    Undecodable,
    CrcMismatch,
}

/// The raw data of entry `e` of the archive `b`, its checksum checked.
pub open spec fn entry_data(b: Seq<u8>, e: TocView) -> Result<Seq<u8>, EntryFault> {
    if e.data_offset + e.comp_size > b.len() {
        Err(EntryFault::Truncated)
    } else if e.method > 2 {
        Err(EntryFault::UnknownMethod(e.method))
    } else {
        match decompressed(
            e.method,
            b.subrange(e.data_offset as int, e.data_offset + e.comp_size),
        ) {
            None => Err(EntryFault::Undecodable),
            Some(raw) => if crc32_of(raw) != e.crc32 {
                Err(EntryFault::CrcMismatch)
            } else {
                Ok(raw)
            },
        }
    }
}

/// The text of an entry error, where the library writes it.
pub open spec fn entry_fault_text(f: EntryFault, e: TocView) -> Option<Seq<char>> {
    match f {
        EntryFault::Truncated => Some(eof_text()),
        EntryFault::UnknownMethod(m) => Some("unknown method "@ + dec(m as nat)),
        EntryFault::Undecodable => None,
        EntryFault::CrcMismatch => Some("CRC mismatch for "@ + e.path),
    }
}

/// The raw data of entry `e` of the archive `b`.
pub fn read_entry_raw(b: &[u8], e: &TocEntry) -> (res: AppResult<Vec<u8>>)
    ensures
        match res {
            Ok(v) => entry_data(b@, e@) == Ok::<Seq<u8>, EntryFault>(v@),
            Err(err) => entry_data(b@, e@) matches Err(f) && err is Archive && (entry_fault_text(
                f,
                e@,
            ) matches Some(t) ==> is_archive_error(err, t)),
        },
{
    if e.data_offset > b.len() as u64 || e.comp_size > b.len() as u64 - e.data_offset {
        return Err(eof_error());
    }
    let start = e.data_offset as usize;
    let end = start + e.comp_size as usize;
    let comp = slice_subrange(b, start, end);
    let raw = match decompress(e.method, comp) {
        Ok(raw) => raw,
        Err(err) => return Err(err),
    };
    if crc32(raw.as_slice()) != e.crc32 {
        let p = chars_of(e.path.as_str());
        return Err(archive_error("CRC mismatch for ", &p));
    }
    Ok(raw)
}

/// The last entry whose normalized path is `norm` (later entries win, as in a
/// map filled in TOC order).
pub open spec fn lookup(es: Seq<TocView>, norm: Seq<char>) -> Option<TocView>
    decreases es.len(),
{
    if es.len() == 0 {
        None
    } else if normalized_entry(es.last().path) == norm {
        Some(es.last())
    } else {
        lookup(es.drop_last(), norm)
    }
}

/// What `lookup` finds has the normalized path it was looked up by.
pub proof fn lemma_lookup_found(es: Seq<TocView>, norm: Seq<char>)
    ensures
        lookup(es, norm) matches Some(e) ==> normalized_entry(e.path) == norm && es.contains(e),
    decreases es.len(),
{
    if es.len() > 0 && normalized_entry(es.last().path) != norm {
        lemma_lookup_found(es.drop_last(), norm);
        if lookup(es, norm) is Some {
            let e = lookup(es, norm).unwrap();
            let i = choose|i: int| 0 <= i < es.drop_last().len() && es.drop_last()[i] == e;
            assert(es[i] == e);
        }
    } else if es.len() > 0 {
        assert(es[es.len() - 1] == es.last());
    }
}

/// Where no two entries share a normalized path, looking one up finds it.
pub proof fn lemma_lookup_distinct(es: Seq<TocView>, k: int)
    requires
        0 <= k < es.len(),
        forall|i: int, j: int|
            0 <= i < j < es.len() ==> normalized_entry(#[trigger] es[i].path) != normalized_entry(
                #[trigger] es[j].path,
            ),
    ensures
        lookup(es, normalized_entry(es[k].path)) == Some(es[k]),
    decreases es.len(),
{
    if k < es.len() - 1 {
        assert(normalized_entry(es[k].path) != normalized_entry(es[es.len() - 1].path));
        assert forall|i: int, j: int|
            0 <= i < j < es.drop_last().len() implies normalized_entry(
            #[trigger] es.drop_last()[i].path,
        ) != normalized_entry(#[trigger] es.drop_last()[j].path) by {
            assert(es.drop_last()[i] == es[i]);
            assert(es.drop_last()[j] == es[j]);
        }
        lemma_lookup_distinct(es.drop_last(), k);
        assert(es.drop_last()[k] == es[k]);
    }
}

/// The index of the entry that `lookup` finds.
pub fn find_entry(es: &Vec<TocEntry>, norm: &Vec<char>) -> (res: Option<usize>)
    ensures
        match res {
            Some(i) => i < es.len() && lookup(toc_views(es@), norm@) == Some(es@[i as int]@),
            None => lookup(toc_views(es@), norm@) is None,
        },
{
    let ghost all = toc_views(es@);
    let mut j: usize = es.len();
    assert(all.take(j as int) =~= all);
    while j > 0
        invariant
            j <= es.len(),
            all == toc_views(es@),
            lookup(all, norm@) == lookup(all.take(j as int), norm@),
        decreases j,
    {
        assert(all.take(j as int).last() == es@[j - 1]@);
        assert(all.take(j as int).drop_last() =~= all.take(j - 1));
        let p = chars_of(es[j - 1].path.as_str());
        let n = normalize_entry_chars(&p);
        if chars_eq(&n, norm) {
            return Some(j - 1);
        }
        j = j - 1;
    }
    None
}

/// Why an entry cannot be read from an archive.
pub enum ReadFault {
    Toc(TocFault),
    NotFound,
    Entry(EntryFault),
}

/// The raw data of the entry at `entry_path` in the archive `b`.
pub open spec fn read_entry_spec(b: Seq<u8>, entry_path: Seq<char>) -> Result<Seq<u8>, ReadFault> {
    match read_toc_spec(b) {
        Err(f) => Err(ReadFault::Toc(f)),
        Ok(es) => match lookup(es, normalized_entry(entry_path)) {
            None => Err(ReadFault::NotFound),
            Some(e) => match entry_data(b, e) {
                Err(f) => Err(ReadFault::Entry(f)),
                Ok(raw) => Ok(raw),
            },
        },
    }
}

/// The text of a read error, where the library writes it.
pub open spec fn read_fault_text(b: Seq<u8>, entry_path: Seq<char>, f: ReadFault) -> Option<
    Seq<char>,
> {
    match f {
        ReadFault::Toc(t) => toc_fault_text(t),
        ReadFault::NotFound => Some("entry not found: "@ + entry_path),
        ReadFault::Entry(d) => match read_toc_spec(b) {
            Ok(es) => match lookup(es, normalized_entry(entry_path)) {
                Some(e) => entry_fault_text(d, e),
                None => None,
            },
            Err(_) => None,
        },
    }
}

/// The raw data of the entry `entry_path` of an archive whose TOC is `es`.
pub fn entry_bytes_in(b: &[u8], es: &Vec<TocEntry>, entry_path: &str) -> (res: AppResult<Vec<u8>>)
    requires
        read_toc_spec(b@) == Ok::<Seq<TocView>, TocFault>(toc_views(es@)),
    ensures
        match res {
            Ok(v) => read_entry_spec(b@, entry_path@) == Ok::<Seq<u8>, ReadFault>(v@),
            Err(e) => read_entry_spec(b@, entry_path@) matches Err(f) && e is Archive && (
            read_fault_text(b@, entry_path@, f) matches Some(t) ==> is_archive_error(e, t)),
        },
{
    let p = chars_of(entry_path);
    let norm = normalize_entry_chars(&p);
    match find_entry(es, &norm) {
        None => Err(archive_error("entry not found: ", &p)),
        Some(i) => read_entry_raw(b, &es[i]),
    }
}


/// Where the decoder reads back what the zstd encoder wrote: with no window
/// set, or one of at most 2^27 bytes.
pub open spec fn window_ok(c: HeheCompression) -> bool {
    c.window_log matches Some(w) ==> w <= 27
}

/// The zstd stream that `c` gives for `raw`.
pub open spec fn zstd_for(raw: Seq<u8>, c: HeheCompression) -> Option<Seq<u8>> {
    match c.window_log {
        Some(w) => zstd_window_encoded(raw, c.zstd_level, w),
        None => zstd_encoded(raw, c.zstd_level),
    }
}

/// The method and bytes stored for `raw` asked to be stored with `method`:
/// stored as is where compressing does not make it smaller; any method but
/// store and deflate means zstd. `None` where the encoder fails.
pub open spec fn compressed(method: u8, raw: Seq<u8>, c: HeheCompression) -> Option<(u8, Seq<u8>)> {
    if method == METHOD_STORE {
        Some((METHOD_STORE, raw))
    } else {
        let enc = if method == METHOD_DEFLATE {
            zlib_encoded(raw)
        } else {
            zstd_for(raw, c)
        };
        match enc {
            None => None,
            Some(comp) => if comp.len() >= raw.len() {
                Some((METHOD_STORE, raw))
            } else if method == METHOD_DEFLATE {
                Some((METHOD_DEFLATE, comp))
            } else {
                Some((METHOD_ZSTD, comp))
            },
        }
    }
}

/// A blob is never stored larger than its data: where compressing does not
/// make it smaller, it is stored as it is.
pub proof fn lemma_compressed_not_larger(method: u8, raw: Seq<u8>, c: HeheCompression)
    ensures
        compressed(method, raw, c) matches Some((m, v)) ==> v.len() <= raw.len() && (v.len() == raw.len()
            ==> m == METHOD_STORE && v == raw),
{
}

/// Compresses `raw` as `method` asks.
pub fn compress(method: u8, raw: &[u8], c: HeheCompression) -> (res: AppResult<(u8, Vec<u8>)>)
    ensures
        match res {
            Ok((m, v)) => compressed(method, raw@, c) == Some((m, v@)) && m <= 2 && (window_ok(c)
                ==> decompressed(m, v@) == Some(raw@)),
            Err(e) => compressed(method, raw@, c) is None && e is Archive,
        },
{
    if method == METHOD_STORE {
        return Ok((METHOD_STORE, slice_to_vec(raw)));
    }
    let enc = if method == METHOD_DEFLATE {
        zlib_encode(raw)
    } else {
        match c.window_log {
            Some(w) => zstd_encode_window(raw, c.zstd_level, w),
            None => zstd_encode(raw, c.zstd_level),
        }
    };
    match enc {
        Err(m) => Err(AppError::Archive(m)),
        Ok(comp) => {
            if comp.len() >= raw.len() {
                Ok((METHOD_STORE, slice_to_vec(raw)))
            } else if method == METHOD_DEFLATE {
                Ok((METHOD_DEFLATE, comp))
            } else {
                Ok((METHOD_ZSTD, comp))
            }
        },
    }
}

/// The lower-cased extension of a path, empty where it has none.
pub open spec fn lower_extension(path: Seq<char>) -> Seq<char> {
    match extension(path) {
        Some(e) => ascii_lower(e),
        None => Seq::empty(),
    }
}

/// The method an entry is asked to be stored with: meshes (`.stl`, `.obj`) are
/// stored as is where the compression does not compress them.
pub open spec fn method_for_path(path: Seq<char>, default_method: u8, c: HeheCompression) -> u8 {
    if !c.compress_stl && (lower_extension(path) == "stl"@ || lower_extension(path) == "obj"@) {
        METHOD_STORE
    } else {
        default_method
    }
}

pub fn compression_method_for_path(path: &str, default_method: u8, c: HeheCompression) -> (res: u8)
    ensures
        res == method_for_path(path@, default_method, c),
{
    if !c.compress_stl {
        let p = chars_of(path);
        let ext = match extension_of(&p) {
            Some(e) => ascii_lower_of(&e),
            None => Vec::new(),
        };
        let stl = chars_of("stl");
        let obj = chars_of("obj");
        if chars_eq(&ext, &stl) || chars_eq(&ext, &obj) {
            return METHOD_STORE;
        }
    }
    default_method
}

/// The items of an archive as plain values.
pub open spec fn items_view(items: Seq<(String, Vec<u8>)>) -> Seq<(Seq<char>, Seq<u8>)> {
    items.map_values(|it: (String, Vec<u8>)| (it.0@, it.1@))
}

/// No two items whose paths normalize alike.
pub open spec fn distinct_entry_paths(items: Seq<(Seq<char>, Seq<u8>)>) -> bool {
    forall|i: int, j: int|
        0 <= i < j < items.len() ==> normalized_entry(#[trigger] items[i].0) != normalized_entry(
            #[trigger] items[j].0,
        )
}

/// The data region and the TOC entries of an archive of `items`, in order;
/// `None` where an item cannot be compressed.
pub open spec fn laid_out(items: Seq<(Seq<char>, Seq<u8>)>, dm: u8, c: HeheCompression) -> Option<
    (Seq<u8>, Seq<TocView>),
>
    decreases items.len(),
{
    if items.len() == 0 {
        Some((Seq::empty(), Seq::empty()))
    } else {
        match laid_out(items.drop_last(), dm, c) {
            None => None,
            Some((data, es)) => {
                let path = items.last().0;
                let raw = items.last().1;
                match compressed(method_for_path(path, dm, c), raw, c) {
                    None => None,
                    Some((m, comp)) => Some(
                        (
                            data + comp,
                            es.push(
                                TocView {
                                    path: path,
                                    method: m,
                                    crc32: crc32_of(raw),
                                    comp_size: comp.len() as u64,
                                    raw_size: raw.len() as u64,
                                    data_offset: (HEADER_SIZE + data.len()) as u64,
                                },
                            ),
                        ),
                    ),
                }
            },
        }
    }
}

proof fn lemma_laid_out_prefix(items: Seq<(Seq<char>, Seq<u8>)>, dm: u8, c: HeheCompression, k: int)
    requires
        0 <= k <= items.len(),
        laid_out(items.take(k), dm, c) is None,
    ensures
        laid_out(items, dm, c) is None,
    decreases items.len() - k,
{
    if k < items.len() {
        assert(items.take(k + 1).drop_last() =~= items.take(k));
        lemma_laid_out_prefix(items, dm, c, k + 1);
    } else {
        assert(items.take(k) =~= items);
    }
}

/// The header of an archive whose data region is `data` and whose TOC is `es`.
pub open spec fn archive_header(data: Seq<u8>, es: Seq<TocView>) -> HeaderView {
    HeaderView {
        magic: magic_bytes(),
        version: VERSION,
        flags: 0,
        toc_offset: (HEADER_SIZE + data.len()) as u64,
        toc_count: es.len() as u32,
    }
}

/// The bytes of an archive of `items`; `None` where an item cannot be
/// compressed or a path is too long.
pub open spec fn written_archive(items: Seq<(Seq<char>, Seq<u8>)>, dm: u8, c: HeheCompression) -> Option<
    Seq<u8>,
> {
    match laid_out(items, dm, c) {
        None => None,
        Some((data, es)) => if forall|i: int| 0 <= i < es.len() ==> path_fits(#[trigger] es[i].path) {
            Some(header_bytes(archive_header(data, es)) + data + toc_bytes(es))
        } else {
            None
        },
    }
}


/// The bytes of a TOC of `es`; an error where a path is too long.
fn encode_toc(es: &Vec<TocEntry>) -> (res: AppResult<Vec<u8>>)
    ensures
        match res {
            Ok(v) => (forall|i: int| 0 <= i < es@.len() ==> path_fits(#[trigger] es@[i].path@))
                && v@ == toc_bytes(toc_views(es@)),
            Err(e) => (exists|i: int| 0 <= i < es@.len() && !path_fits(#[trigger] es@[i].path@))
                && is_archive_error(e, "path too long"@),
        },
{
    let ghost tv = toc_views(es@);
    let mut toc: Vec<u8> = Vec::new();
    let mut t: usize = 0;
    assert(tv.take(0) =~= Seq::<TocView>::empty());
    while t < es.len()
        invariant
            t <= es.len(),
            tv == toc_views(es@),
            toc@ == toc_bytes(tv.take(t as int)),
            forall|j: int| 0 <= j < t ==> path_fits(#[trigger] es@[j].path@),
        decreases es.len() - t,
    {
        let eb = match encode_toc_entry(&es[t]) {
            Ok(v) => v,
            Err(e) => {
                assert(!path_fits(es@[t as int].path@));
                return Err(e);
            },
        };
        proof {
            lemma_toc_bytes_push(tv.take(t as int), es@[t as int]@);
            assert(tv.take(t + 1) =~= tv.take(t as int).push(es@[t as int]@));
        }
        toc.extend_from_slice(eb.as_slice());
        assert(toc@ =~= toc_bytes(tv.take(t + 1)));
        t = t + 1;
    }
    assert(tv.take(es.len() as int) =~= tv);
    Ok(toc)
}

/// What reading back an archive laid out by `write_archive` gives.
proof fn lemma_read_back(
    b: Seq<u8>,
    out: Seq<u8>,
    es: Seq<TocView>,
    iv: Seq<(Seq<char>, Seq<u8>)>,
    comps: Seq<Seq<u8>>,
)
    requires
        out.len() >= 32,
        out.len() <= u64::MAX,
        b == header_bytes(archive_header(out.skip(32), es)) + out.skip(32) + toc_bytes(es),
        es.len() == iv.len(),
        es.len() == comps.len(),
        es.len() <= u32::MAX,
        forall|i: int| 0 <= i < es.len() ==> path_fits(#[trigger] es[i].path),
        distinct_entry_paths(iv),
        forall|j: int|
            0 <= j < es.len() ==> {
                let e = #[trigger] es[j];
                &&& e.data_offset >= 32
                &&& e.data_offset + e.comp_size <= out.len()
                &&& out.subrange(e.data_offset as int, e.data_offset + e.comp_size) == comps[j]
                &&& e.method <= 2
                &&& decompressed(e.method, comps[j]) == Some(iv[j].1)
                &&& e.crc32 == crc32_of(iv[j].1)
                &&& e.path == iv[j].0
            },
    ensures
        forall|k: int|
            0 <= k < iv.len() ==> read_entry_spec(b, #[trigger] iv[k].0) == Ok::<
                Seq<u8>,
                ReadFault,
            >(iv[k].1),
        forall|q: Seq<char>|
            #![trigger read_entry_spec(b, q)]
            (forall|k: int| 0 <= k < iv.len() ==> normalized_entry(#[trigger] iv[k].0) != normalized_entry(q))
                ==> read_entry_spec(b, q) == Err::<Seq<u8>, ReadFault>(ReadFault::NotFound),
{
    let data = out.skip(32);
    let h = archive_header(data, es);
    lemma_header_len(h);
    let hb = header_bytes(h);
    assert(b =~= hb + (data + toc_bytes(es)));
    lemma_parse_header(h, data + toc_bytes(es));
    assert(b =~= (hb + data) + toc_bytes(es) + Seq::<u8>::empty());
    lemma_parse_toc_n(es, hb + data, Seq::<u8>::empty());
    assert((hb + data).len() == h.toc_offset);
    assert(read_toc_spec(b) == Ok::<Seq<TocView>, TocFault>(es));
    assert forall|i: int, j: int|
        0 <= i < j < es.len() implies normalized_entry(#[trigger] es[i].path) != normalized_entry(
        #[trigger] es[j].path,
    ) by {
        assert(es[i].path == iv[i].0);
        assert(es[j].path == iv[j].0);
    }
    assert forall|k: int| 0 <= k < iv.len() implies read_entry_spec(b, #[trigger] iv[k].0)
        == Ok::<Seq<u8>, ReadFault>(iv[k].1) by {
        let e = es[k];
        lemma_lookup_distinct(es, k);
        assert(e.path == iv[k].0);
        let lo = e.data_offset as int;
        let hi = e.data_offset + e.comp_size;
        assert(b.subrange(lo, hi) =~= out.subrange(lo, hi));
    }
    assert forall|q: Seq<char>|
        (forall|k: int| 0 <= k < iv.len() ==> normalized_entry(#[trigger] iv[k].0) != normalized_entry(q))
        implies #[trigger] read_entry_spec(b, q) == Err::<Seq<u8>, ReadFault>(ReadFault::NotFound) by {
        lemma_lookup_found(es, normalized_entry(q));
        if lookup(es, normalized_entry(q)) is Some {
            let e = lookup(es, normalized_entry(q)).unwrap();
            let i = choose|i: int| 0 <= i < es.len() && es[i] == e;
            assert(es[i].path == iv[i].0);
            assert(normalized_entry(iv[i].0) != normalized_entry(q));
        }
    }
}

/// The bytes of an archive of `items`, in their order, each stored with the
/// method its path asks for.
///
/// What is written reads back: where no two paths normalize alike, their count
/// fits the header and the zstd window is one the decoder reads, reading any
/// item's path from the result gives that item's bytes.
pub fn write_archive(items: &Vec<(String, Vec<u8>)>, default_method: u8, compression: HeheCompression) -> (res:
    AppResult<Vec<u8>>)
    ensures
        match res {
            Ok(b) => {
                &&& written_archive(items_view(items@), default_method, compression) == Some(b@)
                &&& (window_ok(compression) && items.len() <= u32::MAX && distinct_entry_paths(
                    items_view(items@),
                )) ==> forall|k: int|
                    0 <= k < items.len() ==> read_entry_spec(b@, #[trigger] items@[k].0@) == Ok::<
                        Seq<u8>,
                        ReadFault,
                    >(items@[k].1@)
                &&& (window_ok(compression) && items.len() <= u32::MAX && distinct_entry_paths(
                    items_view(items@),
                )) ==> forall|q: Seq<char>|
                    #![trigger read_entry_spec(b@, q)]
                    (forall|k: int|
                        0 <= k < items.len() ==> normalized_entry(#[trigger] items@[k].0@) != normalized_entry(q))
                        ==> read_entry_spec(b@, q) == Err::<Seq<u8>, ReadFault>(ReadFault::NotFound)
            },
            Err(e) => {
                &&& written_archive(items_view(items@), default_method, compression) is None
                &&& e is Archive
                &&& laid_out(items_view(items@), default_method, compression) is Some
                    ==> is_archive_error(e, "path too long"@)
            },
        },
{
    let ghost iv = items_view(items@);
    let mut out: Vec<u8> = Vec::new();
    let mut z: usize = 0;
    while z < 32
        invariant
            z <= 32,
            out@ == zeros(z as nat),
        decreases 32 - z,
    {
        out.push(0u8);
        z = z + 1;
        assert(out@ =~= zeros(z as nat));
    }
    let mut es: Vec<TocEntry> = Vec::new();
    let ghost mut comps: Seq<Seq<u8>> = Seq::empty();
    let mut i: usize = 0;
    assert(iv.take(0) =~= Seq::<(Seq<char>, Seq<u8>)>::empty());
    assert(out@.skip(32) =~= Seq::<u8>::empty());
    assert(toc_views(es@) =~= Seq::<TocView>::empty());
    while i < items.len()
        invariant
            i <= items.len(),
            iv == items_view(items@),
            out@.len() >= 32,
            laid_out(iv.take(i as int), default_method, compression) == Some(
                (out@.skip(32), toc_views(es@)),
            ),
            es@.len() == i,
            comps.len() == i,
            forall|j: int|
                0 <= j < i ==> {
                    let e = #[trigger] es@[j];
                    &&& e.data_offset >= 32
                    &&& e.data_offset + e.comp_size <= out@.len()
                    &&& out@.subrange(e.data_offset as int, e.data_offset + e.comp_size) == comps[j]
                    &&& e.method <= 2
                    &&& (window_ok(compression) ==> decompressed(e.method, comps[j]) == Some(iv[j].1))
                    &&& e.crc32 == crc32_of(iv[j].1)
                    &&& e.path@ == iv[j].0
                },
        decreases items.len() - i,
    {
        let path = &items[i].0;
        let raw = &items[i].1;
        assert(iv.take(i + 1).drop_last() =~= iv.take(i as int));
        assert(iv.take(i + 1).last() == iv[i as int]);
        assert(iv[i as int] == (path@, raw@));
        let m = compression_method_for_path(path.as_str(), default_method, compression);
        let (mm, comp) = match compress(m, raw.as_slice(), compression) {
            Ok(x) => x,
            Err(e) => {
                proof {
                    lemma_laid_out_prefix(iv, default_method, compression, i + 1);
                }
                return Err(e);
            },
        };
        let crc = crc32(raw.as_slice());
        let off = out.len() as u64;
        let ghost old_out = out@;
        let ghost old_es = es@;
        es.push(
            TocEntry {
                path: path.clone(),
                method: mm,
                crc32: crc,
                comp_size: comp.len() as u64,
                raw_size: raw.len() as u64,
                data_offset: off,
            },
        );
        out.extend_from_slice(comp.as_slice());
        proof {
            comps = comps.push(comp@);
            assert(out@ =~= old_out + comp@);
            assert(out@.skip(32) =~= old_out.skip(32) + comp@);
            assert(toc_views(es@) =~= toc_views(old_es).push(es@[i as int]@));
            assert forall|j: int| 0 <= j < i + 1 implies {
                let e = #[trigger] es@[j];
                &&& e.data_offset >= 32
                &&& e.data_offset + e.comp_size <= out@.len()
                &&& out@.subrange(e.data_offset as int, e.data_offset + e.comp_size) == comps[j]
                &&& e.method <= 2
                &&& (window_ok(compression) ==> decompressed(e.method, comps[j]) == Some(iv[j].1))
                &&& e.crc32 == crc32_of(iv[j].1)
                &&& e.path@ == iv[j].0
            } by {
                let e = es@[j];
                if j < i {
                    assert(e == old_es[j]);
                    assert(out@.subrange(e.data_offset as int, e.data_offset + e.comp_size)
                        =~= old_out.subrange(e.data_offset as int, e.data_offset + e.comp_size));
                } else {
                    assert(out@.subrange(e.data_offset as int, e.data_offset + e.comp_size)
                        =~= comp@);
                }
            }
        }
        i = i + 1;
    }
    assert(iv.take(items.len() as int) =~= iv);
    let toc = match encode_toc(&es) {
        Ok(v) => v,
        Err(e) => {
            proof {
                let k = choose|k: int| 0 <= k < es@.len() && !path_fits(#[trigger] es@[k].path@);
                assert(toc_views(es@)[k].path == es@[k].path@);
            }
            return Err(e);
        },
    };
    let toc_offset = out.len() as u64;
    let mut magic: Vec<u8> = Vec::new();
    magic.push(72u8);
    magic.push(69u8);
    magic.push(72u8);
    magic.push(69u8);
    assert(magic@ =~= magic_bytes());
    let h = FileHeader {
        magic,
        version: VERSION,
        flags: 0,
        toc_offset,
        toc_count: es.len() as u32,
    };
    let mut fin = encode_header(&h);
    fin.extend_from_slice(slice_subrange(out.as_slice(), 32, out.len()));
    fin.extend_from_slice(toc.as_slice());
    proof {
        let data = out@.skip(32);
        let tv = toc_views(es@);
        assert(h@ == archive_header(data, tv));
        assert(forall|k: int| 0 <= k < tv.len() ==> path_fits(#[trigger] tv[k].path)) by {
            assert forall|k: int| 0 <= k < tv.len() implies path_fits(#[trigger] tv[k].path) by {
                assert(tv[k].path == es@[k].path@);
            }
        }
        assert(out@.subrange(32, out@.len() as int) =~= data);
        assert(fin@ =~= header_bytes(archive_header(data, tv)) + data + toc_bytes(tv));
        if window_ok(compression) && items.len() <= u32::MAX && distinct_entry_paths(iv) {
            assert forall|j: int| 0 <= j < tv.len() implies {
                let e = #[trigger] tv[j];
                &&& e.data_offset >= 32
                &&& e.data_offset + e.comp_size <= out@.len()
                &&& out@.subrange(e.data_offset as int, e.data_offset + e.comp_size) == comps[j]
                &&& e.method <= 2
                &&& decompressed(e.method, comps[j]) == Some(iv[j].1)
                &&& e.crc32 == crc32_of(iv[j].1)
                &&& e.path == iv[j].0
            } by {
                assert(tv[j] == es@[j]@);
            }
            lemma_read_back(fin@, out@, tv, iv, comps);
            assert forall|k: int| 0 <= k < items.len() implies read_entry_spec(
                fin@,
                #[trigger] items@[k].0@,
            ) == Ok::<Seq<u8>, ReadFault>(items@[k].1@) by {
                assert(iv[k] == (items@[k].0@, items@[k].1@));
                assert(read_entry_spec(fin@, iv[k].0) == Ok::<Seq<u8>, ReadFault>(iv[k].1));
            }
        }
    }
    Ok(fin)
}

} // verus!
