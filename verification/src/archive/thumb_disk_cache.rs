//! Where thumbnails are kept on disk.
use crate::archive::hehe_paths::{normalize_entry_path, normalized_entry};
use crate::digests::{sha256_hex, sha256_hex_of};
use crate::path::{join, join_of, parent, parent_of};
use crate::text::{append_str, chars_of, string_of};
use vstd::prelude::*;
use vstd::slice::slice_to_vec;
use vstd::utf8::encode_utf8;

verus! {

/// The thumbnail folder: beside the extraction cache where it has a parent.
pub fn thumb_root(cache_root: &str) -> (res: String)
    ensures
        res@ == match parent(cache_root@) {
            Some(p) => join(p, "thumb-cache"@),
            None => join(cache_root@, "thumb-cache"@),
        },
{
    let c = chars_of(cache_root);
    let name = chars_of("thumb-cache");
    let j = match parent_of(&c) {
        Some(p) => join_of(&p, &name),
        None => join_of(&c, &name),
    };
    string_of(&j)
}

/// The key of an entry's thumbnail: the SHA-256 of its normalized path.
pub fn entry_key(entry_path: &str) -> (res: String)
    ensures
        res@ == sha256_hex_of(encode_utf8(normalized_entry(entry_path@))),
{
    let norm = normalize_entry_path(entry_path);
    let data = slice_to_vec(norm.as_str().as_bytes());
    sha256_hex(data.as_slice())
}

/// Where the thumbnail of an entry of an archive is kept.
pub fn thumb_path(thumb_root: &str, archive_hash: &str, entry_path: &str) -> (res: String)
    ensures
        res@ == join(
            join(thumb_root@, archive_hash@),
            sha256_hex_of(encode_utf8(normalized_entry(entry_path@))) + ".webp"@,
        ),
{
    let mut name = chars_of(entry_key(entry_path).as_str());
    append_str(&mut name, ".webp");
    let a = join_of(&chars_of(thumb_root), &chars_of(archive_hash));
    let j = join_of(&a, &name);
    string_of(&j)
}

} // verus!
