//! Packing photos as WebP: which entries are converted, what they are renamed
//! to, and the conversion of a whole file set.
use crate::error::{AppError, AppResult};
use crate::archive::hehe_paths::keys_distinct;
use crate::archive::hehe_toc::items_view;
use crate::path::{extension, extension_of, file_stem, file_stem_of, parent, parent_of};
use crate::text::{
    append_chars, append_str, ascii_lower, ascii_lower_of, chars_of, replace_char,
    replace_char_of, str_eq_chars, string_of,
};
use std::io::Cursor;
use vstd::prelude::*;

verus! {

/// Whether a path's extension is `jpg`, `jpeg` or `png`, in any case.
pub open spec fn is_jpg_or_png(path: Seq<char>) -> bool {
    match extension(path) {
        Some(e) => ascii_lower(e) == "jpg"@ || ascii_lower(e) == "jpeg"@ || ascii_lower(e)
            == "png"@,
        None => false,
    }
}

pub fn is_jpg_or_png_path(path: &str) -> (res: bool)
    ensures
        res == is_jpg_or_png(path@),
{
    let p = chars_of(path);
    match extension_of(&p) {
        Some(e) => {
            let l = ascii_lower_of(&e);
            str_eq_chars("jpg", &l) || str_eq_chars("jpeg", &l) || str_eq_chars("png", &l)
        },
        None => false,
    }
}

/// The path a photo gets once converted: its stem with `.webp`, in the same
/// folder, `\` written as `/`.
pub open spec fn webp_path(path: Seq<char>) -> Seq<char> {
    let stem = match file_stem(path) {
        Some(s) => s,
        None => path,
    };
    let file_name = stem + ".webp"@;
    match parent(path) {
        Some(par) => if par.len() > 0 {
            replace_char(par + seq!['/'] + file_name, '\\', '/')
        } else {
            file_name
        },
        None => file_name,
    }
}

pub fn webp_path_for(path: &str) -> (res: String)
    ensures
        res@ == webp_path(path@),
{
    let p = chars_of(path);
    let mut file_name = match file_stem_of(&p) {
        Some(s) => s,
        None => chars_of(path),
    };
    append_str(&mut file_name, ".webp");
    match parent_of(&p) {
        Some(par) => {
            if par.len() > 0 {
                let mut whole = par;
                whole.push('/');
                append_chars(&mut whole, &file_name);
                let r = replace_char_of(&whole, '\\', '/');
                string_of(&r)
            } else {
                string_of(&file_name)
            }
        },
        None => string_of(&file_name),
    }
}

/// What decoding an image (its format guessed from its bytes) and encoding it
/// as WebP gives, where both succeed.
pub uninterp spec fn webp_encoded(bytes: Seq<u8>) -> Option<Seq<u8>>;

/// `image::ImageReader` over the bytes with the format guessed, `decode`, then
/// `write_to` with `ImageFormat::WebP`. The result is named `webp_encoded`; the
/// text of an error is the outside error's, and is not stated.
#[verifier::external_body]
pub fn encode_webp_full(bytes: &[u8]) -> (res: AppResult<Vec<u8>>)
    ensures
        match res {
            Ok(v) => webp_encoded(bytes@) == Some(v@),
            Err(e) => webp_encoded(bytes@) is None && e is Archive,
        },
{
    let reader = match image::ImageReader::new(Cursor::new(bytes)).with_guessed_format() {
        Ok(r) => r,
        Err(e) => return Err(AppError::Archive(e.to_string())),
    };
    let img = match reader.decode() {
        Ok(i) => i,
        Err(e) => return Err(AppError::Archive(e.to_string())),
    };
    let mut out: Vec<u8> = Vec::new();
    match img.write_to(&mut Cursor::new(&mut out), image::ImageFormat::WebP) {
        Ok(()) => Ok(out),
        Err(e) => Err(AppError::Archive(e.to_string())),
    }
}

/// Whether a file set (as plain values) holds `path`.
pub open spec fn holds_path(fs: Seq<(Seq<char>, Seq<u8>)>, path: Seq<char>) -> bool {
    exists|i: int| 0 <= i < fs.len() && #[trigger] fs[i].0 == path
}

/// The new name and bytes of file `i`, if it is converted: a photo whose WebP
/// form is smaller, and whose new name is free.
pub open spec fn converted_at(fs: Seq<(Seq<char>, Seq<u8>)>, i: int) -> Option<(Seq<char>, Seq<u8>)> {
    let k = fs[i].0;
    let raw = fs[i].1;
    if !is_jpg_or_png(k) {
        None
    } else {
        match webp_encoded(raw) {
            None => None,
            Some(w) => if w.len() >= raw.len() {
                None
            } else if webp_path(k) != k && holds_path(fs, webp_path(k)) {
                None
            } else {
                Some((webp_path(k), w))
            },
        }
    }
}

/// The file set after the first `n` files were considered in order.
pub open spec fn webp_fold(fs: Seq<(Seq<char>, Seq<u8>)>, n: nat) -> Seq<(Seq<char>, Seq<u8>)>
    decreases n,
{
    if n == 0 {
        fs
    } else {
        let s = webp_fold(fs, (n - 1) as nat);
        match converted_at(s, n - 1) {
            Some(x) => s.update(n - 1, x),
            None => s,
        }
    }
}

proof fn lemma_webp_fold_len(fs: Seq<(Seq<char>, Seq<u8>)>, n: nat)
    requires
        n <= fs.len(),
    ensures
        webp_fold(fs, n).len() == fs.len(),
        forall|j: int| n <= j < fs.len() ==> #[trigger] webp_fold(fs, n)[j] == fs[j],
    decreases n,
{
    if n > 0 {
        lemma_webp_fold_len(fs, (n - 1) as nat);
    }
}

/// Converts, in order, the photos of a file set that get smaller as WebP and
/// whose new name is free; a converted file keeps its place under its new
/// name. Returns each original path with the path it ended up under.
pub fn apply_webp_conversion(files: &mut Vec<(String, Vec<u8>)>) -> (res: AppResult<Vec<(String, String)>>)
    ensures
        items_view(final(files)@) == webp_fold(items_view(old(files)@), old(files)@.len()),
        final(files)@.len() == old(files)@.len(),
        keys_distinct(old(files)@) ==> keys_distinct(final(files)@),
        res matches Ok(map) && map@.len() == old(files)@.len() && forall|i: int|
            0 <= i < map@.len() ==> (#[trigger] map@[i]).0@ == old(files)@[i].0@ && map@[i].1@
                == final(files)@[i].0@,
{
    let ghost start = items_view(files@);
    let mut map: Vec<(String, String)> = Vec::new();
    let mut i: usize = 0;
    while i < files.len()
        invariant
            i <= files.len(),
            start == items_view(old(files)@),
            files@.len() == old(files)@.len(),
            items_view(files@) == webp_fold(start, i as nat),
            map@.len() == i,
            keys_distinct(old(files)@) ==> keys_distinct(files@),
            forall|j: int|
                i <= j < files@.len() ==> #[trigger] files@[j] == old(files)@[j],
            forall|j: int|
                0 <= j < i ==> (#[trigger] map@[j]).0@ == old(files)@[j].0@ && map@[j].1@
                    == files@[j].0@,
        decreases files.len() - i,
    {
        let ghost cur = items_view(files@);
        assert(cur[i as int] == (files@[i as int].0@, files@[i as int].1@));
        let key = files[i].0.clone();
        let mut converted: Option<(String, Vec<u8>)> = None;
        if is_jpg_or_png_path(key.as_str()) {
            match encode_webp_full(files[i].1.as_slice()) {
                Ok(w) => {
                    if w.len() < files[i].1.len() {
                        let new_path = webp_path_for(key.as_str());
                        let np = chars_of(new_path.as_str());
                        let same = str_eq_chars(key.as_str(), &np);
                        let mut taken = false;
                        let mut j: usize = 0;
                        while j < files.len()
                            invariant
                                j <= files.len(),
                                np@ == new_path@,
                                cur == items_view(files@),
                                taken == exists|q: int|
                                    0 <= q < j && #[trigger] cur[q].0 == new_path@,
                            decreases files.len() - j,
                        {
                            assert(cur[j as int].0 == files@[j as int].0@);
                            if str_eq_chars(files[j].0.as_str(), &np) {
                                taken = true;
                            }
                            j = j + 1;
                        }
                        if same || !taken {
                            converted = Some((new_path, w));
                        }
                    }
                },
                Err(_) => {},
            }
        }
        let ghost before = files@;
        match converted {
            Some((np, w)) => {
                let final_key = np.clone();
                let ghost nv = (np@, w@);
                files[i] = (np, w);
                map.push((key, final_key));
                proof {
                    assert(converted_at(cur, i as int) == Some(nv));
                    assert(items_view(files@) =~= cur.update(i as int, nv));
                    assert forall|a: int, b: int|
                        0 <= a < b < files@.len() && keys_distinct(old(files)@) implies #[trigger] files@[a].0@
                        != #[trigger] files@[b].0@ by {
                        assert(keys_distinct(before));
                        if a != i && b != i {
                            assert(files@[a] == before[a]);
                            assert(files@[b] == before[b]);
                        } else if a == i {
                            assert(files@[b] == before[b]);
                            assert(cur[b].0 == before[b].0@);
                        } else {
                            assert(files@[a] == before[a]);
                            assert(cur[a].0 == before[a].0@);
                        }
                    }
                }
            },
            None => {
                let same_key = key.clone();
                map.push((key, same_key));
                assert(converted_at(cur, i as int) is None);
            },
        }
        i = i + 1;
    }
    Ok(map)
}

} // verus!
