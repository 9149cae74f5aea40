//! Preview URIs: `<scheme>preview/<archive id>/<entry path, percent-encoded>`.
use crate::error::{is_archive_error, AppError, AppResult};
use crate::text::{chars_of, find, find_of, first_index, first_index_of, lemma_index_of_from, slice_chars, string_of};
use crate::urls::{url_decode, url_decoded};
use vstd::prelude::*;

verus! {

/// The text up to the first `?` or `#`.
pub open spec fn until_query(s: Seq<char>) -> Seq<char>
    decreases s.len(),
{
    if s.len() == 0 {
        s
    } else if s[0] == '?' || s[0] == '#' {
        Seq::empty()
    } else {
        seq![s[0]] + until_query(s.drop_first())
    }
}

fn until_query_of(s: &Vec<char>) -> (res: Vec<char>)
    ensures
        res@ == until_query(s@),
{
    let mut i: usize = 0;
    assert(s@.skip(0) =~= s@);
    while i < s.len() && s[i] != '?' && s[i] != '#'
        invariant
            i <= s.len(),
            until_query(s@) == s@.take(i as int) + until_query(s@.skip(i as int)),
        decreases s.len() - i,
    {
        assert(s@.skip(i as int)[0] == s@[i as int]);
        assert(s@.skip(i as int).drop_first() =~= s@.skip(i + 1));
        assert(s@.take(i + 1) =~= s@.take(i as int) + seq![s@[i as int]]);
        i = i + 1;
    }
    if i < s.len() {
        assert(s@.skip(i as int)[0] == s@[i as int]);
    } else {
        assert(s@.skip(i as int) =~= Seq::<char>::empty());
    }
    assert(s@.take(i as int) + Seq::<char>::empty() =~= s@.take(i as int));
    slice_chars(s, 0, i)
}

/// The archive id and entry path that a preview URI names; `None` where it
/// names none.
pub open spec fn preview_target(uri: Seq<char>) -> Option<(Seq<char>, Seq<char>)> {
    match url_decoded(uri) {
        None => None,
        Some(decoded) => match find(decoded, "preview/"@) {
            None => None,
            Some(pos) => {
                let rest = until_query(decoded.skip(pos + 8));
                match first_index(rest, '/') {
                    None => None,
                    Some(k) => match url_decoded(rest.skip(k + 1)) {
                        None => None,
                        Some(entry) => Some((rest.take(k), entry)),
                    },
                }
            },
        },
    }
}

/// The archive id and entry path that a preview URI names. The URI is
/// percent-decoded once, and the entry path once more.
pub fn parse_preview_uri(uri: &str) -> (res: AppResult<(String, String)>)
    ensures
        match res {
            Ok((id, entry)) => preview_target(uri@) == Some((id@, entry@)),
            Err(e) => preview_target(uri@) is None && e is Archive,
        },
{
    let decoded = match url_decode(uri) {
        Ok(d) => d,
        Err(m) => return Err(AppError::Archive(m)),
    };
    let dc = chars_of(decoded.as_str());
    let marker = chars_of("preview/");
    proof {
        reveal_strlit("preview/");
    }
    let pos = match find_of(&dc, &marker) {
        Some(p) => {
            assert(p + marker@.len() <= dc@.len());
            p
        },
        None => return Err(AppError::Archive(String::from_str("bad preview uri"))),
    };
    assert(marker@.len() == 8);
    let n = dc.len();
    assert(pos + 8 <= n);
    let after = slice_chars(&dc, pos + 8, n);
    assert(after@ =~= dc@.skip(pos + 8));
    let rest = until_query_of(&after);
    proof {
        lemma_index_of_from(rest@, '/', 0);
    }
    let k = match first_index_of(&rest, '/') {
        Some(k) => k,
        None => return Err(AppError::Archive(String::from_str("bad preview uri"))),
    };
    let id = slice_chars(&rest, 0, k);
    let enc = slice_chars(&rest, k + 1, rest.len());
    assert(id@ =~= rest@.take(k as int));
    assert(enc@ =~= rest@.skip(k + 1));
    let enc_s = string_of(&enc);
    let entry = match url_decode(enc_s.as_str()) {
        Ok(d) => d,
        Err(m) => return Err(AppError::Archive(m)),
    };
    Ok((string_of(&id), entry))
}

} // verus!
