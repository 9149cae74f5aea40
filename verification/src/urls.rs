//! Percent-encoding (`urlencoding`). Trusted.
use crate::text::has_char;
use vstd::prelude::*;

verus! {

/// The text of a successful result, `None` for a failure.
pub open spec fn ok_text(r: Result<String, String>) -> Option<Seq<char>> {
    match r {
        Ok(t) => Some(t@),
        Err(_) => None,
    }
}

/// What `urlencoding::decode` gives for `s`, where the decoded bytes are UTF-8.
pub uninterp spec fn url_decoded(s: Seq<char>) -> Option<Seq<char>>;

/// `urlencoding::decode(s)` made owned. The result is named `url_decoded`;
/// text with no `%` comes back as it is (the crate returns it borrowed). The
/// text of an error is not stated.
#[verifier::external_body]
pub(crate) fn url_decode(s: &str) -> (res: Result<String, String>)
    ensures
        ok_text(res) == url_decoded(s@),
        !has_char(s@, '%') ==> ok_text(res) == Some(s@),
{
    match urlencoding::decode(s) {
        Ok(d) => Ok(d.into_owned()),
        Err(e) => Err(e.to_string()),
    }
}

/// What `urlencoding::encode` gives for `s`.
pub uninterp spec fn url_encoded(s: Seq<char>) -> Seq<char>;

/// `urlencoding::encode(s)` made owned; the result is named `url_encoded`.
#[verifier::external_body]
pub(crate) fn url_encode(s: &str) -> (res: String)
    ensures
        res@ == url_encoded(s@),
{
    urlencoding::encode(s).into_owned()
}

} // verus!
