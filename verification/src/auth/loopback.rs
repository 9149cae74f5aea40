//! The loopback side of signing in: the login URL, and what the local HTTP
//! listener answers. The listener itself runs in the application.
use crate::error::{is_auth_error, AppError};
use crate::text::{
    append_chars, append_str, chars_of, dec, dec_of, find, find_of, has_char, lines, lines_of,
    slice_chars, split_of, split_pieces, str_eq_chars, string_of, strip_prefix, strip_prefix_of,
    trim_end_char, trim_end_char_of, words, words_of, first_index, first_index_of,
    lemma_index_of_from,
};
use crate::urls::{url_decode, url_decoded, url_encode, url_encoded};
use crate::digests::{sha256_digest, sha256_of};
use vstd::slice::slice_to_vec;
use vstd::utf8::encode_utf8;
use subtle::ConstantTimeEq;
use base64::Engine;
use vstd::prelude::*;

verus! {

/// What a sign-in reports.
#[derive(Debug, Clone)]
pub struct AuthLoginResult {
    pub ok: bool,
    pub message: String,
}

/// What `base64`'s `URL_SAFE_NO_PAD` engine writes for `b`.
pub uninterp spec fn b64url_encoded(b: Seq<u8>) -> Seq<char>;

/// What `base64`'s `URL_SAFE_NO_PAD` engine reads from `s`, where it is valid.
pub uninterp spec fn b64url_decoded(s: Seq<char>) -> Option<Seq<u8>>;

/// `URL_SAFE_NO_PAD.encode(b)`: the result is named `b64url_encoded`; decoding
/// it gives `b` back.
#[verifier::external_body]
fn b64url_encode(b: &[u8]) -> (res: String)
    ensures
        res@ == b64url_encoded(b@),
        b64url_decoded(res@) == Some(b@),
{
    base64::engine::general_purpose::URL_SAFE_NO_PAD.encode(b)
}

/// `URL_SAFE_NO_PAD.decode(s)`: the result is named `b64url_decoded`.
#[verifier::external_body]
fn b64url_decode(s: &str) -> (res: Option<Vec<u8>>)
    ensures
        match res {
            Some(v) => b64url_decoded(s@) == Some(v@),
            None => b64url_decoded(s@) is None,
        },
{
    match base64::engine::general_purpose::URL_SAFE_NO_PAD.decode(s.as_bytes()) {
        Ok(v) => Some(v),
        Err(_) => None,
    }
}

/// `subtle`'s `ConstantTimeEq` on byte slices, unwrapped: 1 exactly where the
/// slices have the same length and the same bytes.
#[verifier::external_body]
fn ct_equal(a: &[u8], b: &[u8]) -> (res: bool)
    ensures
        res == (a@ == b@),
{
    a.ct_eq(b).unwrap_u8() == 1
}

/// The `state` parameter sent with a sign-in: the state bytes, base64url.
pub fn state_param_for(state: &[u8]) -> (res: String)
    ensures
        res@ == b64url_encoded(state@),
        b64url_decoded(res@) == Some(state@),
{
    b64url_encode(state)
}

/// The PKCE code verifier sent with the exchange: the secret bytes, base64url
/// (32 random bytes give 43 characters, as RFC 7636 asks).
pub fn pkce_verifier_for(secret: &[u8]) -> (res: String)
    ensures
        res@ == b64url_encoded(secret@),
{
    b64url_encode(secret)
}

/// The PKCE code challenge of a verifier (method S256): the base64url form of
/// the SHA-256 digest of the verifier's bytes.
pub open spec fn pkce_challenge_spec(verifier: Seq<char>) -> Seq<char> {
    b64url_encoded(sha256_of(encode_utf8(verifier)))
}

pub fn pkce_challenge(verifier: &str) -> (res: String)
    ensures
        res@ == pkce_challenge_spec(verifier@),
{
    let bytes = slice_to_vec(verifier.as_bytes());
    let digest = sha256_digest(bytes.as_slice());
    b64url_encode(digest.as_slice())
}

/// The URL the browser is sent to: the auth server's `/login`, told to come
/// back to the loopback listener with the state, and given the PKCE code
/// challenge (method S256).
pub open spec fn login_url_spec(heron_auth_url: Seq<char>, port: u16, state_param: Seq<char>, challenge: Seq<char>) -> Seq<char> {
    trim_end_char(heron_auth_url, '/') + "/login?return_to="@ + url_encoded(
        "http://127.0.0.1:"@ + dec(port as nat) + "/callback?state="@ + url_encoded(state_param),
    ) + "&code_challenge="@ + url_encoded(challenge) + "&code_challenge_method=S256"@
}

pub fn login_url(heron_auth_url: &str, port: u16, state_param: &str, challenge: &str) -> (res: String)
    ensures
        res@ == login_url_spec(heron_auth_url@, port, state_param@, challenge@),
{
    let mut ret = chars_of("http://127.0.0.1:");
    append_chars(&mut ret, &dec_of(port as u64));
    append_str(&mut ret, "/callback?state=");
    let enc_state = url_encode(state_param);
    append_str(&mut ret, enc_state.as_str());
    let return_to = string_of(&ret);
    let mut out = trim_end_char_of(&chars_of(heron_auth_url), '/');
    append_str(&mut out, "/login?return_to=");
    let enc_ret = url_encode(return_to.as_str());
    append_str(&mut out, enc_ret.as_str());
    append_str(&mut out, "&code_challenge=");
    let enc_ch = url_encode(challenge);
    append_str(&mut out, enc_ch.as_str());
    append_str(&mut out, "&code_challenge_method=S256");
    string_of(&out)
}

/// Where the access token is exchanged for a session.
pub fn exchange_url(hcom_api_url: &str) -> (res: String)
    ensures
        res@ == trim_end_char(hcom_api_url@, '/') + "/api/auth/heron/exchange"@,
{
    let mut out = trim_end_char_of(&chars_of(hcom_api_url), '/');
    append_str(&mut out, "/api/auth/heron/exchange");
    string_of(&out)
}

/// What the listener is asked for.
pub enum Route {
    /// `GET /callback...`: the page that finishes the sign-in.
    Callback,
    /// `POST /finish...`, with the request target.
    Finish(String),
    NotFound,
}

/// The method and target of a request: the first two words of its first line.
pub open spec fn request_line_words(req: Seq<char>) -> Seq<Seq<char>> {
    let ls = lines(req);
    if ls.len() == 0 {
        Seq::empty()
    } else {
        words(ls[0])
    }
}

/// What a request asks for.
pub open spec fn route_of(req: Seq<char>) -> (int, Seq<char>) {
    let ws = request_line_words(req);
    let method = if ws.len() > 0 {
        ws[0]
    } else {
        Seq::empty()
    };
    let target = if ws.len() > 1 {
        ws[1]
    } else {
        Seq::empty()
    };
    if method == "GET"@ && strip_prefix(target, "/callback"@) is Some {
        (0, target)
    } else if method == "POST"@ && strip_prefix(target, "/finish"@) is Some {
        (1, target)
    } else {
        (2, target)
    }
}

pub fn route(req: &str) -> (res: Route)
    ensures
        match res {
            Route::Callback => route_of(req@).0 == 0,
            Route::Finish(t) => route_of(req@).0 == 1 && t@ == route_of(req@).1,
            Route::NotFound => route_of(req@).0 == 2,
        },
{
    let ls = lines_of(&chars_of(req));
    let ws = if ls.len() == 0 {
        Vec::new()
    } else {
        assert(ls.deep_view()[0] == ls@[0]@);
        words_of(&ls[0])
    };
    let empty: Vec<char> = Vec::new();
    let method = if ws.len() > 0 {
        assert(ws.deep_view()[0] == ws@[0]@);
        slice_chars(&ws[0], 0, ws[0].len())
    } else {
        empty
    };
    assert(ws.len() > 0 ==> ws@[0]@.subrange(0, ws@[0]@.len() as int) =~= ws@[0]@);
    let target = if ws.len() > 1 {
        assert(ws.deep_view()[1] == ws@[1]@);
        assert(ws@[1]@.subrange(0, ws@[1]@.len() as int) =~= ws@[1]@);
        slice_chars(&ws[1], 0, ws[1].len())
    } else {
        Vec::new()
    };
    if str_eq_chars("GET", &method) && strip_prefix_of(&target, &chars_of("/callback")).is_some() {
        Route::Callback
    } else if str_eq_chars("POST", &method) && strip_prefix_of(&target, &chars_of("/finish")).is_some() {
        Route::Finish(string_of(&target))
    } else {
        Route::NotFound
    }
}

/// The first `state=` parameter of a request target's query, where there is one.
pub open spec fn query_state_raw(target: Seq<char>) -> Option<Seq<char>> {
    let parts = split_pieces(target, '?');
    if parts.len() < 2 {
        None
    } else {
        first_state(split_pieces(parts[1], '&'))
    }
}

/// The value of the first parameter that starts with `state=`.
pub open spec fn first_state(ps: Seq<Seq<char>>) -> Option<Seq<char>>
    decreases ps.len(),
{
    if ps.len() == 0 {
        None
    } else {
        match strip_prefix(ps[0], "state="@) {
            Some(v) => Some(v),
            None => first_state(ps.drop_first()),
        }
    }
}

/// The state a finishing request carries, percent-decoded.
pub open spec fn query_state(target: Seq<char>) -> Option<Seq<char>> {
    match query_state_raw(target) {
        Some(v) => url_decoded(v),
        None => None,
    }
}

/// The state a finishing request carries; an error where it carries none.
pub fn finish_query_state(target: &str) -> (res: Result<String, AppError>)
    ensures
        match res {
            Ok(s) => query_state(target@) == Some(s@),
            Err(e) => query_state(target@) is None && is_auth_error(e, "missing state"@),
        },
{
    let parts = split_of(&chars_of(target), '?');
    if parts.len() < 2 {
        return Err(AppError::Auth(String::from_str("missing state")));
    }
    assert(parts.deep_view()[1] == parts@[1]@);
    let ps = split_of(&parts[1], '&');
    let ghost pv = ps.deep_view();
    let prefix = chars_of("state=");
    let mut i: usize = 0;
    assert(pv.skip(0) =~= pv);
    assert(query_state_raw(target@) == first_state(pv));
    while i < ps.len()
        invariant
            i <= ps.len(),
            pv == ps.deep_view(),
            prefix@ == "state="@,
            query_state_raw(target@) == first_state(pv.skip(i as int)),
        decreases ps.len() - i,
    {
        assert(pv.skip(i as int)[0] == ps@[i as int]@);
        assert(pv.skip(i as int).drop_first() =~= pv.skip(i + 1));
        match strip_prefix_of(&ps[i], &prefix) {
            Some(v) => {
                let raw = string_of(&v);
                return match url_decode(raw.as_str()) {
                    Ok(s) => Ok(s),
                    Err(_) => Err(AppError::Auth(String::from_str("missing state"))),
                };
            },
            None => {},
        }
        i = i + 1;
    }
    Err(AppError::Auth(String::from_str("missing state")))
}

/// Whether a returned state is the one that was sent: it decodes, and to
/// exactly the expected 32 bytes.
pub open spec fn state_matches(query_state: Seq<char>, expected: Seq<u8>) -> bool {
    b64url_decoded(query_state) matches Some(b) && b.len() == 32 && b == expected
}

/// Checks a returned state against the one that was sent (in constant time).
pub fn check_state(query_state: &str, expected: &[u8]) -> (res: Result<(), AppError>)
    ensures
        res is Ok <==> state_matches(query_state@, expected@),
        res matches Err(e) ==> (b64url_decoded(query_state@) is None ==> is_auth_error(e, "bad state"@))
            && (b64url_decoded(query_state@) is Some ==> is_auth_error(e, "state mismatch"@)),
{
    let bytes = match b64url_decode(query_state) {
        Some(b) => b,
        None => return Err(AppError::Auth(String::from_str("bad state"))),
    };
    if bytes.len() != 32 || !ct_equal(bytes.as_slice(), expected) {
        return Err(AppError::Auth(String::from_str("state mismatch")));
    }
    Ok(())
}

/// A callback that carries back the state that was sent is accepted, where
/// that state has 32 bytes.
pub proof fn lemma_sent_state_accepted(state: Seq<u8>)
    requires
        state.len() == 32,
        b64url_decoded(b64url_encoded(state)) == Some(state),
    ensures
        state_matches(b64url_encoded(state), state),
{
}

/// The body of a request: what follows the first blank line (the whole request
/// where there is none).
pub open spec fn request_body_spec(req: Seq<char>) -> Seq<char> {
    match find(req, "\r\n\r\n"@) {
        Some(i) => req.skip(i + 4),
        None => req,
    }
}

pub fn request_body(req: &str) -> (res: String)
    ensures
        res@ == request_body_spec(req@),
{
    let r = chars_of(req);
    let sep = chars_of("\r\n\r\n");
    proof {
        reveal_strlit("\r\n\r\n");
    }
    match find_of(&r, &sep) {
        Some(i) => {
            let n = r.len();
            assert(i + 4 <= n);
            let b = slice_chars(&r, i + 4, n);
            assert(b@ =~= r@.skip(i + 4));
            string_of(&b)
        },
        None => string_of(&r),
    }
}

/// What the JSON body of a finishing request holds under `accessToken`: `None`
/// where it is not JSON, `Some(None)` where the field is missing or not a string.
pub uninterp spec fn json_access_token(body: Seq<char>) -> Option<Option<Seq<char>>>;

/// `serde_json::from_str::<serde_json::Value>(body)`, then `get("accessToken")`
/// and `as_str()`. The result is named `json_access_token`; the text of a parse
/// error is not stated.
#[verifier::external_body]
fn access_token_field(body: &str) -> (res: Result<Option<String>, String>)
    ensures
        match res {
            Ok(Some(t)) => json_access_token(body@) == Some(Some(t@)),
            Ok(None) => json_access_token(body@) == Some(None::<Seq<char>>),
            Err(_) => json_access_token(body@) is None,
        },
{
    match serde_json::from_str::<serde_json::Value>(body) {
        Ok(v) => Ok(v.get("accessToken").and_then(|t| t.as_str()).map(|t| t.to_string())),
        Err(e) => Err(e.to_string()),
    }
}

/// The access token a finishing request carries, after its state is checked.
pub open spec fn finish_token(req: Seq<char>, target: Seq<char>, expected: Seq<u8>) -> Option<Seq<char>> {
    match query_state(target) {
        None => None,
        Some(qs) => if !state_matches(qs, expected) {
            None
        } else {
            match json_access_token(request_body_spec(req)) {
                Some(Some(t)) => Some(t),
                _ => None,
            }
        },
    }
}

/// The access token of a finishing request: its state must be the one sent,
/// and its JSON body must carry `accessToken`.
pub fn finish_access_token(req: &str, target: &str, expected: &[u8]) -> (res: Result<String, AppError>)
    ensures
        match res {
            Ok(t) => finish_token(req@, target@, expected@) == Some(t@),
            Err(e) => finish_token(req@, target@, expected@) is None && e is Auth,
        },
{
    let qs = match finish_query_state(target) {
        Ok(s) => s,
        Err(e) => return Err(e),
    };
    match check_state(qs.as_str(), expected) {
        Ok(()) => {},
        Err(e) => return Err(e),
    }
    let body = request_body(req);
    match access_token_field(body.as_str()) {
        Ok(Some(t)) => Ok(t),
        Ok(None) => Err(AppError::Auth(String::from_str("missing accessToken"))),
        Err(m) => {
            let mut v = chars_of("body: ");
            append_str(&mut v, m.as_str());
            Err(AppError::Auth(string_of(&v)))
        },
    }
}

/// The result of a sign-in that succeeded.
pub fn login_succeeded() -> (res: AuthLoginResult)
    ensures
        res.ok,
        res.message@ == "Вход выполнен"@,
{
    AuthLoginResult { ok: true, message: String::from_str("Вход выполнен") }
}

} // verus!
