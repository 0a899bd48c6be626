//! Double-submit CSRF protection: a token and a cookie sealed with one
//! process-wide key, checked as a pair on every protected request.
use csrf::CsrfProtection;
use crate::errors::ServerError;
use crate::jwt::constant_time_eq;
use vstd::prelude::*;
use vstd::utf8::encode_utf8;

verus! {

#[verifier::external_type_specification]
#[verifier::external_body]
pub struct ExUnencryptedCsrfCookie(csrf::UnencryptedCsrfCookie);

/// Seconds a CSRF pair stays valid.
pub const CSRF_TTL_SECONDS: i64 = 300;

/// What standard padded base64 decoding of `s` gives, if it is valid.
pub uninterp spec fn b64_decoded(s: Seq<u8>) -> Option<Seq<u8>>;

/// The value sealed in a CSRF token, if it opens under `key`.
pub uninterp spec fn csrf_token_value(key: Seq<u8>, token: Seq<u8>) -> Option<Seq<u8>>;

/// The value sealed in a CSRF cookie, if it opens under `key`.
pub uninterp spec fn csrf_cookie_value(key: Seq<u8>, cookie: Seq<u8>) -> Option<Seq<u8>>;

/// Relies on data_encoding::BASE64.decode.
#[verifier::external_body]
fn b64_decode(s: &[u8]) -> (r: Option<Vec<u8>>)
    ensures
        r is Some <==> b64_decoded(s@) is Some,
        r matches Some(b) ==> b64_decoded(s@) == Some(b@),
{
    data_encoding::BASE64.decode(s).ok()
}

/// Relies on AesGcmCsrfProtection::parse_token: it decrypts and
/// authenticates the token and yields its value, and fails on anything else.
#[verifier::external_body]
fn csrf_open_token(key: &[u8; 32], token: &[u8]) -> (r: Option<Vec<u8>>)
    ensures
        r is Some <==> csrf_token_value(key@, token@) is Some,
        r matches Some(v) ==> csrf_token_value(key@, token@) == Some(v@),
{
    csrf::AesGcmCsrfProtection::from_key(*key).parse_token(token).ok().map(|t| t.value().to_vec())
}

/// Relies on AesGcmCsrfProtection::parse_cookie: it decrypts and
/// authenticates the cookie and yields its value and expiry, and fails on
/// anything else.
#[verifier::external_body]
fn csrf_open_cookie(key: &[u8; 32], cookie: &[u8]) -> (r: Option<(Vec<u8>, csrf::UnencryptedCsrfCookie)>)
    ensures
        r is Some <==> csrf_cookie_value(key@, cookie@) is Some,
        r matches Some(p) ==> csrf_cookie_value(key@, cookie@) == Some(p.0@),
{
    csrf::AesGcmCsrfProtection::from_key(*key).parse_cookie(cookie).ok().map(|c| (c.value().to_vec(), c))
}

/// Relies on CsrfProtection::verify_token_pair: whether the token's value is
/// the cookie's and the cookie's expiry is after the current time.
#[verifier::external_body]
fn csrf_pair_fresh(key: &[u8; 32], token_value: &[u8], cookie: &csrf::UnencryptedCsrfCookie) -> bool {
    let token = csrf::UnencryptedCsrfToken::new(token_value.to_vec());
    csrf::AesGcmCsrfProtection::from_key(*key).verify_token_pair(&token, cookie)
}

/// Longest validity accepted for a CSRF pair: one year.
pub const MAX_CSRF_TTL_SECONDS: i64 = 31536000;

/// Whether a token and cookie, as sent in standard base64, both open under
/// `key` and hold the same value.
pub open spec fn csrf_pair_opens(key: Seq<u8>, token: Seq<char>, cookie: Seq<char>) -> bool {
    match (b64_decoded(encode_utf8(token)), b64_decoded(encode_utf8(cookie))) {
        (Some(tb), Some(cb)) => csrf_token_value(key, tb) is Some && csrf_token_value(key, tb)
            == csrf_cookie_value(key, cb),
        _ => false,
    }
}

/// Relies on CsrfProtection::generate_token_pair, which seals one 64-byte
/// value into both the token and the cookie with `key`, and on their
/// `b64_string`, standard base64 of the sealed bytes. The expiry it adds to
/// the current time stays inside chrono's range for the accepted lifetimes.
#[verifier::external_body]
fn csrf_new_pair(key: &[u8; 32], ttl_seconds: i64) -> (r: Option<(String, String)>)
    requires
        0 <= ttl_seconds <= MAX_CSRF_TTL_SECONDS,
    ensures
        r matches Some(p) ==> csrf_pair_opens(key@, p.0@, p.1@),
{
    csrf::AesGcmCsrfProtection::from_key(*key).generate_token_pair(None, ttl_seconds).ok().map(
        |(t, c)| (t.b64_string(), c.b64_string()),
    )
}

/// Generates a CSRF token and cookie, both in standard base64, valid for
/// `ttl_seconds`. Whatever the random source gives, the two form a pair:
/// both open under `key` to the same value.
pub fn generate_pair(key: &[u8; 32], ttl_seconds: i64) -> (r: Result<(String, String), ServerError>)
    requires
        0 <= ttl_seconds <= MAX_CSRF_TTL_SECONDS,
    ensures
        r matches Err(e) ==> e is InternalServerError,
        r matches Ok(p) ==> csrf_pair_opens(key@, p.0@, p.1@),
{
    match csrf_new_pair(key, ttl_seconds) {
        Some(p) => Ok(p),
        None => Err(ServerError::InternalServerError("Failed to generate CSRF token".to_string())),
    }
}

/// The checks of a CSRF token and cookie, as sent in the headers, that do
/// not depend on the time: both present, both base64, both open under the
/// key, and both holding the same value. `Err` holds the message refused
/// requests get.
pub open spec fn csrf_precheck(key: Seq<u8>, token_header: Option<&str>, cookie_header: Option<&str>) -> Result<(), Seq<char>> {
    match token_header {
        None => Err("missing csrf token"@),
        Some(t) => match cookie_header {
            None => Err("missing csrf cookie"@),
            Some(c) => match b64_decoded(encode_utf8(t@)) {
                None => Err("invalid csrf token"@),
                Some(tb) => match b64_decoded(encode_utf8(c@)) {
                    None => Err("invalid csrf cookie"@),
                    Some(cb) => match csrf_token_value(key, tb) {
                        None => Err("invalid csrf token"@),
                        Some(tv) => match csrf_cookie_value(key, cb) {
                            None => Err("invalid csrf cookie"@),
                            Some(cv) => if tv == cv {
                                Ok(())
                            } else {
                                Err(pair_refused_message())
                            },
                        },
                    },
                },
            },
        },
    }
}

/// A pair passes the checks that do not depend on the time exactly when it
/// opens as a pair.
pub proof fn lemma_precheck_is_pair_opens(key: Seq<u8>, token: &str, cookie: &str)
    ensures
        csrf_precheck(key, Some(token), Some(cookie)) is Ok <==> csrf_pair_opens(key, token@, cookie@),
{
}

pub open spec fn pair_refused_message() -> Seq<char> {
    "invalid csrf pair"@
}

fn refuse(msg: &str) -> (r: Result<(), ServerError>)
    ensures
        r matches Err(e) && e is Unauthorized && e.spec_message() == msg@,
{
    Err(ServerError::Unauthorized(msg.to_string()))
}

/// Checks a CSRF token and cookie as sent in the headers. Every failure is a
/// 401 with the message of the first check that failed; malformed input is
/// refused, never a fault. A pair that passes every check but has expired
/// is refused as a bad pair.
pub fn check_csrf(key: &[u8; 32], token_header: Option<&str>, cookie_header: Option<&str>) -> (r: Result<(), ServerError>)
    ensures
        csrf_precheck(key@, token_header, cookie_header) matches Err(m) ==> (r matches Err(e)
            && e is Unauthorized && e.spec_message() == m),
        r is Ok ==> csrf_precheck(key@, token_header, cookie_header) is Ok,
        csrf_precheck(key@, token_header, cookie_header) is Ok ==> (r matches Err(e) ==> (
        e is Unauthorized && e.spec_message() == pair_refused_message())),
{
    let t = match token_header {
        Some(t) => t,
        None => return refuse("missing csrf token"),
    };
    let c = match cookie_header {
        Some(c) => c,
        None => return refuse("missing csrf cookie"),
    };
    let tb = match b64_decode(t.as_bytes()) {
        Some(b) => b,
        None => return refuse("invalid csrf token"),
    };
    let cb = match b64_decode(c.as_bytes()) {
        Some(b) => b,
        None => return refuse("invalid csrf cookie"),
    };
    let tv = match csrf_open_token(key, tb.as_slice()) {
        Some(v) => v,
        None => return refuse("invalid csrf token"),
    };
    let (cv, cookie) = match csrf_open_cookie(key, cb.as_slice()) {
        Some(p) => p,
        None => return refuse("invalid csrf cookie"),
    };
    if !constant_time_eq(tv.as_slice(), cv.as_slice()) {
        return refuse("invalid csrf pair");
    }
    if !csrf_pair_fresh(key, tv.as_slice(), &cookie) {
        return refuse("invalid csrf pair");
    }
    Ok(())
}

} // verus!
