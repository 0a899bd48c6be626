//! Signed, time-bound identity tokens: `header.payload.signature`, each part
//! in unpadded URL-safe base64 and the signature an HMAC-SHA256 over the
//! first two parts.
use crate::claims_json::{
    decode_payload, encode_payload, has_at, lemma_payload_injective, payload_bytes, push_all,
};
use vstd::slice::{slice_subrange, slice_to_vec};
use crate::errors::ServerError;
use vstd::prelude::*;
use vstd::utf8::{decode_utf8, encode_utf8, valid_utf8};

verus! {

broadcast use {
    vstd::utf8::encode_utf8_valid_utf8,
    vstd::utf8::encode_utf8_decode_utf8,
    vstd::utf8::decode_utf8_encode_utf8,
};

/// Seconds a token stays valid after it is issued.
pub const TOKEN_LIFETIME: u64 = 86400;

/// Length of an encoded HMAC-SHA256 signature.
pub const SIGNATURE_LEN: usize = 43;

/// The claims carried by a token. `exp` is in seconds since the Unix epoch.
pub struct Claims {
    pub sub: String,
    pub exp: u64,
    pub company: String,
}

/// The identity recovered from a valid token.
pub struct SlimUser {
    pub email: String,
    pub company: String,
}

impl From<Claims> for SlimUser {
    fn from(claims: Claims) -> (r: SlimUser)
        ensures
            r == (SlimUser { email: claims.sub, company: claims.company }),
    {
        SlimUser { email: claims.sub, company: claims.company }
    }
}

impl vstd::std_specs::convert::FromSpecImpl<Claims> for SlimUser {
    open spec fn obeys_from_spec() -> bool {
        true
    }

    open spec fn from_spec(v: Claims) -> SlimUser {
        SlimUser { email: v.sub, company: v.company }
    }
}

/// Why a token was refused.
#[derive(PartialEq, Eq, Structural, Clone, Copy, Debug)]
pub enum TokenError {
    /// The token is not of the shape this codec writes.
    Malformed,
    /// The signature does not match the signed part.
    SignatureInvalid,
    /// The token is genuine but its expiry has passed.
    Expired,
}

/// Unpadded URL-safe base64 of `b`.
pub uninterp spec fn b64url_of(b: Seq<u8>) -> Seq<u8>;

/// Unpadded URL-safe base64 of the HMAC-SHA256 of `msg` under `key`.
pub uninterp spec fn hs256_of(key: Seq<u8>, msg: Seq<u8>) -> Seq<u8>;

/// Relies on data_encoding::BASE64URL_NOPAD.encode, whose output uses the
/// URL-safe alphabet only.
#[verifier::external_body]
fn b64url_encode(b: &[u8]) -> (r: Vec<u8>)
    ensures
        r@ == b64url_of(b@),
        all_b64url(r@),
{
    data_encoding::BASE64URL_NOPAD.encode(b).into_bytes()
}

/// Relies on data_encoding::BASE64URL_NOPAD.decode, which is documented as
/// correct (it decodes what the encoder wrote) and canonical (it accepts only
/// what the encoder can write).
#[verifier::external_body]
fn b64url_decode(s: &[u8]) -> (r: Option<Vec<u8>>)
    ensures
        r matches Some(b) ==> b64url_of(b@) == s@,
        r is None ==> forall|b: Seq<u8>| #[trigger] b64url_of(b) != s@,
        r matches Some(x) ==> forall|b: Seq<u8>| #[trigger] b64url_of(b) == s@ ==> x@ == b,
{
    data_encoding::BASE64URL_NOPAD.decode(s).ok()
}

/// Relies on jsonwebtoken::crypto::sign with HS256, which always succeeds
/// and encodes the 32-byte tag as 43 characters of unpadded URL-safe base64.
#[verifier::external_body]
fn hs256_sign(msg: &[u8], secret: &[u8]) -> (r: Vec<u8>)
    ensures
        r@ == hs256_of(secret@, msg@),
        r@.len() == SIGNATURE_LEN,
        all_b64url(r@),
{
    let key = jsonwebtoken::EncodingKey::from_secret(secret);
    match jsonwebtoken::crypto::sign(msg, &key, jsonwebtoken::Algorithm::HS256) {
        Ok(s) => s.into_bytes(),
        Err(_) => Vec::new(),
    }
}

/// Relies on std's String::from_utf8: it succeeds exactly on valid UTF-8.
#[verifier::external_body]
fn utf8_string(b: Vec<u8>) -> (r: Option<String>)
    ensures
        r is Some <==> valid_utf8(b@),
        r matches Some(s) ==> s@ == decode_utf8(b@),
{
    String::from_utf8(b).ok()
}

/// Relies on chrono::Utc::now: the current time in seconds since the Unix
/// epoch (0 before it).
#[verifier::external_body]
pub(crate) fn unix_now() -> u64 {
    u64::try_from(chrono::Utc::now().timestamp()).unwrap_or(0)
}

/// The symbols of unpadded URL-safe base64: letters, digits, `-` and `_`.
pub open spec fn is_b64url_symbol(b: u8) -> bool {
    (65 <= b <= 90) || (97 <= b <= 122) || (48 <= b <= 57) || b == 45 || b == 95
}

pub open spec fn all_b64url(s: Seq<u8>) -> bool {
    forall|i: int| 0 <= i < s.len() ==> is_b64url_symbol(#[trigger] s[i])
}

proof fn lemma_ascii_valid_utf8(b: Seq<u8>)
    requires
        forall|i: int| 0 <= i < b.len() ==> #[trigger] b[i] < 128,
    ensures
        valid_utf8(b),
{
    let chars = Seq::new(b.len(), |i: int| b[i] as char);
    assert forall|i: int| 0 <= i < chars.len() implies '\0' <= #[trigger] chars[i] <= '\u{7f}' by {
        assert(b[i] < 128);
    }
    assert(vstd::utf8::is_ascii_chars(chars));
    vstd::utf8::is_ascii_chars_encode_utf8(chars);
    assert forall|i: int| 0 <= i < b.len() implies encode_utf8(chars)[i] == b[i] by {
        assert(chars[i] as u8 == encode_utf8(chars)[i]);
    }
    assert(encode_utf8(chars) =~= b);
}

pub open spec fn header_json() -> Seq<u8> {
    seq![
        123u8, 34, 116, 121, 112, 34, 58, 34, 74, 87, 84, 34, 44, 34, 97, 108, 103, 34, 58, 34,
        72, 83, 50, 53, 54, 34, 125,
    ]
}

pub open spec fn header_b64() -> Seq<u8> {
    b64url_of(header_json())
}

/// The signature part: the encoded HMAC, of the length it always has.
pub open spec fn signature_of(key: Seq<u8>, msg: Seq<u8>) -> Seq<u8> {
    if hs256_of(key, msg).len() == SIGNATURE_LEN {
        hs256_of(key, msg)
    } else {
        Seq::new(SIGNATURE_LEN as nat, |i: int| 65u8)
    }
}

pub open spec fn signing_input(payload_part: Seq<u8>) -> Seq<u8> {
    header_b64() + seq![46u8] + payload_part
}

/// The bytes of the token for the given claims under `secret`.
pub open spec fn token_bytes(sub: Seq<char>, exp: u64, company: Seq<char>, secret: Seq<u8>) -> Seq<u8> {
    let p = b64url_of(payload_bytes(encode_utf8(sub), exp, encode_utf8(company)));
    signing_input(p) + seq![46u8] + signature_of(secret, signing_input(p))
}

/// A token of the right shape: the fixed header, a dot, a payload part, a
/// dot and a signature of the fixed length.
pub open spec fn well_framed(t: Seq<u8>) -> bool {
    &&& t.len() >= header_b64().len() + 2 + SIGNATURE_LEN
    &&& t.take(header_b64().len() as int) == header_b64()
    &&& t[header_b64().len() as int] == 46u8
    &&& t[t.len() - SIGNATURE_LEN - 1] == 46u8
}

pub open spec fn signed_part(t: Seq<u8>) -> Seq<u8> {
    t.take(t.len() - SIGNATURE_LEN - 1)
}

pub open spec fn signature_part(t: Seq<u8>) -> Seq<u8> {
    t.skip(t.len() - SIGNATURE_LEN)
}

pub open spec fn signature_ok(t: Seq<u8>, secret: Seq<u8>) -> bool {
    signature_part(t) == signature_of(secret, signed_part(t))
}

/// Whether `t` is the token of some claims under `secret`.
pub open spec fn genuine(t: Seq<u8>, secret: Seq<u8>) -> bool {
    exists|c: (Seq<char>, u64, Seq<char>)| t == #[trigger] token_bytes(c.0, c.1, c.2, secret)
}


fn header_json_vec() -> (r: Vec<u8>)
    ensures
        r@ == header_json(),
{
    let r = vec![
        123u8, 34, 116, 121, 112, 34, 58, 34, 74, 87, 84, 34, 44, 34, 97, 108, 103, 34, 58, 34,
        72, 83, 50, 53, 54, 34, 125,
    ];
    assert(r@ =~= header_json());
    r
}

/// Compares two byte strings in time that depends on their length only.
pub fn constant_time_eq(a: &[u8], b: &[u8]) -> (r: bool)
    ensures
        r == (a@ == b@),
{
    if a.len() != b.len() {
        return false;
    }
    let mut diff: u8 = 0;
    let mut i: usize = 0;
    assert(a@.take(0) =~= b@.take(0));
    while i < a.len()
        invariant
            i <= a@.len(),
            a@.len() == b@.len(),
            (diff == 0) == (a@.take(i as int) == b@.take(i as int)),
        decreases a@.len() - i,
    {
        let x = a[i];
        let y = b[i];
        let next = diff | (x ^ y);
        assert((next == 0) == (diff == 0 && x == y)) by (bit_vector)
            requires
                next == diff | (x ^ y),
        ;
        proof {
            assert(a@.take(i + 1) =~= a@.take(i as int).push(x));
            assert(b@.take(i + 1) =~= b@.take(i as int).push(y));
            if a@.take(i + 1) == b@.take(i + 1) {
                assert(a@.take(i + 1)[i as int] == b@.take(i + 1)[i as int]);
                assert(a@.take(i as int) =~= a@.take(i + 1).take(i as int));
                assert(b@.take(i as int) =~= b@.take(i + 1).take(i as int));
            }
        }
        diff = next;
        i = i + 1;
    }
    assert(a@.take(i as int) =~= a@);
    assert(b@.take(i as int) =~= b@);
    diff == 0
}

/// Every token written for some claims passes the shape and signature
/// checks of `decode_claims`, and its payload part is the encoded payload of
/// those claims.
pub proof fn lemma_token_layout(sub: Seq<char>, exp: u64, company: Seq<char>, secret: Seq<u8>)
    ensures
        ({
            let t = token_bytes(sub, exp, company, secret);
            let p = b64url_of(payload_bytes(encode_utf8(sub), exp, encode_utf8(company)));
            &&& well_framed(t)
            &&& signature_ok(t, secret)
            &&& signed_part(t) == signing_input(p)
            &&& t.subrange(header_b64().len() + 1int, t.len() - SIGNATURE_LEN - 1) == p
        }),
{
    let t = token_bytes(sub, exp, company, secret);
    let p = b64url_of(payload_bytes(encode_utf8(sub), exp, encode_utf8(company)));
    let h = header_b64();
    let m = signing_input(p);
    let g = signature_of(secret, m);
    assert(g.len() == SIGNATURE_LEN);
    assert(t == m + seq![46u8] + g);
    assert(t.take(h.len() as int) =~= h);
    assert(t[h.len() as int] == m[h.len() as int]);
    assert(signed_part(t) =~= m);
    assert(signature_part(t) =~= g);
    assert(t.subrange(h.len() + 1int, t.len() - SIGNATURE_LEN - 1) =~= p);
}

/// The token of some claims is genuine.
proof fn lemma_genuine_of(sub: Seq<char>, exp: u64, company: Seq<char>, secret: Seq<u8>)
    ensures
        genuine(token_bytes(sub, exp, company, secret), secret),
{
    let c = (sub, exp, company);
    assert(token_bytes(sub, exp, company, secret) == token_bytes(c.0, c.1, c.2, secret));
}

/// Only a genuine token is the token of some claims.
proof fn lemma_no_token_unless_genuine(t: Seq<u8>, secret: Seq<u8>)
    requires
        !genuine(t, secret),
    ensures
        forall|sub: Seq<char>, exp: u64, company: Seq<char>|
            #[trigger] token_bytes(sub, exp, company, secret) != t,
{
    assert forall|sub: Seq<char>, exp: u64, company: Seq<char>|
        #[trigger] token_bytes(sub, exp, company, secret) != t by {
        lemma_genuine_of(sub, exp, company, secret);
    }
}

/// Claims whose payloads coincide are the same claims.
proof fn lemma_same_claims(s1: Seq<char>, e1: u64, c1: Seq<char>, s2: Seq<char>, e2: u64, c2: Seq<char>)
    requires
        payload_bytes(encode_utf8(s1), e1, encode_utf8(c1)) == payload_bytes(
            encode_utf8(s2),
            e2,
            encode_utf8(c2),
        ),
    ensures
        s1 == s2,
        e1 == e2,
        c1 == c2,
{
    lemma_payload_injective(encode_utf8(s1), e1, encode_utf8(c1), encode_utf8(s2), e2, encode_utf8(c2));
    vstd::utf8::encode_utf8_decode_utf8(s1);
    vstd::utf8::encode_utf8_decode_utf8(s2);
    vstd::utf8::encode_utf8_decode_utf8(c1);
    vstd::utf8::encode_utf8_decode_utf8(c2);
}

impl Claims {
    /// Claims for a user, expiring one lifetime after `now`, or at the last
    /// representable second when that would overflow.
    pub fn issued_at(email: &str, company: &str, now: u64) -> (r: Claims)
        ensures
            r.sub@ == email@,
            r.company@ == company@,
            r.exp == expiry_after(now),
    {
        Claims {
            sub: email.to_string(),
            company: company.to_string(),
            exp: now.saturating_add(TOKEN_LIFETIME),
        }
    }

    /// Claims for a user, expiring one lifetime from the current time.
    pub fn new(email: &str, company: &str) -> (r: Claims)
        ensures
            r.sub@ == email@,
            r.company@ == company@,
            r.exp >= TOKEN_LIFETIME,
    {
        Claims::issued_at(email, company, unix_now())
    }
}

/// Encodes and signs the claims. The bytes of the token are exactly
/// `token_bytes` of the claims.
pub fn encode_claims(claims: &Claims, secret: &[u8]) -> (r: Option<String>)
    ensures
        r is Some,
        r matches Some(t) ==> encode_utf8(t@) == token_bytes(
            claims.sub@,
            claims.exp,
            claims.company@,
            secret@,
        ),
{
    let header = header_json_vec();
    let mut msg = b64url_encode(header.as_slice());
    let payload = encode_payload(claims.sub.as_str().as_bytes(), claims.exp, claims.company.as_str().as_bytes());
    let p = b64url_encode(payload.as_slice());
    msg.push(46);
    push_all(&mut msg, &p);
    let ghost pv = b64url_of(payload_bytes(encode_utf8(claims.sub@), claims.exp, encode_utf8(claims.company@)));
    assert(p@ == pv);
    assert(msg@ =~= signing_input(pv));
    let sig = hs256_sign(msg.as_slice(), secret);
    assert(sig@ == signature_of(secret@, signing_input(pv)));
    let mut tok = msg;
    tok.push(46);
    push_all(&mut tok, &sig);
    proof {
        assert(tok@ =~= token_bytes(claims.sub@, claims.exp, claims.company@, secret@));
        assert forall|i: int| 0 <= i < tok@.len() implies #[trigger] tok@[i] < 128 by {
            let hl = b64url_of(header_json()).len();
            if i < hl {
                assert(tok@[i] == b64url_of(header_json())[i]);
            } else if i > hl && i < hl + 1 + pv.len() {
                assert(tok@[i] == pv[i - hl - 1]);
            } else if i >= hl + 2 + pv.len() {
                assert(tok@[i] == sig@[i - hl - 2 - pv.len()]);
            }
        }
        lemma_ascii_valid_utf8(tok@);
    }
    utf8_string(tok)
}


/// Checks and reads a token at time `now`. A token of the wrong shape is
/// `Malformed`; one whose signature does not match is `SignatureInvalid`; a
/// token is read only if it is exactly the token of some claims under
/// `secret`, and then gives those claims, or `Expired` once `now` has reached
/// their expiry. Any other token is `Malformed`.
pub fn decode_claims(token: &str, secret: &[u8], now: u64) -> (r: Result<Claims, TokenError>)
    ensures
        !well_framed(encode_utf8(token@)) ==> r == Err::<Claims, TokenError>(TokenError::Malformed),
        well_framed(encode_utf8(token@)) && !signature_ok(encode_utf8(token@), secret@) ==> r
            == Err::<Claims, TokenError>(TokenError::SignatureInvalid),
        well_framed(encode_utf8(token@)) && signature_ok(encode_utf8(token@), secret@) && !genuine(
            encode_utf8(token@),
            secret@,
        ) ==> r == Err::<Claims, TokenError>(TokenError::Malformed),
        forall|sub: Seq<char>, exp: u64, company: Seq<char>|
            #[trigger] token_bytes(sub, exp, company, secret@) == encode_utf8(token@) ==> {
                &&& now < exp ==> (r matches Ok(c) && c.sub@ == sub && c.exp == exp && c.company@
                    == company)
                &&& now >= exp ==> r == Err::<Claims, TokenError>(TokenError::Expired)
            },
        r matches Ok(c) ==> token_bytes(c.sub@, c.exp, c.company@, secret@) == encode_utf8(token@)
            && now < c.exp,
{
    let ghost tb = encode_utf8(token@);
    let ghost k = secret@;
    let ghost gen = genuine(tb, k);
    let ghost target: (Seq<char>, u64, Seq<char>) = if gen {
        choose|c: (Seq<char>, u64, Seq<char>)| tb == #[trigger] token_bytes(c.0, c.1, c.2, k)
    } else {
        (Seq::empty(), 0u64, Seq::empty())
    };
    proof {
        if gen {
            lemma_token_layout(target.0, target.1, target.2, k);
        }
    }
    let tv = slice_to_vec(token.as_bytes());
    let header = header_json_vec();
    let h = b64url_encode(header.as_slice());
    let tl = tv.len();
    let hl = h.len();
    if tl < 45 || tl - 45 < hl || !has_at(&tv, 0, &h) || tv[hl] != 46 || tv[tl - 44] != 46 {
        proof {
            if hl <= tb.len() {
                assert(tb.take(hl as int) =~= tb.subrange(0, hl as int));
            }
            lemma_no_token_unless_genuine(tb, k);
        }
        return Err(TokenError::Malformed);
    }
    assert(tb.take(hl as int) =~= tb.subrange(0, hl as int));
    assert(well_framed(tb));
    let msg = slice_to_vec(slice_subrange(tv.as_slice(), 0, tl - 44));
    let pp = slice_subrange(tv.as_slice(), hl + 1, tl - 44);
    let sig = slice_subrange(tv.as_slice(), tl - 43, tl);
    assert(msg@ =~= signed_part(tb));
    assert(sig@ =~= signature_part(tb));
    let expected = hs256_sign(msg.as_slice(), secret);
    assert(expected@ == signature_of(k, signed_part(tb)));
    if !constant_time_eq(expected.as_slice(), sig) {
        proof {
            lemma_no_token_unless_genuine(tb, k);
        }
        return Err(TokenError::SignatureInvalid);
    }
    assert(signature_ok(tb, k));
    assert(pp@ == tb.subrange(hl + 1int, tl - SIGNATURE_LEN - 1));
    let x = match b64url_decode(pp) {
        Some(x) => x,
        None => {
            proof {
                if gen {
                    assert(b64url_of(payload_bytes(encode_utf8(target.0), target.1, encode_utf8(target.2))) == pp@);
                }
                lemma_no_token_unless_genuine(tb, k);
            }
            return Err(TokenError::Malformed);
        },
    };
    proof {
        if gen {
            assert(x@ == payload_bytes(encode_utf8(target.0), target.1, encode_utf8(target.2)));
        }
    }
    let parsed = decode_payload(
        &x,
        Ghost(encode_utf8(target.0)),
        Ghost(target.1),
        Ghost(encode_utf8(target.2)),
    );
    let (a, n, b) = match parsed {
        Some(t) => t,
        None => {
            proof {
                lemma_no_token_unless_genuine(tb, k);
            }
            return Err(TokenError::Malformed);
        },
    };
    let ghost av = a@;
    let ghost bv = b@;
    let sub = match utf8_string(a) {
        Some(s) => s,
        None => {
            proof {
                lemma_no_token_unless_genuine(tb, k);
            }
            return Err(TokenError::Malformed);
        },
    };
    let company = match utf8_string(b) {
        Some(s) => s,
        None => {
            proof {
                lemma_no_token_unless_genuine(tb, k);
            }
            return Err(TokenError::Malformed);
        },
    };
    proof {
        assert(encode_utf8(sub@) == av);
        assert(encode_utf8(company@) == bv);
        assert(tb =~= signed_part(tb) + seq![46u8] + signature_part(tb));
        assert(signed_part(tb) =~= header_b64() + seq![46u8] + pp@);
        assert(tb =~= token_bytes(sub@, n, company@, k));
        lemma_genuine_of(sub@, n, company@, k);
        assert forall|s2: Seq<char>, e2: u64, c2: Seq<char>|
            #[trigger] token_bytes(s2, e2, c2, k) == tb implies s2 == sub@ && e2 == n && c2
            == company@ by {
            lemma_token_layout(s2, e2, c2, k);
            lemma_same_claims(s2, e2, c2, sub@, n, company@);
        }
    }
    if now >= n {
        return Err(TokenError::Expired);
    }
    Ok(Claims { sub, exp: n, company })
}


/// Whether `t` is a token issued under `secret` for this email and company
/// that has not expired at `now`.
pub open spec fn valid_token_for(t: Seq<u8>, secret: Seq<u8>, email: Seq<char>, company: Seq<char>, now: u64) -> bool {
    exists|exp: u64| now < exp && #[trigger] token_bytes(email, exp, company, secret) == t
}

/// Whether `t` is a token issued under `secret` for this email and company.
pub open spec fn token_for(t: Seq<u8>, secret: Seq<u8>, email: Seq<char>, company: Seq<char>) -> bool {
    exists|exp: u64| #[trigger] token_bytes(email, exp, company, secret) == t
}

/// The one message a refused token gets: every failure looks the same to
/// the client.
pub open spec fn token_refused_message() -> Seq<char> {
    "Invalid or expired token"@
}

/// Describes a token failure for the server's own log.
pub fn token_error_tag(e: TokenError) -> (r: String)
    ensures
        r@ == match e {
            TokenError::Malformed => "malformed token"@,
            TokenError::SignatureInvalid => "invalid token signature"@,
            TokenError::Expired => "expired token"@,
        },
{
    match e {
        TokenError::Malformed => "malformed token".to_string(),
        TokenError::SignatureInvalid => "invalid token signature".to_string(),
        TokenError::Expired => "expired token".to_string(),
    }
}

/// Expiry of a token issued at `now`: one lifetime later, or the last
/// representable second when that would overflow.
pub open spec fn expiry_after(now: u64) -> u64 {
    if now as int + TOKEN_LIFETIME <= u64::MAX {
        (now + TOKEN_LIFETIME) as u64
    } else {
        u64::MAX
    }
}

/// Issues a token for a user at time `now`.
pub fn create_token_at(email: &str, company: &str, secret: &[u8], now: u64) -> (r: String)
    ensures
        encode_utf8(r@) == token_bytes(email@, expiry_after(now), company@, secret@),
{
    let claims = Claims::issued_at(email, company, now);
    match encode_claims(&claims, secret) {
        Some(t) => t,
        None => String::new(),
    }
}

/// Issues a token for a user, valid for one lifetime from the current time.
pub fn create_token(email: &str, company: &str, secret: &[u8]) -> (r: Result<String, ServerError>)
    ensures
        r is Ok,
        r matches Ok(t) ==> exists|now: u64| #[trigger]
            token_bytes(email@, expiry_after(now), company@, secret@) == encode_utf8(t@),
{
    let now = unix_now();
    Ok(create_token_at(email, company, secret, now))
}

/// Reads the identity from a token at time `now`; any failure is one and
/// the same 401.
pub fn decode_token_at(token: &str, secret: &[u8], now: u64) -> (r: Result<SlimUser, ServerError>)
    ensures
        forall|sub: Seq<char>, exp: u64, company: Seq<char>|
            #[trigger] token_bytes(sub, exp, company, secret@) == encode_utf8(token@) && now < exp
                ==> (r matches Ok(u) && u.email@ == sub && u.company@ == company),
        forall|sub: Seq<char>, exp: u64, company: Seq<char>|
            #[trigger] token_bytes(sub, exp, company, secret@) == encode_utf8(token@) && now >= exp
                ==> r is Err,
        r matches Ok(u) ==> valid_token_for(encode_utf8(token@), secret@, u.email@, u.company@, now),
        r matches Err(e) ==> e.spec_status() == 401 && e.spec_message() == token_refused_message(),
{
    match decode_claims(token, secret, now) {
        Ok(c) => {
            let ghost exp = c.exp;
            let u = SlimUser::from(c);
            assert(now < exp && token_bytes(u.email@, exp, u.company@, secret@) == encode_utf8(token@));
            assert(valid_token_for(encode_utf8(token@), secret@, u.email@, u.company@, now));
            Ok(u)
        },
        Err(_) => Err(ServerError::Unauthorized("Invalid or expired token".to_string())),
    }
}

/// Reads the identity from a token at the current time.
pub fn decode_token(token: &str, secret: &[u8]) -> (r: Result<SlimUser, ServerError>)
    ensures
        !genuine(encode_utf8(token@), secret@) ==> (r matches Err(e) && e.spec_status() == 401),
        r matches Ok(u) ==> token_for(encode_utf8(token@), secret@, u.email@, u.company@),
        r matches Err(e) ==> e.spec_status() == 401 && e.spec_message() == token_refused_message(),
{
    let now = unix_now();
    let r = decode_token_at(token, secret, now);
    proof {
        if r is Ok {
            let u = r->Ok_0;
            let exp = choose|exp: u64|
                now < exp && #[trigger] token_bytes(u.email@, exp, u.company@, secret@) == encode_utf8(
                    token@,
                );
            let c = (u.email@, exp, u.company@);
            assert(encode_utf8(token@) == token_bytes(c.0, c.1, c.2, secret@));
        }
    }
    r
}

} // verus!
