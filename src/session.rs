//! The request-authorisation chain and the login flow built on the
//! credential, token and CSRF components.
use crate::csrf_guard::{
    check_csrf, csrf_pair_opens, csrf_precheck, generate_pair, pair_refused_message, CSRF_TTL_SECONDS,
};
use crate::errors::ServerError;
use crate::hasher::password_verdict;
use crate::jwt::{
    create_token, decode_token_at, expiry_after, token_bytes, token_refused_message, unix_now,
    valid_token_for,
    SlimUser,
};
use crate::user::{wrong_credentials_message, AuthenticateUser, User};
use vstd::prelude::*;
use vstd::utf8::encode_utf8;

verus! {

pub open spec fn no_session_message() -> Seq<char> {
    "no session"@
}

/// Recovers the identity from the session marker at time `now`.
pub fn identify(session: Option<&str>, secret: &[u8], now: u64) -> (r: Result<SlimUser, ServerError>)
    ensures
        session is None ==> (r matches Err(e) && e is Unauthorized && e.spec_message()
            == no_session_message()),
        session matches Some(t) ==> {
            &&& r matches Ok(u) ==> valid_token_for(encode_utf8(t@), secret@, u.email@, u.company@, now)
            &&& r matches Err(e) ==> e.spec_status() == 401 && e.spec_message() == token_refused_message()
            &&& forall|sub: Seq<char>, exp: u64, company: Seq<char>|
                #[trigger] token_bytes(sub, exp, company, secret@) == encode_utf8(t@) && now < exp
                    ==> (r matches Ok(u) && u.email@ == sub && u.company@ == company)
            &&& forall|sub: Seq<char>, exp: u64, company: Seq<char>|
                #[trigger] token_bytes(sub, exp, company, secret@) == encode_utf8(t@) && now >= exp
                    ==> r is Err
        },
{
    match session {
        None => Err(ServerError::Unauthorized("no session".to_string())),
        Some(t) => decode_token_at(t, secret, now),
    }
}

/// The session part of admitting a request at time `now`: what `identify`
/// gives for the session marker.
pub open spec fn identified(r: Result<SlimUser, ServerError>, session: Option<&str>, secret: Seq<u8>, now: u64) -> bool {
    match session {
        None => r matches Err(e) && e is Unauthorized && e.spec_message() == no_session_message(),
        Some(t) => {
            &&& r matches Ok(u) ==> valid_token_for(encode_utf8(t@), secret, u.email@, u.company@, now)
            &&& r matches Err(e) ==> e is Unauthorized && e.spec_message() == token_refused_message()
            &&& forall|sub: Seq<char>, exp: u64, company: Seq<char>|
                #[trigger] token_bytes(sub, exp, company, secret) == encode_utf8(t@) ==> (now < exp
                    ==> (r matches Ok(u) && u.email@ == sub && u.company@ == company)) && (now >= exp
                    ==> r is Err)
        },
    }
}

/// Admits a protected request at time `now`, or refuses it. The steps run
/// in order and the first that fails decides: the CSRF token and cookie
/// headers, then the session marker, then the token it holds. Every refusal
/// is a 401. Only the expiry of the CSRF pair is judged by the current time
/// of the CSRF component; a pair refused for it gets the bad-pair message.
pub fn authenticate_at(
    csrf_key: &[u8; 32],
    token_header: Option<&str>,
    cookie_header: Option<&str>,
    session: Option<&str>,
    secret: &[u8],
    now: u64,
) -> (r: Result<SlimUser, ServerError>)
    ensures
        csrf_precheck(csrf_key@, token_header, cookie_header) matches Err(m) ==> (r matches Err(e)
            && e is Unauthorized && e.spec_message() == m),
        csrf_precheck(csrf_key@, token_header, cookie_header) is Ok ==> (r matches Err(e) && e is Unauthorized
            && e.spec_message() == pair_refused_message()) || identified(r, session, secret@, now),
        r is Ok ==> csrf_precheck(csrf_key@, token_header, cookie_header) is Ok,
        r matches Err(e) ==> e.spec_status() == 401,
{
    match check_csrf(csrf_key, token_header, cookie_header) {
        Ok(()) => {},
        Err(e) => return Err(e),
    }
    identify(session, secret, now)
}

/// Admits a protected request at the current time, or refuses it, as
/// `authenticate_at` does.
pub fn authenticate(
    csrf_key: &[u8; 32],
    token_header: Option<&str>,
    cookie_header: Option<&str>,
    session: Option<&str>,
    secret: &[u8],
) -> (r: Result<SlimUser, ServerError>)
    ensures
        csrf_precheck(csrf_key@, token_header, cookie_header) matches Err(m) ==> (r matches Err(e)
            && e is Unauthorized && e.spec_message() == m),
        csrf_precheck(csrf_key@, token_header, cookie_header) is Ok ==> (r matches Err(e) && e is Unauthorized
            && e.spec_message() == pair_refused_message()) || exists|now: u64| identified(r, session, secret@, now),
        r is Ok ==> csrf_precheck(csrf_key@, token_header, cookie_header) is Ok,
        r matches Err(e) ==> e.spec_status() == 401,
{
    let now = unix_now();
    authenticate_at(csrf_key, token_header, cookie_header, session, secret, now)
}

/// What a successful login hands to the HTTP layer: the user, the token to
/// bind into the session, and the CSRF token and cookie for the headers.
pub struct LoginOutcome {
    pub user: User,
    pub token: String,
    pub csrf_token: String,
    pub csrf_cookie: String,
}

/// Logs a user in against the users stored under the login's email. A
/// missing user and a wrong password give one and the same 401.
pub fn login(
    auth_user: &AuthenticateUser,
    records: Vec<User>,
    secret: &[u8],
    csrf_key: &[u8; 32],
) -> (r: Result<LoginOutcome, ServerError>)
    ensures
        records@.len() == 0 ==> (r matches Err(e) && e is Unauthorized && e.spec_message()
            == wrong_credentials_message()),
        records@.len() > 0 && password_verdict(auth_user.password@, records@.last().password@)
            != Some(true) ==> (r matches Err(e) && e is Unauthorized && e.spec_message()
            == wrong_credentials_message()),
        r matches Ok(o) ==> {
            &&& records@.len() > 0
            &&& o.user == records@.last()
            &&& password_verdict(auth_user.password@, o.user.password@) == Some(true)
            &&& exists|now: u64| #[trigger]
                token_bytes(o.user.email@, expiry_after(now), o.user.company@, secret@) == encode_utf8(o.token@)
            &&& csrf_pair_opens(csrf_key@, o.csrf_token@, o.csrf_cookie@)
        },
        r matches Err(e) ==> e.spec_status() == 401 || e.spec_status() == 500,
{
    let user = match auth_user.login(records) {
        Ok(u) => u,
        Err(e) => return Err(e.to_server_error()),
    };
    let token = create_token(user.email.as_str(), user.company.as_str(), secret)?;
    let (csrf_token, csrf_cookie) = generate_pair(csrf_key, CSRF_TTL_SECONDS)?;
    Ok(LoginOutcome { user, token, csrf_token, csrf_cookie })
}

} // verus!
