use auth_api::csrf_guard::{check_csrf, generate_pair, CSRF_TTL_SECONDS};
use auth_api::errors::{ApplicationError, ServerError, StoreError, UserError};
use auth_api::jwt::{
    constant_time_eq, create_token, create_token_at, decode_claims, decode_token, decode_token_at, encode_claims,
    token_error_tag, Claims, SlimUser, TokenError, TOKEN_LIFETIME,
};
use auth_api::session::{authenticate, authenticate_at, identify, login};
use auth_api::user::{register, AuthenticateUser, RegisterUser, User};

const SECRET: &[u8] = b"a server secret";
const CSRF_KEY: [u8; 32] = *b"01234567012345670123456701234567";

fn claims(sub: &str, exp: u64, company: &str) -> Claims {
    Claims { sub: sub.to_string(), exp, company: company.to_string() }
}

fn stored_user(email: &str, password: &str) -> User {
    User {
        id: 1,
        email: email.to_string(),
        company: "Acme".to_string(),
        password: User::hash_password(password).unwrap(),
        created_at: 1_700_000_000,
    }
}

#[test]
fn server_error_status_and_message() {
    assert_eq!(ServerError::NotFound("a".to_string()).status_code(), 404);
    assert_eq!(ServerError::BadRequest("b".to_string()).status_code(), 400);
    assert_eq!(ServerError::InternalServerError("c".to_string()).status_code(), 500);
    assert_eq!(ServerError::Unauthorized("d".to_string()).status_code(), 401);
    assert_eq!(ServerError::Unauthorized("d".to_string()).message(), "d");
}

#[test]
fn user_error_status_and_message() {
    assert_eq!(UserError::NotFound("a".to_string()).status_code(), 404);
    assert_eq!(UserError::BadRequest("b".to_string()).status_code(), 400);
    assert_eq!(UserError::InternalServerError("c".to_string()).status_code(), 500);
    assert_eq!(UserError::BadRequest("b".to_string()).message(), "b");
}

#[test]
fn application_errors_reach_the_client_as_specified() {
    let e = ApplicationError::PasswordNotMatch("x".to_string()).to_server_error();
    assert_eq!((e.status_code(), e.message()), (400, "x".to_string()));
    let e = ApplicationError::WrongPassword("y".to_string()).to_server_error();
    assert_eq!((e.status_code(), e.message()), (401, "y".to_string()));
    let e = ApplicationError::DBError(StoreError::NotFound).to_server_error();
    assert_eq!((e.status_code(), e.message()), (401, "Email or password is incorrect".to_string()));
    let e = ApplicationError::DBError(StoreError::Failure("secret detail".to_string())).to_server_error();
    assert_eq!((e.status_code(), e.message()), (500, "Internal server error".to_string()));
}

#[test]
fn validate_accepts_matching_passwords() {
    let r = RegisterUser {
        email: "a@b.c".to_string(),
        company: "Acme".to_string(),
        password: "pw".to_string(),
        password_confirmation: "pw".to_string(),
    };
    let v = r.validate().ok().unwrap();
    assert_eq!(v.email, "a@b.c");
}

#[test]
fn validate_rejects_mismatch() {
    let r = RegisterUser {
        email: "a@b.c".to_string(),
        company: "Acme".to_string(),
        password: "pw".to_string(),
        password_confirmation: "pw2".to_string(),
    };
    match r.validate() {
        Err(ApplicationError::PasswordNotMatch(m)) => {
            assert_eq!(m, "Password and password confirmation do not match")
        }
        _ => panic!("expected a mismatch"),
    }
}

#[test]
fn registration_with_mismatch_is_400_and_builds_nothing() {
    let r = RegisterUser {
        email: "a@b.c".to_string(),
        company: "Acme".to_string(),
        password: "one".to_string(),
        password_confirmation: "two".to_string(),
    };
    match register(r, 0) {
        Err(e) => assert_eq!(e.status_code(), 400),
        Ok(_) => panic!("nothing may be stored"),
    }
}

#[test]
fn registration_stores_a_hash_not_the_password() {
    let r = RegisterUser {
        email: "a@b.c".to_string(),
        company: "Acme".to_string(),
        password: "hunter2".to_string(),
        password_confirmation: "hunter2".to_string(),
    };
    let u = register(r, 42).ok().unwrap();
    assert_eq!(u.email, "a@b.c");
    assert_eq!(u.company, "Acme");
    assert_eq!(u.created_at, 42);
    assert_ne!(u.password, "hunter2");
    assert!(bcrypt::verify("hunter2", &u.password).unwrap());
}

#[test]
fn hash_then_verify_accepts_only_the_same_password() {
    let user = stored_user("a@b.c", "correct horse");
    let ok = AuthenticateUser { email: "a@b.c".to_string(), password: "correct horse".to_string() };
    assert_eq!(ok.login(vec![user]).ok().unwrap().email, "a@b.c");
    let user = stored_user("a@b.c", "correct horse");
    let bad = AuthenticateUser { email: "a@b.c".to_string(), password: "correct horsf".to_string() };
    assert!(matches!(bad.login(vec![user]), Err(ApplicationError::WrongPassword(_))));
}

#[test]
fn login_without_user_is_wrong_password() {
    let a = AuthenticateUser { email: "x@y.z".to_string(), password: "pw".to_string() };
    match a.login(Vec::new()) {
        Err(ApplicationError::WrongPassword(m)) => assert_eq!(m, "Email or password is incorrect"),
        _ => panic!("expected wrong password"),
    }
}

#[test]
fn login_with_unreadable_stored_hash_is_hash_error() {
    let mut user = stored_user("a@b.c", "pw");
    user.password = "not a hash".to_string();
    let a = AuthenticateUser { email: "a@b.c".to_string(), password: "pw".to_string() };
    assert!(matches!(a.login(vec![user]), Err(ApplicationError::HashError(_))));
}

#[test]
fn login_flow_success_issues_token_and_csrf_pair() {
    let a = AuthenticateUser { email: "a@b.c".to_string(), password: "pw".to_string() };
    let out = login(&a, vec![stored_user("a@b.c", "pw")], SECRET, &CSRF_KEY).ok().unwrap();
    assert_eq!(out.user.email, "a@b.c");
    assert!(!out.csrf_token.is_empty());
    assert!(!out.csrf_cookie.is_empty());
    let who = decode_token(&out.token, SECRET).ok().unwrap();
    assert_eq!((who.email.as_str(), who.company.as_str()), ("a@b.c", "Acme"));
    assert!(check_csrf(&CSRF_KEY, Some(&out.csrf_token), Some(&out.csrf_cookie)).is_ok());
}

#[test]
fn login_flow_wrong_password_is_generic_401() {
    let a = AuthenticateUser { email: "a@b.c".to_string(), password: "nope".to_string() };
    match login(&a, vec![stored_user("a@b.c", "pw")], SECRET, &CSRF_KEY) {
        Err(e) => {
            assert_eq!(e.status_code(), 401);
            assert_eq!(e.message(), "Email or password is incorrect");
        }
        Ok(_) => panic!("no artifacts may be issued"),
    }
    let missing = AuthenticateUser { email: "q@b.c".to_string(), password: "nope".to_string() };
    match login(&missing, Vec::new(), SECRET, &CSRF_KEY) {
        Err(e) => assert_eq!(e.message(), "Email or password is incorrect"),
        Ok(_) => panic!("no artifacts may be issued"),
    }
}

#[test]
fn token_round_trip() {
    let c = claims("a@b.c", 2_000_000_000, "Acme \"Ltd\" \\ \n é");
    let t = encode_claims(&c, SECRET).unwrap();
    let d = decode_claims(&t, SECRET, 1_000).ok().unwrap();
    assert_eq!(d.sub, c.sub);
    assert_eq!(d.exp, c.exp);
    assert_eq!(d.company, c.company);
}

#[test]
fn token_has_standard_header_and_signature_length() {
    let t = encode_claims(&claims("a", 5, "b"), SECRET).unwrap();
    let parts: Vec<&str> = t.split('.').collect();
    assert_eq!(parts.len(), 3);
    assert_eq!(parts[0], "eyJ0eXAiOiJKV1QiLCJhbGciOiJIUzI1NiJ9");
    assert_eq!(parts[2].len(), 43);
    let payload = data_encoding::BASE64URL_NOPAD.decode(parts[1].as_bytes()).unwrap();
    assert_eq!(payload, b"{\"sub\":\"a\",\"exp\":5,\"company\":\"b\"}".to_vec());
}

#[test]
fn token_is_readable_by_jsonwebtoken() {
    let t = encode_claims(&claims("a@b.c", 4_000_000_000, "Acme"), SECRET).unwrap();
    let key = jsonwebtoken::DecodingKey::from_secret(SECRET);
    let data = jsonwebtoken::decode::<serde_json::Value>(&t, &key, &jsonwebtoken::Validation::default()).unwrap();
    assert_eq!(data.claims["sub"], "a@b.c");
    assert_eq!(data.claims["company"], "Acme");
}

#[test]
fn token_with_control_characters_round_trips() {
    let c = claims("\u{1}\u{1f}x", 10, "");
    let t = encode_claims(&c, SECRET).unwrap();
    let d = decode_claims(&t, SECRET, 9).ok().unwrap();
    assert_eq!(d.sub, c.sub);
    assert_eq!(d.company, "");
}

#[test]
fn expired_token_is_refused_even_with_good_signature() {
    let t = encode_claims(&claims("a@b.c", 100, "Acme"), SECRET).unwrap();
    assert!(matches!(decode_claims(&t, SECRET, 100), Err(TokenError::Expired)));
    assert!(matches!(decode_claims(&t, SECRET, 5_000), Err(TokenError::Expired)));
    assert!(decode_claims(&t, SECRET, 99).is_ok());
}

#[test]
fn tampered_token_never_decodes() {
    let t = encode_claims(&claims("a@b.c", 4_000_000_000, "Acme"), SECRET).unwrap();
    let bytes = t.as_bytes().to_vec();
    for i in 0..bytes.len() {
        for bit in 0..8 {
            let mut b = bytes.clone();
            b[i] ^= 1 << bit;
            if let Ok(s) = String::from_utf8(b) {
                match decode_claims(&s, SECRET, 0) {
                    Err(TokenError::SignatureInvalid) | Err(TokenError::Malformed) => {}
                    other => panic!("flip at {} bit {} gave {:?}", i, bit, other.err()),
                }
            }
        }
    }
}

#[test]
fn token_under_other_secret_is_refused() {
    let t = encode_claims(&claims("a@b.c", 4_000_000_000, "Acme"), SECRET).unwrap();
    assert!(matches!(decode_claims(&t, b"another", 0), Err(TokenError::SignatureInvalid)));
    match decode_token_at(&t, b"another", 0) {
        Err(e) => {
            assert_eq!(e.status_code(), 401);
            assert_eq!(e.message(), "Invalid or expired token");
        }
        Ok(_) => panic!("must be refused"),
    }
}

#[test]
fn truncated_token_is_malformed() {
    assert!(matches!(decode_claims("", SECRET, 0), Err(TokenError::Malformed)));
    assert!(matches!(decode_claims("abc.def", SECRET, 0), Err(TokenError::Malformed)));
    let t = encode_claims(&claims("a", 9, "b"), SECRET).unwrap();
    assert!(matches!(decode_claims(&t[..t.len() - 1], SECRET, 0), Err(TokenError::Malformed)));
}

#[test]
fn token_error_tags_differ() {
    assert_eq!(token_error_tag(TokenError::Malformed), "malformed token");
    assert_eq!(token_error_tag(TokenError::SignatureInvalid), "invalid token signature");
    assert_eq!(token_error_tag(TokenError::Expired), "expired token");
}

#[test]
fn claims_expire_one_day_after_issue() {
    let c = Claims::issued_at("a@b.c", "Acme", 1_000);
    assert_eq!(c.exp, 1_000 + 86_400);
    assert_eq!(TOKEN_LIFETIME, 86_400);
    assert_eq!(Claims::issued_at("a", "b", u64::MAX - 1).exp, u64::MAX);
    let now = Claims::new("a", "b");
    assert!(now.exp > 1_600_000_000 + 86_400);
}

#[test]
fn slim_user_from_claims() {
    let u: SlimUser = claims("a@b.c", 1, "Acme").into();
    assert_eq!((u.email.as_str(), u.company.as_str()), ("a@b.c", "Acme"));
}

#[test]
fn create_token_decodes_to_the_user() {
    let t = create_token("a@b.c", "Acme", SECRET).ok().unwrap();
    let u = decode_token(&t, SECRET).ok().unwrap();
    assert_eq!(u.email, "a@b.c");
    assert_eq!(u.company, "Acme");
}

#[test]
fn constant_time_eq_compares_contents() {
    assert!(constant_time_eq(b"abc", b"abc"));
    assert!(!constant_time_eq(b"abc", b"abd"));
    assert!(!constant_time_eq(b"abc", b"ab"));
    assert!(constant_time_eq(b"", b""));
}

#[test]
fn csrf_pair_from_one_generation_verifies() {
    let (t, c) = generate_pair(&CSRF_KEY, CSRF_TTL_SECONDS).ok().unwrap();
    assert!(check_csrf(&CSRF_KEY, Some(&t), Some(&c)).is_ok());
}

#[test]
fn csrf_missing_headers() {
    let (t, _) = generate_pair(&CSRF_KEY, CSRF_TTL_SECONDS).ok().unwrap();
    let e = check_csrf(&CSRF_KEY, None, None).err().unwrap();
    assert_eq!((e.status_code(), e.message()), (401, "missing csrf token".to_string()));
    let e = check_csrf(&CSRF_KEY, Some(&t), None).err().unwrap();
    assert_eq!(e.message(), "missing csrf cookie");
}

#[test]
fn csrf_garbled_input_is_refused_not_a_fault() {
    let (t, c) = generate_pair(&CSRF_KEY, CSRF_TTL_SECONDS).ok().unwrap();
    let e = check_csrf(&CSRF_KEY, Some("%%%"), Some(&c)).err().unwrap();
    assert_eq!(e.message(), "invalid csrf token");
    let e = check_csrf(&CSRF_KEY, Some(&t), Some("not base64!")).err().unwrap();
    assert_eq!(e.message(), "invalid csrf cookie");
    let e = check_csrf(&CSRF_KEY, Some("AAAA"), Some(&c)).err().unwrap();
    assert_eq!((e.status_code(), e.message()), (401, "invalid csrf token".to_string()));
    let e = check_csrf(&CSRF_KEY, Some(&t), Some("AAAA")).err().unwrap();
    assert_eq!(e.message(), "invalid csrf cookie");
    let other_key = [7u8; 32];
    let e = check_csrf(&other_key, Some(&t), Some(&c)).err().unwrap();
    assert_eq!(e.message(), "invalid csrf token");
}

#[test]
fn csrf_pairs_of_two_sessions_do_not_mix() {
    let (t1, c1) = generate_pair(&CSRF_KEY, CSRF_TTL_SECONDS).ok().unwrap();
    let (t2, c2) = generate_pair(&CSRF_KEY, CSRF_TTL_SECONDS).ok().unwrap();
    let e = check_csrf(&CSRF_KEY, Some(&t1), Some(&c2)).err().unwrap();
    assert_eq!((e.status_code(), e.message()), (401, "invalid csrf pair".to_string()));
    let e = check_csrf(&CSRF_KEY, Some(&t2), Some(&c1)).err().unwrap();
    assert_eq!(e.message(), "invalid csrf pair");
}

#[test]
fn protected_request_with_session_but_no_csrf_headers() {
    let t = create_token("a@b.c", "Acme", SECRET).ok().unwrap();
    let e = authenticate(&CSRF_KEY, None, None, Some(&t), SECRET).err().unwrap();
    assert_eq!((e.status_code(), e.message()), (401, "missing csrf token".to_string()));
}

#[test]
fn protected_request_with_swapped_pair() {
    let t = create_token("a@b.c", "Acme", SECRET).ok().unwrap();
    let (t1, _) = generate_pair(&CSRF_KEY, CSRF_TTL_SECONDS).ok().unwrap();
    let (_, c2) = generate_pair(&CSRF_KEY, CSRF_TTL_SECONDS).ok().unwrap();
    let e = authenticate(&CSRF_KEY, Some(&t1), Some(&c2), Some(&t), SECRET).err().unwrap();
    assert_eq!(e.status_code(), 401);
    assert_eq!(e.message(), "invalid csrf pair");
}

#[test]
fn protected_request_fully_authorised() {
    let t = create_token("a@b.c", "Acme", SECRET).ok().unwrap();
    let (ct, cc) = generate_pair(&CSRF_KEY, CSRF_TTL_SECONDS).ok().unwrap();
    let u = authenticate(&CSRF_KEY, Some(&ct), Some(&cc), Some(&t), SECRET).ok().unwrap();
    assert_eq!((u.email.as_str(), u.company.as_str()), ("a@b.c", "Acme"));
    let e = authenticate(&CSRF_KEY, Some(&ct), Some(&cc), None, SECRET).err().unwrap();
    assert_eq!((e.status_code(), e.message()), (401, "no session".to_string()));
}

#[test]
fn identify_reads_session_marker() {
    let t = encode_claims(&claims("a@b.c", 500, "Acme"), SECRET).unwrap();
    let u = identify(Some(&t), SECRET, 499).ok().unwrap();
    assert_eq!(u.email, "a@b.c");
    assert_eq!(identify(Some(&t), SECRET, 500).err().unwrap().status_code(), 401);
    assert_eq!(identify(None, SECRET, 0).err().unwrap().message(), "no session");
}

#[test]
fn csrf_pair_past_its_validity_is_refused() {
    let (t, c) = generate_pair(&CSRF_KEY, 0).ok().unwrap();
    let e = check_csrf(&CSRF_KEY, Some(&t), Some(&c)).err().unwrap();
    assert_eq!((e.status_code(), e.message()), (401, "invalid csrf pair".to_string()));
    assert_eq!(CSRF_TTL_SECONDS, 300);
}

#[test]
fn token_issued_at_a_time_expires_one_day_later() {
    let t = create_token_at("a@b.c", "Acme", SECRET, 1_000);
    let c = decode_claims(&t, SECRET, 1_000).ok().unwrap();
    assert_eq!(c.exp, 87_400);
    assert_eq!(t, create_token_at("a@b.c", "Acme", SECRET, 1_000));
    assert_eq!(t, encode_claims(&claims("a@b.c", 87_400, "Acme"), SECRET).unwrap());
    assert!(matches!(decode_claims(&t, SECRET, 87_400), Err(TokenError::Expired)));
}

#[test]
fn expired_session_token_is_refused() {
    let t = create_token_at("a@b.c", "Acme", SECRET, 1_000);
    let (ct, cc) = generate_pair(&CSRF_KEY, CSRF_TTL_SECONDS).ok().unwrap();
    let e = authenticate_at(&CSRF_KEY, Some(&ct), Some(&cc), Some(&t), SECRET, 90_000).err().unwrap();
    assert_eq!((e.status_code(), e.message()), (401, "Invalid or expired token".to_string()));
    let u = authenticate_at(&CSRF_KEY, Some(&ct), Some(&cc), Some(&t), SECRET, 2_000).ok().unwrap();
    assert_eq!(u.email, "a@b.c");
}

#[test]
fn describe_gives_log_text() {
    assert_eq!(ApplicationError::DBError(StoreError::NotFound).describe(), "Record not found");
    assert_eq!(ApplicationError::WrongPassword("w".to_string()).describe(), "w");
}
