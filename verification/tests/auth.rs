use nimbusdns::auth::access::{
    authenticate, authenticate_at, check_password, client_name, extract_sid_from_headers, guard,
    is_protected, new_password, setup_step, Access, AuthRequest, SetupStep,
};
use nimbusdns::auth::attempts::AuthRateLimiter;
use nimbusdns::auth::error::AuthError;
use nimbusdns::auth::password::{hash_password, hash_with_salt, is_auth_enabled, verify_password};
use nimbusdns::auth::session::{
    create_session, create_session_at, session_timeout, validate_session, validate_session_at,
    SessionCache, SessionChange,
};
use nimbusdns::database::queries::Session;
use sha2::{Digest, Sha256};

const NOW: i64 = 1_700_000_000;

fn session(sid: &str, expires_at: i64) -> Session {
    Session {
        sid: sid.to_string(),
        created_at: 5,
        expires_at,
        last_used_at: None,
        client_ip: Some("127.0.0.1".to_string()),
        user_agent: Some("test".to_string()),
        data: Some(vec![1, 2]),
    }
}

// The cache asks the store only where it has no session itself.
fn validate(
    cache: &mut SessionCache,
    stored: Option<Session>,
    sid: &str,
    now: i64,
) -> Result<Session, AuthError> {
    match cache.lookup_at(sid, now) {
        Some(s) => Ok(s),
        None => cache.resolve_at(sid, Ok(stored), now).0,
    }
}

#[test]
fn test_session_cache_hit_and_miss() {
    let mut cache = SessionCache::new();
    assert!(validate(&mut cache, None, "nonexistent", NOW).is_err());
    let s = session("abc", NOW + 3600);
    let got = validate(&mut cache, Some(s.copy()), "abc", NOW).unwrap();
    assert_eq!(got.sid, "abc");
    assert_eq!(s.sid, got.sid);
    assert_eq!(got.data, Some(vec![1, 2]));
}

#[test]
fn test_session_cache_expired_removed() {
    let mut cache = SessionCache::new();
    let old = session("old", NOW - 10);
    assert!(validate(&mut cache, Some(old.copy()), "old", NOW).is_err());
    assert!(validate(&mut cache, Some(old.copy()), "old", NOW).is_err());
    // The store is told to delete it.
    assert!(cache.resolve_at("old", Ok(Some(old)), NOW).1);
}

#[test]
fn test_session_cache_remove_expired() {
    let mut cache = SessionCache::new();
    cache.insert(&session("a", NOW + 3600));
    cache.insert(&session("b", NOW + 3600));
    cache.insert(&session("gone", NOW - 10));
    cache.remove_expired(NOW);
    assert!(validate(&mut cache, None, "a", NOW).is_ok());
    assert!(validate(&mut cache, None, "b", NOW).is_ok());
    assert!(validate(&mut cache, None, "gone", NOW).is_err());
}

#[test]
fn test_session_cache_warm_hit_served_from_memory() {
    let mut cache = SessionCache::new();
    cache.insert(&session("warm", NOW + 3600));
    assert!(validate(&mut cache, None, "warm", NOW).is_ok());
}

#[test]
fn session_lasts_to_its_last_second() {
    let mut cache = SessionCache::new();
    cache.insert(&session("s", NOW));
    assert!(cache.lookup_at("s", NOW).is_some());
    assert!(cache.lookup_at("s", NOW + 1).is_none());
    // It is gone after the attempt.
    assert!(cache.lookup_at("s", NOW).is_none());
}

#[test]
fn expiry_can_be_moved_and_sessions_removed() {
    let mut cache = SessionCache::new();
    cache.insert(&session("s", NOW));
    cache.update_expiry("s", NOW + 50);
    cache.update_expiry("unknown", NOW + 50);
    assert_eq!(cache.lookup_at("s", NOW + 50).unwrap().expires_at, NOW + 50);
    assert!(cache.lookup_at("unknown", NOW).is_none());
    cache.remove("s");
    assert!(cache.lookup_at("s", NOW).is_none());
}

#[test]
fn failing_store_is_an_internal_error() {
    let mut cache = SessionCache::new();
    let (r, delete) = cache.resolve("s", Err("disk".to_string()));
    assert!(!delete);
    let e = r.unwrap_err();
    assert_eq!(e.message(), "Internal error: disk");
    assert_eq!(e.response(), (500, "disk".to_string()));
    assert!(cache.lookup("s").is_none());
}

#[test]
fn sessions_of_the_store_are_judged() {
    let (r, change) = validate_session_at(Ok(Some(session("s", NOW))), NOW);
    assert_eq!(r.unwrap().sid, "s");
    assert_eq!(change, SessionChange::Touch);
    let (r, change) = validate_session_at(Ok(Some(session("s", NOW - 1))), NOW);
    assert!(matches!(r, Err(AuthError::Unauthorized)));
    assert_eq!(change, SessionChange::Delete);
    let (r, change) = validate_session(Ok(None));
    assert!(matches!(r, Err(AuthError::Unauthorized)));
    assert_eq!(change, SessionChange::Keep);
    let (r, change) = validate_session_at(Err("disk".into()), NOW);
    assert!(matches!(r, Err(AuthError::Internal(_))));
    assert_eq!(change, SessionChange::Keep);
}

#[test]
fn new_sessions_have_an_identifier_and_an_end() {
    let (sid, end) = create_session_at(60, NOW);
    assert_eq!(sid.len(), 36);
    assert_eq!(end, NOW + 60);
    let (other, _) = create_session(60);
    assert_ne!(sid, other);
    for id in [&sid, &other] {
        let c: Vec<char> = id.chars().collect();
        assert_eq!(c.len(), 36);
        for (i, d) in c.iter().enumerate() {
            if [8, 13, 18, 23].contains(&i) {
                assert_eq!(*d, '-');
            } else {
                assert!(d.is_ascii_digit() || ('a'..='f').contains(d));
            }
        }
        assert_eq!(c[14], '4');
        assert!(['8', '9', 'a', 'b'].contains(&c[19]));
    }
    assert_eq!(create_session_at(u64::MAX, 5).1, 4);
    assert_eq!(session_timeout(0), 60);
    assert_eq!(session_timeout(59), 60);
    assert_eq!(session_timeout(300), 300);
}

#[test]
fn test_rate_limiter_expired_key_pruned() {
    let mut limiter = AuthRateLimiter::new(5, 60);
    assert!(limiter.check_at("1.2.3.4", NOW - 120));
    assert_eq!(limiter.tracked_clients(), 1);
    assert!(limiter.check_at("1.2.3.4", NOW));
    // Only the fresh attempt is left: four more fit, a fifth does not.
    for _ in 0..4 {
        assert!(limiter.check_at("1.2.3.4", NOW), "expired timestamps must be pruned, not accumulated");
    }
    assert!(!limiter.check_at("1.2.3.4", NOW));
}

#[test]
fn test_rate_limiter_blocks_after_max() {
    let mut limiter = AuthRateLimiter::new(3, 60);
    assert!(limiter.check("9.9.9.9"));
    assert!(limiter.check("9.9.9.9"));
    assert!(limiter.check("9.9.9.9"));
    assert!(!limiter.check("9.9.9.9"), "fourth attempt must be blocked");
    assert_eq!(limiter.tracked_clients(), 1);
}

#[test]
fn attempts_end_with_the_window_and_with_success() {
    let mut limiter = AuthRateLimiter::new(1, 60);
    assert!(limiter.check_at("a", NOW));
    assert!(!limiter.check_at("a", NOW + 59));
    assert!(limiter.check_at("a", NOW + 60));
    assert!(limiter.check_at("b", NOW + 60));
    limiter.record_success("a");
    assert!(limiter.check_at("a", NOW + 60));
}

#[test]
fn attempts_are_counted_over_a_history() {
    let mut limiter = AuthRateLimiter::new(2, 60);
    assert!(limiter.check_at("a", NOW));
    assert!(limiter.check_at("a", NOW + 30));
    // Refused attempts do not count, and neither do those of others.
    for t in 31..60 {
        assert!(!limiter.check_at("a", NOW + t));
        assert_eq!(limiter.check_at("b", NOW + t), t < 33);
    }
    // The first has left the window, the second not yet.
    assert!(limiter.check_at("a", NOW + 60));
    assert!(!limiter.check_at("a", NOW + 89));
    assert!(limiter.check_at("a", NOW + 90));
    assert!(!limiter.check_at("a", NOW + 90));
    limiter.record_success("b");
    assert!(!limiter.check_at("a", NOW + 90));
    limiter.record_success("a");
    assert!(limiter.check_at("a", NOW + 90));
    assert!(limiter.check_at("a", NOW + 90));
    assert!(!limiter.check_at("a", NOW + 90));
}

#[test]
fn passwords_are_judged() {
    let stored = Some(sha256_hex("pw"));
    assert!(check_password(&AuthRequest { password: Some("pw".into()) }, &stored).is_ok());
    for wrong in [Some("no".to_string()), None] {
        let e = check_password(&AuthRequest { password: wrong }, &stored).unwrap_err();
        assert!(matches!(e, AuthError::InvalidCredentials));
    }
    assert!(check_password(&AuthRequest { password: None }, &None).is_ok());
}

fn sha256_hex(s: &str) -> String {
    Sha256::digest(s.as_bytes()).iter().map(|b| format!("{:02x}", b)).collect()
}

#[test]
fn test_hash_and_verify_password() {
    let hash = hash_password("s3cret!").unwrap();
    assert!(hash.starts_with("$argon2"), "expected argon2 PHC string, got: {}", hash);
    assert!(verify_password("s3cret!", &Some(hash.clone())));
    assert!(!verify_password("wrong", &Some(hash)));
}

#[test]
fn salts_make_hashes_differ() {
    let a = hash_with_salt("pw", "c29tZXNhbHRzb21lc2FsdA").unwrap();
    assert_eq!(a, hash_with_salt("pw", "c29tZXNhbHRzb21lc2FsdA").unwrap());
    assert_ne!(a, hash_with_salt("pw", "b3RoZXJzYWx0b3RoZXJzYQ").unwrap());
    assert!(verify_password("pw", &Some(a)));
    let e = hash_with_salt("pw", "?").unwrap_err();
    assert!(e.starts_with("Hashing failed: "), "{e}");
}

#[test]
fn test_verify_password_legacy_sha256_fallback() {
    let stored = sha256_hex("legacypass");
    assert!(verify_password("legacypass", &Some(stored.clone())));
    assert!(!verify_password("wrongpass", &Some(stored.clone())));
    // The digest is written in small letters.
    assert!(!verify_password("legacypass", &Some(stored.to_uppercase())));
}

#[test]
fn test_verify_password_empty_hash_requires_empty_password() {
    assert!(verify_password("", &Some(String::new())));
    assert!(!verify_password("anything", &Some(String::new())));
}

#[test]
fn test_verify_password_none_or_invalid_is_false() {
    assert!(!verify_password("anything", &None));
    assert!(!verify_password("x", &Some("not-a-valid-hash".into())));
    assert!(!verify_password("x", &Some("a".repeat(63))));
}

#[test]
fn texts_that_are_no_hashes_accept_nothing() {
    let hash = hash_password("x").unwrap();
    assert!(verify_password("x", &Some(hash.clone())));
    let no_hashes = [
        hash[1..].to_string(),
        hash.replace("$argon2id$", "$argon2$"),
        hash.replace("$argon2id$", "$scrypt$"),
        format!("{hash}$"),
        format!("{hash}$more"),
        hash[..hash.rfind('$').unwrap()].to_string(),
        "$".to_string(),
        "$argon2id$".to_string(),
        "g".repeat(64),
        "a".repeat(65),
    ];
    for text in no_hashes {
        assert!(!verify_password("x", &Some(text.clone())), "{text}");
        assert!(!verify_password("", &Some(text)));
    }
}

#[test]
fn test_is_auth_enabled() {
    assert!(!is_auth_enabled(&None));
    assert!(!is_auth_enabled(&Some(String::new())));
    assert!(is_auth_enabled(&Some("$argon2id$v=19$...".into())));
}

#[test]
fn test_extract_sid_x_api_key_takes_precedence() {
    assert_eq!(
        extract_sid_from_headers(Some("apikey-123"), Some("sid=cookie-456")).as_deref(),
        Some("apikey-123")
    );
}

#[test]
fn test_extract_sid_from_cookie() {
    assert_eq!(
        extract_sid_from_headers(None, Some("theme=dark; sid=cookie-456")).as_deref(),
        Some("cookie-456")
    );
}

#[test]
fn test_extract_sid_empty_api_key_falls_back_to_cookie() {
    assert_eq!(
        extract_sid_from_headers(Some(""), Some("sid=cookie-456")).as_deref(),
        Some("cookie-456")
    );
}

#[test]
fn test_extract_sid_missing_is_none() {
    assert_eq!(extract_sid_from_headers(None, None), None);
    assert_eq!(
        extract_sid_from_headers(None, Some("theme=dark")),
        None,
        "cookie without sid must be ignored"
    );
}

#[test]
fn the_first_cookie_with_an_identifier_counts() {
    let cookies = "xsid=1; sid=; sid=a=b ;sid=second";
    assert_eq!(extract_sid_from_headers(None, Some(cookies)).as_deref(), Some("a=b"));
}

#[test]
fn protected_paths() {
    for open in ["/", "/index.html", "/api", "/api/auth", "/api/auth/setup", "/api/info", "/api/version", "/api/health"] {
        assert!(!is_protected(open), "{open}");
    }
    for closed in ["/api/", "/api/stats", "/api/info/system", "/api/authx", "/api/health/"] {
        assert!(is_protected(closed), "{closed}");
    }
}

#[test]
fn requests_are_guarded() {
    let set = Some("hash".to_string());
    assert!(matches!(guard("/api/stats", &None, None, None), Access::Pass));
    assert!(matches!(guard("/", &set, None, None), Access::Pass));
    assert!(matches!(guard("/api/stats", &set, None, None), Access::Reject(AuthError::Unauthorized)));
    match guard("/api/stats", &set, None, Some("sid=x")) {
        Access::CheckSession(sid) => assert_eq!(sid, "x"),
        other => panic!("expected CheckSession, got {:?}", other),
    }
}

#[test]
fn logins_are_judged() {
    let mut limiter = AuthRateLimiter::new(2, 60);
    let stored = Some(sha256_hex("pw"));
    let right = AuthRequest { password: Some("pw".into()) };
    let wrong = AuthRequest { password: None };
    assert!(authenticate_at(&mut limiter, "c", &right, &stored, NOW).is_ok());
    let e = authenticate_at(&mut limiter, "c", &wrong, &stored, NOW).unwrap_err();
    assert!(matches!(e, AuthError::InvalidCredentials));
    assert_eq!(e.response(), (401, "Invalid credentials".to_string()));
    let e = authenticate_at(&mut limiter, "c", &right, &stored, NOW).unwrap_err();
    assert!(matches!(e, AuthError::RateLimited));
    assert_eq!(e.response(), (429, "Rate limited, try again later".to_string()));
    assert_eq!(e.message(), "Rate limited");
    // Without a stored password anybody gets in.
    assert!(authenticate(&mut limiter, "d", &wrong, &None).is_ok());
    let u = AuthError::Unauthorized;
    assert_eq!(u.response(), (401, "Session expired or not found".to_string()));
    assert_eq!(u.message(), "Unauthorized");
}

#[test]
fn clients_are_named_by_their_headers() {
    assert_eq!(client_name(Some("1.1.1.1"), Some("2.2.2.2")), "1.1.1.1");
    assert_eq!(client_name(None, Some("2.2.2.2")), "2.2.2.2");
    assert_eq!(client_name(None, None), "unknown");
}

#[test]
fn a_password_that_is_set_needs_a_session_to_change() {
    let set = Some("hash".to_string());
    assert!(matches!(setup_step(&None, None, None), SetupStep::Proceed));
    assert!(matches!(setup_step(&set, None, None), SetupStep::Reject));
    assert!(matches!(setup_step(&set, Some("k"), None), SetupStep::CheckSession(_)));
    assert_eq!(
        new_password(&AuthRequest { password: None }).unwrap_err(),
        (400, "Password cannot be empty".to_string())
    );
    assert_eq!(new_password(&AuthRequest { password: Some(String::new()) }).unwrap_err().0, 400);
    let hash = new_password(&AuthRequest { password: Some("new".into()) }).unwrap();
    assert!(verify_password("new", &Some(hash)));
}
