//! Which requests need a session, and how one is come by.

use crate::auth::attempts::{allowed, attempted, AttemptsView, AuthRateLimiter};
use crate::auth::error::AuthError;
use crate::auth::password::{
    self, accepted, hash_password, hashed_somehow, is_auth_enabled, verify_password,
};
use crate::clock;
use crate::text::{self, optional_str, pieces, trimmed};
use vstd::prelude::*;

verus! {

broadcast use vstd::string::group_string_axioms;

/// A request for a session, or for a new password.
#[derive(Debug)]
pub struct AuthRequest {
    pub password: Option<String>,
}

/// The session identifier that a cookie holds: what stands behind `sid=`, if anything does.
pub open spec fn cookie_sid(cookie: Seq<char>) -> Option<Seq<char>> {
    let c = trimmed(cookie);
    let p = seq!['s', 'i', 'd', '='];
    if p.is_prefix_of(c) && c.len() > 4 {
        Some(c.subrange(4, c.len() as int))
    } else {
        None
    }
}

/// The session identifier of the first cookie that holds one.
pub open spec fn first_sid(cookies: Seq<Seq<char>>) -> Option<Seq<char>>
    decreases cookies.len(),
{
    if cookies.len() == 0 {
        None
    } else {
        match first_sid(cookies.drop_last()) {
            Some(s) => Some(s),
            None => cookie_sid(cookies.last()),
        }
    }
}

/// The session identifier of a request: the key in the header of its own, if there is one and it is
/// not empty, else that of the first cookie that holds one.
pub open spec fn request_sid(api_key: Option<Seq<char>>, cookies: Option<Seq<char>>) -> Option<
    Seq<char>,
> {
    if api_key is Some && api_key->0.len() > 0 {
        api_key
    } else {
        match cookies {
            Some(c) => first_sid(pieces(c, ';')),
            None => None,
        }
    }
}

fn sid_of_cookie(cookie: &[char]) -> (r: Option<String>)
    ensures
        match r {
            Some(s) => cookie_sid(cookie@) == Some(s@),
            None => cookie_sid(cookie@) is None,
        },
{
    let c = text::trim(cookie);
    proof {
        reveal_strlit("sid=");
        assert("sid="@ =~= seq!['s', 'i', 'd', '=']);
    }
    if text::starts_with(c, "sid=") && c.len() > 4 {
        Some(text::string_of(&c[4..c.len()]))
    } else {
        None
    }
}

/// The session identifier of a request with the given headers `X-API-Key` and `Cookie`.
pub fn extract_sid_from_headers(api_key: Option<&str>, cookies: Option<&str>) -> (r: Option<String>)
    ensures
        match r {
            Some(s) => request_sid(optional_str(api_key), optional_str(cookies)) == Some(s@),
            None => request_sid(optional_str(api_key), optional_str(cookies)) is None,
        },
{
    match api_key {
        Some(k) => {
            proof {
                reveal_strlit("");
                assert(k@.len() == 0 ==> k@ =~= ""@);
            }
            if !text::same_text(k, "") {
                return Some(k.to_owned());
            }
        },
        None => {},
    }
    match cookies {
        None => None,
        Some(list) => {
            let chars = text::chars_of(list);
            let parts = text::split(chars.as_slice(), ';');
            let ghost all = pieces(list@, ';');
            let mut i: usize = 0;
            while i < parts.len()
                invariant
                    i <= parts@.len(),
                    all == pieces(list@, ';'),
                    parts@.len() == all.len(),
                    forall|k: int| 0 <= k < parts@.len() ==> (#[trigger] parts@[k])@ == all[k],
                    first_sid(all.subrange(0, i as int)) is None,
                    request_sid(optional_str(api_key), optional_str(cookies)) == first_sid(all),
                decreases parts@.len() - i,
            {
                proof {
                    let longer = all.subrange(0, i + 1);
                    assert(longer.drop_last() =~= all.subrange(0, i as int));
                    assert(longer.last() == parts@[i as int]@);
                }
                match sid_of_cookie(parts[i].as_slice()) {
                    Some(s) => {
                        proof {
                            lemma_first_sid_is_first(all, i + 1);
                        }
                        return Some(s);
                    },
                    None => {},
                }
                i += 1;
            }
            assert(all.subrange(0, all.len() as int) =~= all);
            None
        },
    }
}

/// A cookie behind the first that holds an identifier does not matter.
proof fn lemma_first_sid_is_first(all: Seq<Seq<char>>, n: int)
    requires
        0 <= n <= all.len(),
        first_sid(all.subrange(0, n)) is Some,
    ensures
        first_sid(all) == first_sid(all.subrange(0, n)),
    decreases all.len(),
{
    if n == all.len() {
        assert(all.subrange(0, n) =~= all);
    } else {
        assert(all.drop_last().subrange(0, n) =~= all.subrange(0, n));
        lemma_first_sid_is_first(all.drop_last(), n);
    }
}

/// The path needs a session: it belongs to the interface, and is neither the login nor one of the
/// public pages.
pub open spec fn needs_session(path: Seq<char>) -> bool {
    &&& "/api/"@.is_prefix_of(path)
    &&& !("/api/auth/"@.is_prefix_of(path))
    &&& path != "/api/auth"@
    &&& path != "/api/info"@
    &&& path != "/api/version"@
    &&& path != "/api/health"@
}

/// Whether a path needs a session.
pub fn is_protected(path: &str) -> (r: bool)
    ensures
        r == needs_session(path@),
{
    let p = text::chars_of(path);
    text::starts_with(p.as_slice(), "/api/") && !text::starts_with(p.as_slice(), "/api/auth/")
        && !text::same_text(path, "/api/auth") && !text::same_text(path, "/api/info")
        && !text::same_text(path, "/api/version") && !text::same_text(path, "/api/health")
}

/// What is done with a request before anything else.
#[derive(Debug)]
pub enum Access {
    /// It goes on.
    Pass,
    /// It goes on if the session with the identifier is open.
    CheckSession(String),
    /// It is refused.
    Reject(AuthError),
}

/// Lets a request pass, refuses it, or asks for its session.
pub fn guard(
    path: &str,
    password_hash: &Option<String>,
    api_key: Option<&str>,
    cookies: Option<&str>,
) -> (r: Access)
    ensures
        match r {
            Access::Pass => !needs_session(path@) || !(password_hash matches Some(h) && h@.len()
                > 0),
            Access::CheckSession(sid) => needs_session(path@) && (password_hash matches Some(h)
                && h@.len() > 0) && request_sid(optional_str(api_key), optional_str(cookies)) == Some(sid@),
            Access::Reject(e) => needs_session(path@) && (password_hash matches Some(h) && h@.len()
                > 0) && request_sid(optional_str(api_key), optional_str(cookies)) is None && e is Unauthorized,
        },
{
    if !is_protected(path) || !is_auth_enabled(password_hash) {
        return Access::Pass;
    }
    match extract_sid_from_headers(api_key, cookies) {
        Some(sid) => Access::CheckSession(sid),
        None => Access::Reject(AuthError::Unauthorized),
    }
}

/// The name under which the attempts of a client are counted, from the headers `X-Forwarded-For` and
/// `X-Real-IP`.
pub fn client_name(forwarded_for: Option<&str>, real_ip: Option<&str>) -> (r: String)
    ensures
        r@ == (match optional_str(forwarded_for) {
            Some(s) => s,
            None => match optional_str(real_ip) {
                Some(s) => s,
                None => "unknown"@,
            },
        }),
{
    match forwarded_for {
        Some(s) => s.to_owned(),
        None => match real_ip {
            Some(s) => s.to_owned(),
            None => "unknown".to_owned(),
        },
    }
}

/// The password of a request; a missing one is empty.
pub open spec fn given(password: Option<String>) -> Seq<char> {
    match password {
        Some(p) => p@,
        None => Seq::empty(),
    }
}

/// What becomes of a login: too many attempts are refused before the password is looked at; a
/// wrong password is refused where one is asked for.
pub open spec fn login_outcome(
    v: AttemptsView,
    client: Seq<char>,
    password: Seq<char>,
    stored: Option<Seq<char>>,
    now: i64,
) -> Result<(), bool> {
    if !allowed(v, client, now) {
        Err(true)
    } else if stored is Some && stored->0.len() > 0 && !accepted(password, stored) {
        Err(false)
    } else {
        Ok(())
    }
}

/// The result says what became of a login.
pub open spec fn reports(outcome: Result<(), bool>, r: Result<(), AuthError>) -> bool {
    match outcome {
        Ok(_) => r is Ok,
        Err(limited) => r matches Err(e) && if limited {
            e is RateLimited
        } else {
            e is InvalidCredentials
        },
    }
}

/// Judges a password: where one is asked for, it has to be the right one.
pub fn check_password(request: &AuthRequest, password_hash: &Option<String>) -> (r: Result<
    (),
    AuthError,
>)
    ensures
        ({
            let stored = text::optional(*password_hash);
            let wrong = stored is Some && stored->0.len() > 0 && !accepted(
                given(request.password),
                stored,
            );
            match r {
                Ok(_) => !wrong,
                Err(e) => wrong && e is InvalidCredentials,
            }
        }),
{
    if !is_auth_enabled(password_hash) {
        return Ok(());
    }
    let right: bool = match &request.password {
        Some(p) => verify_password(p.as_str(), password_hash),
        None => {
            proof {
                reveal_strlit("");
                assert(""@ =~= Seq::<char>::empty());
            }
            verify_password("", password_hash)
        },
    };
    if right {
        Ok(())
    } else {
        Err(AuthError::InvalidCredentials)
    }
}

/// Judges a login at the time `now`.
pub fn authenticate_at(
    limiter: &mut AuthRateLimiter,
    client: &str,
    request: &AuthRequest,
    password_hash: &Option<String>,
    now: i64,
) -> (r: Result<(), AuthError>)
    ensures
        reports(
            login_outcome(
                old(limiter)@,
                client@,
                given(request.password),
                text::optional(*password_hash),
                now,
            ),
            r,
        ),
        final(limiter)@ == attempted(old(limiter)@, client@, now),
{
    if !limiter.check_at(client, now) {
        return Err(AuthError::RateLimited);
    }
    check_password(request, password_hash)
}

/// Judges a login now.
pub fn authenticate(
    limiter: &mut AuthRateLimiter,
    client: &str,
    request: &AuthRequest,
    password_hash: &Option<String>,
) -> (r: Result<(), AuthError>)
    ensures
        exists|now: i64|
            clock::is_timestamp(now as int) && reports(
                login_outcome(
                    old(limiter)@,
                    client@,
                    given(request.password),
                    text::optional(*password_hash),
                    now,
                ),
                r,
            ) && final(limiter)@ == #[trigger] attempted(old(limiter)@, client@, now),
{
    let now: i64 = clock::unix_now();
    authenticate_at(limiter, client, request, password_hash, now)
}

/// What a request for a new password needs.
#[derive(Debug)]
pub enum SetupStep {
    /// Nothing: no password is set yet.
    Proceed,
    /// An open session with the identifier.
    CheckSession(String),
    /// There is no session: it is refused.
    Reject,
}

/// What a request for a new password needs. A password that is set can only be changed with a
/// session.
pub fn setup_step(
    password_hash: &Option<String>,
    api_key: Option<&str>,
    cookies: Option<&str>,
) -> (r: SetupStep)
    ensures
        match r {
            SetupStep::Proceed => !(password_hash matches Some(h) && h@.len() > 0),
            SetupStep::CheckSession(sid) => (password_hash matches Some(h) && h@.len() > 0)
                && request_sid(optional_str(api_key), optional_str(cookies)) == Some(sid@),
            SetupStep::Reject => (password_hash matches Some(h) && h@.len() > 0) && request_sid(
                optional_str(api_key),
                optional_str(cookies),
            ) is None,
        },
{
    if !is_auth_enabled(password_hash) {
        return SetupStep::Proceed;
    }
    match extract_sid_from_headers(api_key, cookies) {
        Some(sid) => SetupStep::CheckSession(sid),
        None => SetupStep::Reject,
    }
}

/// The hash of a new password; a status and a text where it is empty or cannot be hashed.
pub fn new_password(request: &AuthRequest) -> (r: Result<String, (u16, String)>)
    ensures
        match r {
            Ok(h) => {
                &&& given(request.password).len() > 0
                &&& hashed_somehow(given(request.password), Ok::<String, String>(h))
                &&& accepted(given(request.password), Some(h@))
            },
            Err((status, m)) => if given(request.password).len() == 0 {
                status == 400 && m@ == "Password cannot be empty"@
            } else {
                status == 500 && given(request.password).len() > 0x3fff_ffff
            },
        },
{
    match &request.password {
        None => Err((400, "Password cannot be empty".to_owned())),
        Some(p) => {
            proof {
                reveal_strlit("");
                assert(p@.len() == 0 ==> p@ =~= ""@);
            }
            if text::same_text(p.as_str(), "") {
                return Err((400, "Password cannot be empty".to_owned()));
            }
            match hash_password(p.as_str()) {
                Ok(h) => Ok(h),
                Err(e) => Err((500, e)),
            }
        },
    }
}

/// The key of the header goes before the cookies.
pub proof fn law_key_goes_before_cookies(key: Seq<char>, cookies: Option<Seq<char>>)
    requires
        key.len() > 0,
    ensures
        request_sid(Some(key), cookies) == Some(key),
{
}

/// A page of the interface opens to nobody without an identifier of a session once a password is set,
/// but for the login and the four public pages; everything else passes. The identifier that is
/// checked is the one that the request brings.
pub proof fn law_interface_is_guarded(
    path: &str,
    password_hash: &Option<String>,
    api_key: Option<&str>,
    cookies: Option<&str>,
    r: Access,
)
    requires
        guard.ensures((path, password_hash, api_key, cookies), r),
    ensures
        ({
            let set = password_hash matches Some(h) && h@.len() > 0;
            let public = !"/api/"@.is_prefix_of(path@) || "/api/auth/"@.is_prefix_of(path@) || path@
                == "/api/auth"@ || path@ == "/api/info"@ || path@ == "/api/version"@ || path@
                == "/api/health"@;
            &&& r is Pass <==> public || !set
            &&& r matches Access::Reject(e) ==> e is Unauthorized
            &&& r matches Access::CheckSession(sid) ==> request_sid(
                optional_str(api_key),
                optional_str(cookies),
            ) == Some(sid@)
        }),
{
}

/// What stands behind `sid=` in a cookie is the identifier, as it stands there, whatever white space is
/// in front of the cookie.
pub proof fn law_cookie_holds_the_identifier(lead: Seq<char>, sid: Seq<char>)
    requires
        text::all_white(lead),
        text::none_white(sid),
        sid.len() > 0,
    ensures
        cookie_sid(lead + (seq!['s', 'i', 'd', '='] + sid)) == Some(sid),
{
    let p = seq!['s', 'i', 'd', '='];
    let c = p + sid;
    text::lemma_white_in_front(lead, c);
    assert(c[0] == 's');
    assert(c.last() == sid.last());
    assert(c[c.len() - 1] == sid[sid.len() - 1]);
    text::lemma_trimmed_keeps(c, c.len() - 1);
    text::lemma_trimmed_start(c);
    assert(text::trimmed_start(c) == c);
    assert(trimmed(lead + c) == trimmed(c));
    text::lemma_trimmed_is_shorter(c);
    assert(trimmed(c) =~= c);
    assert(c.subrange(0, 4) =~= p);
    assert(c.subrange(4, c.len() as int) =~= sid);
}

/// A cookie with another name holds no identifier.
pub proof fn law_other_cookies_hold_none(cookie: Seq<char>, i: int)
    requires
        0 <= i < 4,
        trimmed(cookie).len() <= 4 || trimmed(cookie)[i] != seq!['s', 'i', 'd', '='][i],
    ensures
        cookie_sid(cookie) is None,
{
    let p = seq!['s', 'i', 'd', '='];
    let c = trimmed(cookie);
    if p.is_prefix_of(c) && c.len() > 4 {
        assert(c.subrange(0, 4)[i] == c[i]);
    }
}

/// Of the cookies of a request the first that holds an identifier counts; a key in the header of its
/// own goes before them, unless it is empty.
pub proof fn law_first_identifier_counts(
    key: Option<Seq<char>>,
    cookies: Seq<char>,
    i: int,
)
    requires
        key is None || key->0.len() == 0,
        0 <= i < pieces(cookies, ';').len(),
        cookie_sid(pieces(cookies, ';')[i]) is Some,
        forall|j: int| 0 <= j < i ==> cookie_sid(#[trigger] pieces(cookies, ';')[j]) is None,
    ensures
        request_sid(key, Some(cookies)) == cookie_sid(pieces(cookies, ';')[i]),
        request_sid(key, None) is None,
{
    let all = pieces(cookies, ';');
    let n = i + 1;
    lemma_none_before(all, i);
    assert(all.subrange(0, n).drop_last() =~= all.subrange(0, i));
    assert(all.subrange(0, n).last() == all[i]);
    lemma_first_sid_is_first(all, n);
}

proof fn lemma_none_before(all: Seq<Seq<char>>, n: int)
    requires
        0 <= n <= all.len(),
        forall|j: int| 0 <= j < n ==> cookie_sid(#[trigger] all[j]) is None,
    ensures
        first_sid(all.subrange(0, n)) is None,
    decreases n,
{
    if n > 0 {
        lemma_none_before(all, n - 1);
        assert(all.subrange(0, n).drop_last() =~= all.subrange(0, n - 1));
        assert(all.subrange(0, n).last() == all[n - 1]);
    }
}

/// Without a cookie that holds an identifier, and without a key, a request has none.
pub proof fn law_no_identifier_without_a_cookie(key: Option<Seq<char>>, cookies: Seq<char>)
    requires
        key is None || key->0.len() == 0,
        forall|j: int|
            0 <= j < pieces(cookies, ';').len() ==> cookie_sid(#[trigger] pieces(cookies, ';')[j]) is None,
    ensures
        request_sid(key, Some(cookies)) is None,
{
    let all = pieces(cookies, ';');
    lemma_none_before(all, all.len() as int);
    assert(all.subrange(0, all.len() as int) =~= all);
}

/// A login succeeds exactly where the client has attempts left and the password is the stored one, or
/// none is stored. Too many attempts are refused as such, whatever the password is; only then is a
/// wrong password.
pub proof fn law_login_needs_the_password(
    v: AttemptsView,
    client: Seq<char>,
    password: Seq<char>,
    stored: Option<Seq<char>>,
    now: i64,
    r: Result<(), AuthError>,
)
    requires
        reports(login_outcome(v, client, password, stored, now), r),
    ensures
        ({
            let asked = stored is Some && stored->0.len() > 0;
            &&& r is Ok <==> allowed(v, client, now) && (!asked || accepted(password, stored))
            &&& !allowed(v, client, now) ==> r is Err && r->Err_0 is RateLimited
            &&& allowed(v, client, now) && r is Err ==> r->Err_0 is InvalidCredentials
        }),
{
}

/// A password that is stored is asked for: without it, or with another, nobody gets in.
pub proof fn law_password_is_asked_for(
    request: &AuthRequest,
    stored: &Option<String>,
    r: Result<(), AuthError>,
)
    requires
        check_password.ensures((request, stored), r),
        stored is Some,
        stored->0@.len() > 0,
    ensures
        ({
            let password = if request.password is Some {
                request.password->0@
            } else {
                Seq::empty()
            };
            &&& r is Ok <==> accepted(password, Some(stored->0@))
            &&& r is Err ==> r->Err_0 is InvalidCredentials
        }),
{
}

/// A password that is set is changed only with a session; one that is not set yet is set freely.
pub proof fn law_set_password_is_guarded(
    stored: &Option<String>,
    api_key: Option<&str>,
    cookies: Option<&str>,
    r: SetupStep,
)
    requires
        setup_step.ensures((stored, api_key, cookies), r),
    ensures
        r is Proceed <==> (stored is None || stored->0@.len() == 0),
        r matches SetupStep::CheckSession(sid) ==> request_sid(
            optional_str(api_key),
            optional_str(cookies),
        ) == Some(sid@),
{
}

/// A new password is never empty, and its hash is accepted for it afterwards.
pub proof fn law_new_password_is_accepted(request: &AuthRequest, r: Result<String, (u16, String)>)
    requires
        new_password.ensures((request,), r),
    ensures
        (request.password is None || request.password->0@.len() == 0) ==> (r matches Err(
            (status, _),
        ) && status == 400),
        request.password is Some && 0 < request.password->0@.len() <= 0x3fff_ffff ==> r is Ok
            && accepted(request.password->0@, Some(r->Ok_0@)),
{
}

/// Attempts are counted by the address that a request was forwarded for, else by the one that it came
/// from, else together.
pub proof fn law_client_is_named_by_its_headers(
    forwarded_for: Option<&str>,
    real_ip: Option<&str>,
    r: String,
)
    requires
        client_name.ensures((forwarded_for, real_ip), r),
    ensures
        forwarded_for matches Some(s) ==> r@ == s@,
        forwarded_for is None ==> (real_ip matches Some(s) ==> r@ == s@),
        forwarded_for is None && real_ip is None ==> r@ == "unknown"@,
{
}

} // verus!
