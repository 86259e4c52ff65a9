//! Sessions: who has one, and for how long. Times are seconds since 1970.

use crate::auth::error::AuthError;
use crate::clock;
use crate::database::queries::Session;
use crate::text::{copy_optional, optional};
use dashmap::DashMap;
use uuid::Uuid;
use vstd::prelude::*;

verus! {

broadcast use vstd::string::group_string_axioms;

/// Seconds for which a session lasts at least.
pub const MIN_SESSION_SECS: u64 = 60;

/// The contents of a `Session`.
#[verifier::ext_equal]
pub struct SessionView {
    pub sid: Seq<char>,
    pub created_at: i64,
    pub expires_at: i64,
    pub last_used_at: Option<i64>,
    pub client_ip: Option<Seq<char>>,
    pub user_agent: Option<Seq<char>>,
    pub data: Option<Seq<u8>>,
}

impl View for Session {
    type V = SessionView;

    open spec fn view(&self) -> SessionView {
        SessionView {
            sid: self.sid@,
            created_at: self.created_at,
            expires_at: self.expires_at,
            last_used_at: self.last_used_at,
            client_ip: optional(self.client_ip),
            user_agent: optional(self.user_agent),
            data: match self.data {
                Some(d) => Some(d@),
                None => None,
            },
        }
    }
}

impl Session {
    /// A session with the same contents.
    pub fn copy(&self) -> (r: Session)
        ensures
            r@ == self@,
    {
        let data: Option<Vec<u8>> = match &self.data {
            Some(d) => Some(crate::dns::cache::copy_bytes(d)),
            None => None,
        };
        let r = Session {
            sid: self.sid.clone(),
            created_at: self.created_at,
            expires_at: self.expires_at,
            last_used_at: self.last_used_at,
            client_ip: copy_optional(&self.client_ip),
            user_agent: copy_optional(&self.user_agent),
            data,
        };
        assert(r@ =~= self@);
        r
    }
}

/// The sessions that a table holds, by their identifiers.
pub uninterp spec fn sessions(m: DashMap<String, Session>) -> Map<Seq<char>, SessionView>;

/// No sessions.
pub open spec fn no_sessions() -> Map<Seq<char>, SessionView> {
    Map::empty()
}

/// `DashMap::new`: a table that holds nothing.
#[verifier::external_body]
fn new_table() -> (r: DashMap<String, Session>)
    ensures
        sessions(r) == no_sessions(),
{
    DashMap::new()
}

/// `DashMap::get`, and a copy of the session that it finds.
#[verifier::external_body]
fn get(m: &DashMap<String, Session>, sid: &str) -> (r: Option<Session>)
    ensures
        match r {
            Some(s) => sessions(*m).contains_key(sid@) && sessions(*m)[sid@] == s@,
            None => !sessions(*m).contains_key(sid@),
        },
{
    m.get(sid).map(|s| s.copy())
}

/// `DashMap::insert`: the session stands under the identifier afterwards.
#[verifier::external_body]
fn insert(m: &mut DashMap<String, Session>, sid: String, session: Session)
    ensures
        sessions(*final(m)) == sessions(*old(m)).insert(sid@, session@),
{
    m.insert(sid, session);
}

/// `DashMap::remove`: nothing stands under the identifier afterwards.
#[verifier::external_body]
fn remove(m: &mut DashMap<String, Session>, sid: &str)
    ensures
        sessions(*final(m)) == sessions(*old(m)).remove(sid@),
{
    m.remove(sid);
}

/// Whether a session that ends at `expires_at` still lasts.
pub open spec fn lasts(expires_at: i64, now: i64) -> bool {
    expires_at >= now
}

/// The sessions that still last.
pub open spec fn lasting(m: Map<Seq<char>, SessionView>, now: i64) -> Map<Seq<char>, SessionView> {
    Map::new(
        |sid: Seq<char>| m.contains_key(sid) && lasts(m[sid].expires_at, now),
        |sid: Seq<char>| m[sid],
    )
}

fn still_lasts(expires_at: i64, now: i64) -> (r: bool)
    ensures
        r == lasts(expires_at, now),
{
    expires_at >= now
}

/// `DashMap::retain` of the sessions that still last.
#[verifier::external_body]
fn keep_lasting(m: &mut DashMap<String, Session>, now: i64)
    ensures
        sessions(*final(m)) == lasting(sessions(*old(m)), now),
{
    m.retain(|_, s| still_lasts(s.expires_at, now));
}

/// A digit of a number in base sixteen, in lower case.
pub open spec fn is_hex_digit(c: char) -> bool {
    ('0' <= c && c <= '9') || ('a' <= c && c <= 'f')
}

/// The text has the form of an identifier: 36 characters, four dashes that part groups of eight,
/// four, four, four and twelve digits, the third group starting with 4 and the fourth with 8, 9, a
/// or b.
pub open spec fn is_sid(s: Seq<char>) -> bool {
    &&& s.len() == 36
    &&& s[8] == '-' && s[13] == '-' && s[18] == '-' && s[23] == '-'
    &&& s[14] == '4'
    &&& s[19] == '8' || s[19] == '9' || s[19] == 'a' || s[19] == 'b'
    &&& forall|i: int|
        0 <= i < 36 && i != 8 && i != 13 && i != 18 && i != 23 ==> is_hex_digit(#[trigger] s[i])
}

/// `uuid::Uuid::new_v4` and its text, which has the form of an identifier. No two are ever expected
/// to be the same, but they are drawn by chance, so that is not promised here.
#[verifier::external_body]
fn new_sid() -> (r: String)
    ensures
        is_sid(r@),
{
    Uuid::new_v4().to_string()
}

/// When a session ends that starts at the time `now` and lasts for `timeout` seconds; behind the
/// greatest number comes the least.
pub open spec fn end_of(now: i64, timeout: u64) -> i64 {
    if now + timeout > i64::MAX {
        (now + timeout - 0x1_0000_0000_0000_0000) as i64
    } else {
        (now + timeout) as i64
    }
}

/// The time for which a new session lasts: what is configured, and at least a minute.
pub fn session_timeout(configured: u64) -> (r: u64)
    ensures
        r == (if configured < MIN_SESSION_SECS {
            MIN_SESSION_SECS
        } else {
            configured
        }),
{
    if configured < MIN_SESSION_SECS {
        MIN_SESSION_SECS
    } else {
        configured
    }
}

/// A new session that starts at the time `now`: its identifier, and when it ends.
pub fn create_session_at(timeout_secs: u64, now: i64) -> (r: (String, i64))
    ensures
        is_sid(r.0@),
        r.1 == end_of(now, timeout_secs),
{
    let sum: i128 = now as i128 + timeout_secs as i128;
    let end: i128 = if sum > 0x7fff_ffff_ffff_ffff {
        sum - 0x1_0000_0000_0000_0000
    } else {
        sum
    };
    (new_sid(), end as i64)
}

/// A new session that starts now: its identifier, and when it ends.
pub fn create_session(timeout_secs: u64) -> (r: (String, i64))
    ensures
        is_sid(r.0@),
        exists|now: i64|
            clock::is_timestamp(now as int) && r.1 == #[trigger] end_of(now, timeout_secs),
{
    let now: i64 = clock::unix_now();
    create_session_at(timeout_secs, now)
}

/// What the store has to do with a session.
#[derive(Debug, Clone, Copy, PartialEq, Eq, Structural)]
pub enum SessionChange {
    Keep,
    /// The session's time is over: it goes.
    Delete,
    /// The session was used.
    Touch,
}

/// What the store found under an identifier, as a value of the specification.
pub open spec fn found_view(found: Result<Option<Session>, String>) -> Result<
    Option<SessionView>,
    Seq<char>,
> {
    match found {
        Ok(Some(s)) => Ok(Some(s@)),
        Ok(None) => Ok(None),
        Err(e) => Err(e@),
    }
}

/// The answer is the session that was found, if it still lasts; an internal error where the store
/// failed; else that there is no session.
pub open spec fn judged(
    found: Result<Option<SessionView>, Seq<char>>,
    now: i64,
    r: Result<Session, AuthError>,
) -> bool {
    match found {
        Err(e) => r matches Err(AuthError::Internal(m)) && m@ == e,
        Ok(None) => r matches Err(AuthError::Unauthorized),
        Ok(Some(s)) => if lasts(s.expires_at, now) {
            r matches Ok(x) && x@ == s
        } else {
            r matches Err(AuthError::Unauthorized)
        },
    }
}

/// The session that was found is over.
pub open spec fn is_over(found: Result<Option<SessionView>, Seq<char>>, now: i64) -> bool {
    found matches Ok(Some(s)) && !lasts(s.expires_at, now)
}

/// Judges what the store found under an identifier, at the time `now`.
pub fn validate_session_at(found: Result<Option<Session>, String>, now: i64) -> (r: (
    Result<Session, AuthError>,
    SessionChange,
))
    ensures
        judged(found_view(found), now, r.0),
        r.1 == (if is_over(found_view(found), now) {
            SessionChange::Delete
        } else if r.0 is Ok {
            SessionChange::Touch
        } else {
            SessionChange::Keep
        }),
{
    match found {
        Err(e) => (Err(AuthError::Internal(e)), SessionChange::Keep),
        Ok(None) => (Err(AuthError::Unauthorized), SessionChange::Keep),
        Ok(Some(s)) => if still_lasts(s.expires_at, now) {
            (Ok(s), SessionChange::Touch)
        } else {
            (Err(AuthError::Unauthorized), SessionChange::Delete)
        },
    }
}

/// Judges what the store found under an identifier, now.
pub fn validate_session(found: Result<Option<Session>, String>) -> (r: (
    Result<Session, AuthError>,
    SessionChange,
))
    ensures
        exists|now: i64|
            clock::is_timestamp(now as int) && #[trigger] judged(found_view(found), now, r.0)
                && r.1 == (if is_over(found_view(found), now) {
                SessionChange::Delete
            } else if r.0 is Ok {
                SessionChange::Touch
            } else {
                SessionChange::Keep
            }),
{
    let now: i64 = clock::unix_now();
    validate_session_at(found, now)
}

/// Sessions in memory, so that the store is not asked at every request.
pub struct SessionCache {
    table: DashMap<String, Session>,
}

impl View for SessionCache {
    type V = Map<Seq<char>, SessionView>;

    closed spec fn view(&self) -> Map<Seq<char>, SessionView> {
        sessions(self.table)
    }
}

/// The session in memory that an identifier opens at the time `now`.
pub open spec fn open_session(
    m: Map<Seq<char>, SessionView>,
    sid: Seq<char>,
    now: i64,
) -> Option<SessionView> {
    if m.contains_key(sid) && lasts(m[sid].expires_at, now) {
        Some(m[sid])
    } else {
        None
    }
}

/// The sessions in memory after an identifier was looked up: one that is over goes.
pub open spec fn looked_up(
    m: Map<Seq<char>, SessionView>,
    sid: Seq<char>,
    now: i64,
) -> Map<Seq<char>, SessionView> {
    if open_session(m, sid, now) is Some {
        m
    } else {
        m.remove(sid)
    }
}

/// The sessions in memory after the store was asked for an identifier.
pub open spec fn resolved(
    m: Map<Seq<char>, SessionView>,
    sid: Seq<char>,
    found: Result<Option<SessionView>, Seq<char>>,
    now: i64,
) -> Map<Seq<char>, SessionView> {
    match found {
        Ok(Some(s)) => if lasts(s.expires_at, now) {
            m.insert(sid, s)
        } else {
            m.remove(sid)
        },
        _ => m,
    }
}

impl SessionCache {
    /// No sessions.
    pub fn new() -> (r: SessionCache)
        ensures
            r@ == no_sessions(),
    {
        SessionCache { table: new_table() }
    }

    /// The session in memory that an identifier opens at the time `now`. Where there is none, the
    /// store has to be asked.
    pub fn lookup_at(&mut self, sid: &str, now: i64) -> (r: Option<Session>)
        ensures
            match r {
                Some(s) => open_session(old(self)@, sid@, now) == Some(s@),
                None => open_session(old(self)@, sid@, now) is None,
            },
            final(self)@ == looked_up(old(self)@, sid@, now),
    {
        match get(&self.table, sid) {
            Some(s) => {
                if still_lasts(s.expires_at, now) {
                    return Some(s);
                }
                remove(&mut self.table, sid);
                None
            },
            None => {
                assert(self@.remove(sid@) =~= self@);
                None
            },
        }
    }

    /// The session in memory that an identifier opens now.
    pub fn lookup(&mut self, sid: &str) -> (r: Option<Session>)
        ensures
            exists|now: i64|
                clock::is_timestamp(now as int) && #[trigger] looked_up(old(self)@, sid@, now)
                    == final(self)@ && (match r {
                    Some(s) => open_session(old(self)@, sid@, now) == Some(s@),
                    None => open_session(old(self)@, sid@, now) is None,
                }),
    {
        let now: i64 = clock::unix_now();
        self.lookup_at(sid, now)
    }

    /// Judges what the store found under an identifier at the time `now`, and keeps a session that
    /// lasts. Says whether the store has to delete the session.
    pub fn resolve_at(
        &mut self,
        sid: &str,
        found: Result<Option<Session>, String>,
        now: i64,
    ) -> (r: (Result<Session, AuthError>, bool))
        ensures
            judged(found_view(found), now, r.0),
            r.1 == is_over(found_view(found), now),
            final(self)@ == resolved(old(self)@, sid@, found_view(found), now),
    {
        match found {
            Err(e) => (Err(AuthError::Internal(e)), false),
            Ok(None) => (Err(AuthError::Unauthorized), false),
            Ok(Some(s)) => if still_lasts(s.expires_at, now) {
                insert(&mut self.table, sid.to_owned(), s.copy());
                (Ok(s), false)
            } else {
                remove(&mut self.table, sid);
                (Err(AuthError::Unauthorized), true)
            },
        }
    }

    /// Judges what the store found under an identifier now, and keeps a session that lasts.
    pub fn resolve(&mut self, sid: &str, found: Result<Option<Session>, String>) -> (r: (
        Result<Session, AuthError>,
        bool,
    ))
        ensures
            exists|now: i64|
                clock::is_timestamp(now as int) && #[trigger] judged(found_view(found), now, r.0)
                    && r.1 == is_over(found_view(found), now) && final(self)@ == resolved(
                    old(self)@,
                    sid@,
                    found_view(found),
                    now,
                ),
    {
        let now: i64 = clock::unix_now();
        self.resolve_at(sid, found, now)
    }

    /// Keeps a session.
    pub fn insert(&mut self, session: &Session)
        ensures
            final(self)@ == old(self)@.insert(session@.sid, session@),
    {
        insert(&mut self.table, session.sid.clone(), session.copy());
    }

    /// Forgets a session.
    pub fn remove(&mut self, sid: &str)
        ensures
            final(self)@ == old(self)@.remove(sid@),
    {
        remove(&mut self.table, sid);
    }

    /// Changes when a session ends, if it is kept.
    pub fn update_expiry(&mut self, sid: &str, expires_at: i64)
        ensures
            final(self)@ == (if old(self)@.contains_key(sid@) {
                old(self)@.insert(sid@, SessionView { expires_at, ..old(self)@[sid@] })
            } else {
                old(self)@
            }),
    {
        match get(&self.table, sid) {
            Some(s) => {
                let mut changed: Session = s;
                changed.expires_at = expires_at;
                assert(changed@ =~= (SessionView { expires_at, ..self@[sid@] }));
                insert(&mut self.table, sid.to_owned(), changed);
            },
            None => {},
        }
    }

    /// Forgets every session that is over at the time `now`.
    pub fn remove_expired(&mut self, now: i64)
        ensures
            final(self)@ == lasting(old(self)@, now),
    {
        keep_lasting(&mut self.table, now);
    }
}

/// A session that was kept opens the door until its time is over, whatever the store holds.
pub proof fn law_kept_session_opens(m: Map<Seq<char>, SessionView>, s: SessionView, now: i64)
    requires
        lasts(s.expires_at, now),
    ensures
        open_session(m.insert(s.sid, s), s.sid, now) == Some(s),
{
}

/// A session that is over opens nothing, and is gone after the attempt.
pub proof fn law_session_that_is_over_opens_nothing(
    m: Map<Seq<char>, SessionView>,
    sid: Seq<char>,
    now: i64,
)
    requires
        m.contains_key(sid),
        !lasts(m[sid].expires_at, now),
    ensures
        open_session(m, sid, now) is None,
        !looked_up(m, sid, now).contains_key(sid),
{
}

/// After a logout the identifier opens nothing in memory.
pub proof fn law_removed_session_opens_nothing(
    m: Map<Seq<char>, SessionView>,
    sid: Seq<char>,
    now: i64,
)
    ensures
        open_session(m.remove(sid), sid, now) is None,
{
}

/// What the store found is found in memory at the next request.
pub proof fn law_found_session_opens(
    m: Map<Seq<char>, SessionView>,
    sid: Seq<char>,
    s: SessionView,
    now: i64,
    later: i64,
)
    requires
        lasts(s.expires_at, now),
        lasts(s.expires_at, later),
    ensures
        open_session(
            resolved(m, sid, Ok::<Option<SessionView>, Seq<char>>(Some(s)), now),
            sid,
            later,
        ) == Some(s),
{
}

/// Forgetting the sessions that are over does not change which sessions open.
pub proof fn law_forgetting_changes_no_access(
    m: Map<Seq<char>, SessionView>,
    sid: Seq<char>,
    now: i64,
    later: i64,
)
    requires
        now <= later,
    ensures
        open_session(lasting(m, now), sid, later) == open_session(m, sid, later),
{
}

/// A session opens exactly while it lasts: it is kept in memory, and the time is not after its end.
pub proof fn law_session_opens_while_it_lasts(
    m: Map<Seq<char>, SessionView>,
    sid: Seq<char>,
    now: i64,
)
    ensures
        open_session(m, sid, now) is Some <==> m.contains_key(sid) && now <= m[sid].expires_at,
        open_session(m, sid, now) is Some ==> open_session(m, sid, now) == Some(m[sid]),
        lasting(m, now).contains_key(sid) <==> m.contains_key(sid) && now <= m[sid].expires_at,
        forall|other: Seq<char>|
            other != sid ==> looked_up(m, sid, now).contains_key(other) == m.contains_key(other),
{
}

/// What the store found is judged by its time: a session that lasts is let in as it was stored, and
/// marked as used; one that is over is refused and deleted; no session is refused; and where the store
/// fails, that is the answer, and nothing is deleted.
pub proof fn law_stored_session_is_judged_by_its_time(
    found: Result<Option<Session>, String>,
    now: i64,
    r: (Result<Session, AuthError>, SessionChange),
)
    requires
        validate_session_at.ensures((found, now), r),
    ensures
        found matches Ok(Some(s)) ==> (now <= s.expires_at ==> (r.0 matches Ok(x) && x@ == s@) && r.1
            == SessionChange::Touch),
        found matches Ok(Some(s)) ==> (now > s.expires_at ==> (r.0 matches Err(
            AuthError::Unauthorized,
        )) && r.1 == SessionChange::Delete),
        found matches Ok(None) ==> (r.0 matches Err(AuthError::Unauthorized)) && r.1
            == SessionChange::Keep,
        found matches Err(e) ==> (r.0 matches Err(AuthError::Internal(m)) && m@ == e@) && r.1
            == SessionChange::Keep,
{
}

/// The answer about a session that is judged, and what is kept of it in memory: a session that lasts is
/// let in and kept; one that is over is refused and forgotten. Other sessions stay.
pub proof fn law_judged_session_is_kept_or_forgotten(
    m: Map<Seq<char>, SessionView>,
    sid: Seq<char>,
    found: Result<Option<SessionView>, Seq<char>>,
    now: i64,
    r: Result<Session, AuthError>,
    other: Seq<char>,
)
    requires
        judged(found, now, r),
    ensures
        ({
            let after = resolved(m, sid, found, now);
            let lasts = found matches Ok(Some(s)) && now <= s.expires_at;
            &&& r is Ok <==> lasts
            &&& lasts ==> after.contains_key(sid) && Ok::<Option<SessionView>, Seq<char>>(
                Some(after[sid]),
            ) == found && r->Ok_0@ == after[sid]
            &&& is_over(found, now) <==> (found matches Ok(Some(s)) && now > s.expires_at)
            &&& (found matches Ok(Some(s)) && now > s.expires_at) ==> !after.contains_key(sid)
            &&& other != sid ==> after.contains_key(other) == m.contains_key(other) && (
            m.contains_key(other) ==> after[other] == m[other])
        }),
{
}

/// A session ends when its time has passed since it started, and lasts for at least a minute.
pub proof fn law_session_ends_after_its_time(now: i64, timeout: u64, configured: u64, r: u64)
    requires
        now + timeout <= i64::MAX,
        session_timeout.ensures((configured,), r),
    ensures
        end_of(now, timeout) == now + timeout,
        r >= 60,
        r >= configured,
        r == 60 || r == configured,
{
}

/// A new session ends so many seconds after it starts as it lasts.
pub proof fn law_new_session_ends_in_time(timeout: u64, now: i64, r: (String, i64))
    requires
        create_session_at.ensures((timeout, now), r),
        now + timeout <= i64::MAX,
    ensures
        r.1 == now + timeout,
        r.0@.len() == 36,
{
}

} // verus!
