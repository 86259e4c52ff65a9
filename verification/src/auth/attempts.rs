//! The limit on attempts to get in. Times are seconds since 1970.

use crate::clock;
use dashmap::DashMap;
use vstd::prelude::*;

verus! {

broadcast use vstd::string::group_string_axioms;

/// The times of the attempts that a table holds, for each client.
pub uninterp spec fn times(m: DashMap<String, Vec<i64>>) -> Map<Seq<char>, Seq<i64>>;

/// No attempts.
pub open spec fn no_times() -> Map<Seq<char>, Seq<i64>> {
    Map::empty()
}

/// `DashMap::new`: a table that holds nothing.
#[verifier::external_body]
fn new_table() -> (r: DashMap<String, Vec<i64>>)
    ensures
        times(r) == no_times(),
{
    DashMap::new()
}

/// `DashMap::get`, and a copy of what it finds.
#[verifier::external_body]
fn get(m: &DashMap<String, Vec<i64>>, key: &str) -> (r: Option<Vec<i64>>)
    ensures
        match r {
            Some(v) => times(*m).contains_key(key@) && times(*m)[key@] == v@,
            None => !times(*m).contains_key(key@),
        },
{
    m.get(key).map(|v| v.clone())
}

/// `DashMap::insert`: the times stand under the key afterwards.
#[verifier::external_body]
fn insert(m: &mut DashMap<String, Vec<i64>>, key: String, v: Vec<i64>)
    ensures
        times(*final(m)) == times(*old(m)).insert(key@, v@),
{
    m.insert(key, v);
}

/// `DashMap::remove`: nothing stands under the key afterwards.
#[verifier::external_body]
fn remove(m: &mut DashMap<String, Vec<i64>>, key: &str)
    ensures
        times(*final(m)) == times(*old(m)).remove(key@),
{
    m.remove(key);
}

/// `DashMap::len`: how many keys there are.
#[verifier::external_body]
fn len(m: &DashMap<String, Vec<i64>>) -> (r: usize)
    ensures
        r == times(*m).dom().len(),
{
    m.len()
}

/// Counts the attempts of each client in a window of time that ends now.
pub struct AuthRateLimiter {
    attempts: DashMap<String, Vec<i64>>,
    max_attempts: usize,
    window_secs: i64,
}

/// The contents of an `AuthRateLimiter`.
#[verifier::ext_equal]
pub struct AttemptsView {
    pub attempts: Map<Seq<char>, Seq<i64>>,
    pub max: usize,
    pub window: i64,
}

impl View for AuthRateLimiter {
    type V = AttemptsView;

    closed spec fn view(&self) -> AttemptsView {
        AttemptsView {
            attempts: times(self.attempts),
            max: self.max_attempts,
            window: self.window_secs,
        }
    }
}

/// The times that lie in the window of time that ends at `now`.
pub open spec fn within(s: Seq<i64>, now: i64, window: i64) -> Seq<i64>
    decreases s.len(),
{
    if s.len() == 0 {
        Seq::empty()
    } else if s.last() > now - window {
        within(s.drop_last(), now, window).push(s.last())
    } else {
        within(s.drop_last(), now, window)
    }
}

/// The attempts of a client in the window of time that ends at `now`.
pub open spec fn recent(v: AttemptsView, key: Seq<char>, now: i64) -> Seq<i64> {
    if v.attempts.contains_key(key) {
        within(v.attempts[key], now, v.window)
    } else {
        Seq::empty()
    }
}

/// Another attempt is allowed.
pub open spec fn allowed(v: AttemptsView, key: Seq<char>, now: i64) -> bool {
    recent(v, key, now).len() < v.max
}

/// The limiter after an attempt. One that is not allowed is not counted; times outside the window
/// go.
pub open spec fn attempted(v: AttemptsView, key: Seq<char>, now: i64) -> AttemptsView {
    AttemptsView {
        attempts: v.attempts.insert(
            key,
            if allowed(v, key, now) {
                recent(v, key, now).push(now)
            } else {
                recent(v, key, now)
            },
        ),
        ..v
    }
}

/// The limiter after a client got in.
pub open spec fn succeeded(v: AttemptsView, key: Seq<char>) -> AttemptsView {
    AttemptsView { attempts: v.attempts.remove(key), ..v }
}

fn keep_within(s: &Vec<i64>, now: i64, window: i64) -> (r: Vec<i64>)
    ensures
        r@ == within(s@, now, window),
{
    let mut out: Vec<i64> = Vec::new();
    let mut i: usize = 0;
    while i < s.len()
        invariant
            i <= s@.len(),
            out@ == within(s@.subrange(0, i as int), now, window),
        decreases s@.len() - i,
    {
        proof {
            let longer = s@.subrange(0, i + 1);
            assert(longer.drop_last() =~= s@.subrange(0, i as int));
        }
        if s[i] as i128 > now as i128 - window as i128 {
            out.push(s[i]);
        }
        i += 1;
    }
    assert(s@.subrange(0, s@.len() as int) =~= s@);
    out
}

impl AuthRateLimiter {
    /// A limiter for `max_attempts` in `window_secs` seconds.
    pub fn new(max_attempts: usize, window_secs: i64) -> (r: AuthRateLimiter)
        ensures
            r@ == (AttemptsView { attempts: no_times(), max: max_attempts, window: window_secs }),
    {
        AuthRateLimiter { attempts: new_table(), max_attempts, window_secs }
    }

    /// Counts an attempt at the time `now`; says whether it is allowed.
    pub fn check_at(&mut self, key: &str, now: i64) -> (r: bool)
        ensures
            r == allowed(old(self)@, key@, now),
            final(self)@ == attempted(old(self)@, key@, now),
    {
        let stored: Vec<i64> = match get(&self.attempts, key) {
            Some(v) => v,
            None => Vec::new(),
        };
        let mut kept = keep_within(&stored, now, self.window_secs);
        assert(kept@ == recent(self@, key@, now));
        let room: bool = kept.len() < self.max_attempts;
        if room {
            kept.push(now);
        }
        insert(&mut self.attempts, key.to_owned(), kept);
        assert(self@ =~= attempted(old(self)@, key@, now));
        room
    }

    /// Counts an attempt now; says whether it is allowed.
    pub fn check(&mut self, key: &str) -> (r: bool)
        ensures
            exists|now: i64|
                clock::is_timestamp(now as int) && r == allowed(old(self)@, key@, now)
                    && final(self)@ == #[trigger] attempted(old(self)@, key@, now),
    {
        let now: i64 = clock::unix_now();
        self.check_at(key, now)
    }

    /// Forgets the attempts of a client, because it got in.
    pub fn record_success(&mut self, key: &str)
        ensures
            final(self)@ == succeeded(old(self)@, key@),
    {
        remove(&mut self.attempts, key);
        assert(self@ =~= succeeded(old(self)@, key@));
    }

    /// How many clients there are attempts of.
    pub fn tracked_clients(&self) -> (r: usize)
        ensures
            r == self@.attempts.dom().len(),
    {
        len(&self.attempts)
    }
}

/// Clients are counted apart: an attempt of one does not change what another may do.
pub proof fn law_attempts_are_counted_apart(
    v: AttemptsView,
    a: Seq<char>,
    b: Seq<char>,
    now: i64,
    later: i64,
)
    requires
        a != b,
    ensures
        allowed(attempted(v, a, now), b, later) == allowed(v, b, later),
{
}

/// A client that got in starts anew.
pub proof fn law_success_starts_anew(v: AttemptsView, key: Seq<char>, now: i64)
    requires
        v.max > 0,
    ensures
        allowed(succeeded(v, key), key, now),
{
}

/// After a window of time without attempts a client may try again.
pub proof fn law_window_passes(v: AttemptsView, key: Seq<char>, now: i64)
    requires
        v.max > 0,
        v.attempts.contains_key(key) ==> forall|i: int|
            0 <= i < v.attempts[key].len() ==> #[trigger] v.attempts[key][i] <= now - v.window,
    ensures
        allowed(v, key, now),
{
    if v.attempts.contains_key(key) {
        lemma_none_within(v.attempts[key], now, v.window);
    }
}

proof fn lemma_none_within(s: Seq<i64>, now: i64, window: i64)
    requires
        forall|i: int| 0 <= i < s.len() ==> #[trigger] s[i] <= now - window,
    ensures
        within(s, now, window).len() == 0,
    decreases s.len(),
{
    if s.len() > 0 {
        assert(s[s.len() - 1] <= now - window);
        assert forall|i: int| 0 <= i < s.drop_last().len() implies #[trigger] s.drop_last()[i] <= now
            - window by {
            assert(s.drop_last()[i] == s[i]);
        }
        lemma_none_within(s.drop_last(), now, window);
    }
}

/// No more attempts are kept of a client than are allowed, so that the table stays small.
pub proof fn law_attempts_stay_bounded(v: AttemptsView, key: Seq<char>, now: i64)
    requires
        v.attempts.contains_key(key) ==> v.attempts[key].len() <= v.max,
    ensures
        attempted(v, key, now).attempts[key].len() <= v.max,
{
    if v.attempts.contains_key(key) {
        lemma_within_is_shorter(v.attempts[key], now, v.window);
    }
}

proof fn lemma_within_is_shorter(s: Seq<i64>, now: i64, window: i64)
    ensures
        within(s, now, window).len() <= s.len(),
    decreases s.len(),
{
    if s.len() > 0 {
        lemma_within_is_shorter(s.drop_last(), now, window);
    }
}

/// What a limiter is told: that a client attempts to get in at a time, or that it got in.
pub enum Event {
    Check(Seq<char>, i64),
    Success(Seq<char>),
}

/// The limiter after events.
pub open spec fn after_events(v: AttemptsView, events: Seq<Event>) -> AttemptsView
    decreases events.len(),
{
    if events.len() == 0 {
        v
    } else {
        let before = after_events(v, events.drop_last());
        match events.last() {
            Event::Check(key, at) => attempted(before, key, at),
            Event::Success(key) => succeeded(before, key),
        }
    }
}

/// The times of the attempts of a client that were allowed, since it last got in.
pub open spec fn granted(v: AttemptsView, events: Seq<Event>, key: Seq<char>) -> Seq<i64>
    decreases events.len(),
{
    if events.len() == 0 {
        Seq::empty()
    } else {
        let before = granted(v, events.drop_last(), key);
        match events.last() {
            Event::Check(k, at) => if k == key && allowed(
                after_events(v, events.drop_last()),
                key,
                at,
            ) {
                before.push(at)
            } else {
                before
            },
            Event::Success(k) => if k == key {
                Seq::empty()
            } else {
                before
            },
        }
    }
}

/// The times of the attempts of a client do not go back, and none is later than `now`.
pub open spec fn in_order(events: Seq<Event>, key: Seq<char>, now: i64) -> bool
    decreases events.len(),
{
    events.len() == 0 || match events.last() {
        Event::Check(k, at) => if k == key {
            at <= now && in_order(events.drop_last(), key, at)
        } else {
            in_order(events.drop_last(), key, now)
        },
        Event::Success(_) => in_order(events.drop_last(), key, now),
    }
}

proof fn lemma_in_order_later(events: Seq<Event>, key: Seq<char>, now: i64, later: i64)
    requires
        in_order(events, key, now),
        now <= later,
    ensures
        in_order(events, key, later),
    decreases events.len(),
{
    if events.len() > 0 {
        match events.last() {
            Event::Check(k, at) => if k != key {
                lemma_in_order_later(events.drop_last(), key, now, later);
            },
            Event::Success(_) => lemma_in_order_later(events.drop_last(), key, now, later),
        }
    }
}

/// What lies in a window lies in it as well when an earlier one was taken first.
proof fn lemma_within_twice(s: Seq<i64>, now: i64, later: i64, window: i64)
    requires
        now <= later,
    ensures
        within(within(s, now, window), later, window) == within(s, later, window),
    decreases s.len(),
{
    if s.len() > 0 {
        lemma_within_twice(s.drop_last(), now, later, window);
        if s.last() > now - window {
            let kept = within(s.drop_last(), now, window);
            assert(kept.push(s.last()).drop_last() =~= kept);
        }
    }
}

/// The attempts that are kept are, in every window that ends now or later, those that were allowed.
proof fn lemma_granted_are_kept(
    max: usize,
    window: i64,
    events: Seq<Event>,
    key: Seq<char>,
    now: i64,
)
    requires
        in_order(events, key, now),
    ensures
        ({
            let made = AttemptsView { attempts: no_times(), max, window };
            let v = after_events(made, events);
            v.max == max && v.window == window && recent(v, key, now) == within(
                granted(made, events, key),
                now,
                window,
            )
        }),
    decreases events.len(),
{
    let made = AttemptsView { attempts: no_times(), max, window };
    if events.len() > 0 {
        let rest = events.drop_last();
        let v = after_events(made, rest);
        match events.last() {
            Event::Check(k, at) => {
                if k == key {
                    lemma_in_order_later(rest, key, at, now);
                    lemma_granted_are_kept(max, window, rest, key, now);
                    let kept = recent(v, key, at);
                    if v.attempts.contains_key(key) {
                        lemma_within_twice(v.attempts[key], at, now, window);
                    }
                    assert(within(kept, now, window) == recent(v, key, now));
                    if allowed(v, key, at) {
                        let g = granted(made, rest, key);
                        assert(kept.push(at).drop_last() =~= kept);
                        assert(g.push(at).drop_last() =~= g);
                    }
                } else {
                    lemma_granted_are_kept(max, window, rest, key, now);
                }
            },
            Event::Success(_) => {
                lemma_granted_are_kept(max, window, rest, key, now);
            },
        }
    }
}

/// The limit over a whole history: an attempt is allowed exactly where fewer than `max` attempts of
/// the client that were allowed lie in the window of time that ends now, since it last got in. An
/// attempt that was refused is not counted, and what other clients do plays no part.
pub proof fn law_limit_holds_over_a_history(
    max: usize,
    window: i64,
    events: Seq<Event>,
    key: Seq<char>,
    now: i64,
)
    requires
        in_order(events, key, now),
    ensures
        ({
            let made = AttemptsView { attempts: no_times(), max, window };
            allowed(after_events(made, events), key, now) == (within(
                granted(made, events, key),
                now,
                window,
            ).len() < max)
        }),
{
    lemma_granted_are_kept(max, window, events, key, now);
}


proof fn lemma_within_keeps(s: Seq<i64>, now: i64, window: i64, t: i64)
    ensures
        within(s, now, window).contains(t) <==> s.contains(t) && t > now - window,
    decreases s.len(),
{
    if s.len() > 0 {
        let shorter = s.drop_last();
        let w = within(shorter, now, window);
        lemma_within_keeps(shorter, now, window, t);
        if s.contains(t) && t > now - window {
            let i = choose|i: int| 0 <= i < s.len() && s[i] == t;
            if i < shorter.len() {
                assert(shorter[i] == t);
                let j = choose|j: int| 0 <= j < w.len() && w[j] == t;
                assert(within(s, now, window)[j] == t);
            } else {
                assert(within(s, now, window)[w.len() as int] == t);
            }
        }
        if within(s, now, window).contains(t) {
            let j = choose|j: int|
                0 <= j < within(s, now, window).len() && within(s, now, window)[j] == t;
            if j < w.len() {
                assert(w[j] == t);
                assert(w.contains(t));
                let i = choose|i: int| 0 <= i < shorter.len() && shorter[i] == t;
                assert(s[i] == t);
            } else {
                assert(s[s.len() - 1] == t);
            }
        }
    }
}

proof fn lemma_all_within(s: Seq<i64>, now: i64, window: i64)
    requires
        forall|i: int| 0 <= i < s.len() ==> #[trigger] s[i] > now - window,
    ensures
        within(s, now, window) == s,
    decreases s.len(),
{
    if s.len() > 0 {
        let shorter = s.drop_last();
        assert forall|i: int| 0 <= i < shorter.len() implies #[trigger] shorter[i] > now - window by {
            assert(shorter[i] == s[i]);
        }
        lemma_all_within(shorter, now, window);
        assert(s[s.len() - 1] > now - window);
        assert(shorter.push(s.last()) =~= s);
    } else {
        assert(within(s, now, window) =~= s);
    }
}

/// An attempt that was allowed counts for as many seconds as the window has: it still counts in its
/// last second, and not any more when the window is over. Attempts are counted one by one.
pub proof fn law_attempt_counts_for_the_window(
    v: AttemptsView,
    key: Seq<char>,
    t: i64,
    later: i64,
)
    requires
        allowed(v, key, t),
        v.window > 0,
    ensures
        recent(attempted(v, key, t), key, later).contains(t) <==> later < t + v.window,
        attempted(v, key, t).attempts[key].len() == recent(v, key, t).len() + 1,
        attempted(v, key, t).max == v.max && attempted(v, key, t).window == v.window,
{
    let s = attempted(v, key, t).attempts[key];
    assert(s[s.len() - 1] == t);
    lemma_within_keeps(s, later, v.window, t);
}

/// A client may attempt just as often as is allowed while all its attempts lie in the window.
pub proof fn law_attempts_in_the_window_are_limited(v: AttemptsView, key: Seq<char>, now: i64)
    requires
        v.attempts.contains_key(key),
        forall|i: int|
            0 <= i < v.attempts[key].len() ==> #[trigger] v.attempts[key][i] > now - v.window,
    ensures
        allowed(v, key, now) <==> v.attempts[key].len() < v.max,
{
    lemma_all_within(v.attempts[key], now, v.window);
}

} // verus!
