//! The bodies and parameters of requests, and what they ask for.

use crate::api::json::{object_members, Json, JsonView};
use crate::blocking::lists::{
    allow_added, allow_removed, deny_added, deny_removed, gravity_added, gravity_removed,
    BlockingEngine, ListsView,
};
use crate::config::BlockingMode;
use crate::database::gravity::DomainListEntry;
use crate::database::queries::QueryFilter;
use crate::text;
use vstd::prelude::*;

verus! {

broadcast use vstd::string::group_string_axioms;

/// A domain for one of the lists.
#[derive(Debug)]
pub struct AddDomainRequest {
    pub domain: String,
    pub comment: Option<String>,
}

/// A new group.
#[derive(Debug)]
pub struct CreateGroupRequest {
    pub name: String,
    pub description: Option<String>,
}

/// What is searched for in the query log.
#[derive(Debug)]
pub struct QueriesParams {
    pub domain: Option<String>,
    pub client: Option<String>,
    pub status: Option<i32>,
    pub from: Option<i64>,
    pub until: Option<i64>,
    pub limit: Option<i64>,
    pub offset: Option<i64>,
}

/// What suggestions are asked for.
#[derive(Debug)]
pub struct SuggestionsParams {
    pub q: Option<String>,
    pub field: Option<String>,
}

/// Counts for the interface.
#[derive(Debug, Clone, Copy, PartialEq, Eq, Structural)]
pub struct ApiState {
    /// How many queries were handled.
    pub query_count: u64,
    /// When the server was started, in nanoseconds of the clock that never goes back.
    pub start_time: u64,
}

impl ApiState {
    /// The counts of a server that was started at the time `now`.
    pub fn new(now: u64) -> (r: ApiState)
        ensures
            r.query_count == 0,
            r.start_time == now,
    {
        ApiState { query_count: 0, start_time: now }
    }

    /// Whole seconds since the start.
    pub fn uptime_seconds(&self, now: u64) -> (r: u64)
        ensures
            r == (if now >= self.start_time {
                (now - self.start_time) / 1_000_000_000
            } else {
                0
            }),
    {
        now.saturating_sub(self.start_time) / 1_000_000_000
    }
}

/// How many rows a page has: a hundred where nothing is said, and from one to a thousand.
pub open spec fn page_limit(asked: Option<i64>) -> i64 {
    match asked {
        None => 100,
        Some(n) => if n < 1 {
            1
        } else if n > 1000 {
            1000
        } else {
            n
        },
    }
}

/// Where a page starts: at the first row where nothing or less is said.
pub open spec fn page_start(asked: Option<i64>) -> i64 {
    match asked {
        None => 0,
        Some(n) => if n < 0 {
            0
        } else {
            n
        },
    }
}

fn limit_of(asked: Option<i64>) -> (r: i64)
    ensures
        r == page_limit(asked),
        1 <= r <= 1000,
{
    match asked {
        None => 100,
        Some(n) => if n < 1 {
            1
        } else if n > 1000 {
            1000
        } else {
            n
        },
    }
}

fn start_of(asked: Option<i64>) -> (r: i64)
    ensures
        r == page_start(asked),
        r >= 0,
{
    match asked {
        None => 0,
        Some(n) => if n < 0 {
            0
        } else {
            n
        },
    }
}

/// The search that the parameters ask for. A page is never unlimited.
pub fn query_filter(params: QueriesParams) -> (r: QueryFilter)
    ensures
        r.domain == params.domain,
        r.client == params.client,
        r.status == params.status,
        r.from == params.from,
        r.until == params.until,
        r.limit == page_limit(params.limit),
        r.offset == page_start(params.offset),
        1 <= r.limit <= 1000,
        r.offset >= 0,
{
    QueryFilter {
        domain: params.domain,
        client: params.client,
        status: params.status,
        from: params.from,
        until: params.until,
        limit: limit_of(params.limit),
        offset: start_of(params.offset),
    }
}

/// The page that the parameters ask for: where it starts, and how many rows it has. None where the
/// start is above what the machine can count.
pub fn page(params: &QueriesParams) -> (r: Option<(usize, usize)>)
    ensures
        match r {
            Some((start, limit)) => start == page_start(params.offset) && limit == page_limit(
                params.limit,
            ),
            None => page_start(params.offset) > usize::MAX,
        },
{
    let start: i64 = start_of(params.offset);
    let limit: i64 = limit_of(params.limit);
    if start as u64 > usize::MAX as u64 {
        None
    } else {
        Some((start as usize, limit as usize))
    }
}

/// The column that suggestions are asked for.
#[derive(Debug, Clone, Copy, PartialEq, Eq, Structural)]
pub enum SuggestionField {
    Domain,
    Client,
}

/// The column that suggestions are asked for, and what they start with. A missing column is the
/// domain; a status and a text for any other than the two.
pub fn suggestion_request(params: SuggestionsParams) -> (r: Result<
    (SuggestionField, String),
    (u16, String),
>)
    ensures
        ({
            let field = match params.field {
                Some(f) => f@,
                None => "domain"@,
            };
            match r {
                Ok((column, q)) => {
                    &&& column == SuggestionField::Domain <==> field == "domain"@
                    &&& column == SuggestionField::Client <==> field == "client"@
                    &&& q@ == (match params.q {
                        Some(t) => t@,
                        None => Seq::empty(),
                    })
                },
                Err((status, m)) => field != "domain"@ && field != "client"@ && status == 400 && m@
                    == "field must be 'domain' or 'client'"@,
            }
        }),
{
    proof {
        reveal_strlit("domain");
        reveal_strlit("client");
        assert("domain"@[0] == 'd' && "client"@[0] == 'c');
    }
    let q: String = match params.q {
        Some(t) => t,
        None => String::new(),
    };
    match params.field {
        None => Ok((SuggestionField::Domain, q)),
        Some(f) => if text::same_text(f.as_str(), "domain") {
            Ok((SuggestionField::Domain, q))
        } else if text::same_text(f.as_str(), "client") {
            Ok((SuggestionField::Client, q))
        } else {
            Err((400, "field must be 'domain' or 'client'".to_owned()))
        },
    }
}

/// A change of one domain in the lists.
#[derive(Debug, Clone, Copy, PartialEq, Eq, Structural)]
pub enum BlockingDelta {
    AddAllow,
    RemoveAllow,
    AddDeny,
    RemoveDeny,
    AddGravity,
    RemoveGravity,
}

/// The lists after a change.
pub open spec fn changed(v: ListsView, delta: BlockingDelta, domain: Seq<char>) -> ListsView {
    match delta {
        BlockingDelta::AddAllow => allow_added(v, domain),
        BlockingDelta::RemoveAllow => allow_removed(v, domain),
        BlockingDelta::AddDeny => deny_added(v, domain),
        BlockingDelta::RemoveDeny => deny_removed(v, domain),
        BlockingDelta::AddGravity => gravity_added(v, domain),
        BlockingDelta::RemoveGravity => gravity_removed(v, domain),
    }
}

/// Makes a change in the lists of a running engine, without loading them anew.
pub fn apply_blocking_delta(engine: &mut BlockingEngine, delta: BlockingDelta, domain: &str)
    requires
        delta is AddDeny || delta is AddGravity ==> old(engine).lists@.total < usize::MAX,
    ensures
        final(engine).lists@ == changed(old(engine).lists@, delta, domain@),
        final(engine).mode == old(engine).mode,
{
    match delta {
        BlockingDelta::AddAllow => engine.lists.add_allow_domain(domain),
        BlockingDelta::RemoveAllow => engine.lists.remove_allow_domain(domain),
        BlockingDelta::AddDeny => engine.lists.add_deny_domain(domain),
        BlockingDelta::RemoveDeny => engine.lists.remove_deny_domain(domain),
        BlockingDelta::AddGravity => engine.lists.add_gravity_domain(domain),
        BlockingDelta::RemoveGravity => engine.lists.remove_gravity_domain(domain),
    }
}

/// The domain of the first entry with the identifier; none where there is none.
pub fn domain_of_entry(entries: &Vec<DomainListEntry>, id: i32) -> (r: Option<String>)
    ensures
        match r {
            Some(d) => exists|i: int|
                0 <= i < entries@.len() && (#[trigger] entries@[i]).id == id && entries@[i].domain@
                    == d@ && (forall|k: int| 0 <= k < i ==> (#[trigger] entries@[k]).id != id),
            None => forall|k: int| 0 <= k < entries@.len() ==> (#[trigger] entries@[k]).id != id,
        },
{
    let mut i: usize = 0;
    while i < entries.len()
        invariant
            i <= entries@.len(),
            forall|k: int| 0 <= k < i ==> (#[trigger] entries@[k]).id != id,
        decreases entries@.len() - i,
    {
        if entries[i].id == id {
            assert(entries@[i as int].id == id);
            return Some(entries[i].domain.clone());
        }
        i += 1;
    }
    None
}

/// The text of a member of the body; empty where there is none, or it is no text.
pub open spec fn text_member(body: JsonView, key: Seq<char>) -> Seq<char> {
    let m = object_members(body);
    if m.contains_key(key) && m[key] is Text {
        m[key]->Text_0
    } else {
        Seq::empty()
    }
}

fn member_text(body: &Json, key: &str) -> (r: String)
    ensures
        r@ == text_member(body@, key@),
{
    match body.member(key) {
        None => String::new(),
        Some(j) => match j.as_text() {
            Some(t) => t.clone(),
            None => String::new(),
        },
    }
}

/// The mode that an action leads to from a mode: "enable" and "on" switch blocking on, "disable" and
/// "off" switch it off, "toggle" changes it. None for any other action.
pub open spec fn mode_after(action: Seq<char>, mode: BlockingMode) -> Option<BlockingMode> {
    if action == "enable"@ || action == "on"@ {
        Some(BlockingMode::Null)
    } else if action == "disable"@ || action == "off"@ {
        Some(BlockingMode::Disabled)
    } else if action == "toggle"@ {
        Some(
            if mode == BlockingMode::Disabled {
                BlockingMode::Null
            } else {
                BlockingMode::Disabled
            },
        )
    } else {
        None
    }
}

/// The mode that the action in the body of a request leads to; a status and a text where there is no
/// such action.
pub fn blocking_action(body: &Json, mode: BlockingMode) -> (r: Result<BlockingMode, (u16, String)>)
    ensures
        match r {
            Ok(m) => mode_after(text_member(body@, "action"@), mode) == Some(m),
            Err((status, t)) => mode_after(text_member(body@, "action"@), mode) is None && status
                == 400 && t@ == "action must be 'enable', 'disable', or 'toggle'"@,
        },
{
    let action = member_text(body, "action");
    let a = action.as_str();
    if text::same_text(a, "enable") || text::same_text(a, "on") {
        Ok(BlockingMode::Null)
    } else if text::same_text(a, "disable") || text::same_text(a, "off") {
        Ok(BlockingMode::Disabled)
    } else if text::same_text(a, "toggle") {
        if mode == BlockingMode::Disabled {
            Ok(BlockingMode::Null)
        } else {
            Ok(BlockingMode::Disabled)
        }
    } else {
        Err((400, "action must be 'enable', 'disable', or 'toggle'".to_owned()))
    }
}

/// The domain that the body of a request adds to the blocklist; a status and a text where there is
/// none.
pub fn blocklist_domain(body: &Json) -> (r: Result<String, (u16, String)>)
    ensures
        match r {
            Ok(d) => d@ == text_member(body@, "domain"@) && d@.len() > 0,
            Err((status, t)) => text_member(body@, "domain"@).len() == 0 && status == 400 && t@
                == "domain is required"@,
        },
{
    let d = member_text(body, "domain");
    proof {
        reveal_strlit("");
        assert(d@.len() == 0 ==> d@ =~= ""@);
    }
    if text::same_text(d.as_str(), "") {
        Err((400, "domain is required".to_owned()))
    } else {
        Ok(d)
    }
}

/// The port in the body of a request; that of DNS over TLS where there is none.
pub open spec fn port_member(body: JsonView) -> u64 {
    let m = object_members(body);
    if m.contains_key("port"@) && m["port"@] is Number && text::unsigned_value(
        m["port"@]->Number_0,
        10,
        u64::MAX as nat,
    ) is Some {
        text::unsigned_value(m["port"@]->Number_0, 10, u64::MAX as nat)->0 as u64
    } else {
        853
    }
}

/// The server that the body of a request wants to have measured: its address and port. None where
/// there is no address.
pub fn benchmark_target(body: &Json) -> (r: Option<(String, u64)>)
    ensures
        match r {
            Some((ip, port)) => ip@ == text_member(body@, "ip"@) && ip@.len() > 0 && port
                == port_member(body@),
            None => text_member(body@, "ip"@).len() == 0,
        },
{
    let ip = member_text(body, "ip");
    proof {
        reveal_strlit("");
        assert(ip@.len() == 0 ==> ip@ =~= ""@);
    }
    if text::same_text(ip.as_str(), "") {
        return None;
    }
    let port: u64 = match body.member("port") {
        Some(Json::Number(t)) => {
            let c = text::chars_of(t.as_str());
            match text::parse_unsigned(c.as_slice(), 10, u64::MAX) {
                Some(n) => n,
                None => 853,
            }
        },
        _ => 853,
    };
    Some((ip, port))
}

/// The number that a control file holds, between white space.
pub fn control_number(content: &str) -> (r: Option<u64>)
    ensures
        r is Some <==> text::unsigned_value(text::trimmed(content@), 10, u64::MAX as nat) is Some,
        r is Some ==> r->0 == text::unsigned_value(text::trimmed(content@), 10, u64::MAX as nat)->0,
{
    let c = text::chars_of(content);
    text::parse_unsigned(text::trim(c.as_slice()), 10, u64::MAX)
}

/// The number that the second word of a line writes.
pub open spec fn second_number(line: Seq<char>) -> Option<nat> {
    let w = text::words(line);
    if w.len() >= 2 {
        text::unsigned_value(w[1], 10, u64::MAX as nat)
    } else {
        None
    }
}

/// The number in the first line that starts with the name.
pub open spec fn named_number(lines: Seq<Seq<char>>, name: Seq<char>) -> Option<nat>
    decreases lines.len(),
{
    if lines.len() == 0 {
        None
    } else if name.is_prefix_of(lines[0]) {
        second_number(lines[0])
    } else {
        named_number(lines.subrange(1, lines.len() as int), name)
    }
}

/// The processor time in microseconds that the statistics of a control group give; none where they
/// give none.
pub fn cpu_usage(stat: &str) -> (r: Option<u64>)
    ensures
        r is Some <==> named_number(text::pieces(stat@, '\n'), "usage_usec"@) is Some,
        r is Some ==> r->0 == named_number(text::pieces(stat@, '\n'), "usage_usec"@)->0,
{
    let c = text::chars_of(stat);
    let lines = text::split(c.as_slice(), '\n');
    let ghost all = text::pieces(stat@, '\n');
    let mut i: usize = 0;
    assert(all.subrange(0, all.len() as int) =~= all);
    while i < lines.len()
        invariant
            i <= lines@.len(),
            lines@.len() == all.len(),
            all == text::pieces(stat@, '\n'),
            forall|k: int| 0 <= k < lines@.len() ==> (#[trigger] lines@[k])@ == all[k],
            named_number(all, "usage_usec"@) == named_number(
                all.subrange(i as int, all.len() as int),
                "usage_usec"@,
            ),
        decreases lines@.len() - i,
    {
        let ghost rest = all.subrange(i as int, all.len() as int);
        assert(rest[0] == lines@[i as int]@);
        assert(rest.subrange(1, rest.len() as int) =~= all.subrange(i + 1, all.len() as int));
        if text::starts_with(lines[i].as_slice(), "usage_usec") {
            let w = text::split_words(lines[i].as_slice());
            if w.len() < 2 {
                return None;
            }
            return text::parse_unsigned(w[1].as_slice(), 10, u64::MAX);
        }
        i += 1;
    }
    None
}

/// Toggling twice switches blocking on again where it was on, though always in the mode `Null`, and
/// off where it was off.
pub proof fn law_toggle_twice(mode: BlockingMode)
    ensures
        ({
            let once = mode_after("toggle"@, mode)->0;
            let twice = mode_after("toggle"@, once)->0;
            (twice == BlockingMode::Disabled) == (mode == BlockingMode::Disabled)
        }),
{
    reveal_strlit("enable");
    reveal_strlit("on");
    reveal_strlit("disable");
    reveal_strlit("off");
    reveal_strlit("toggle");
    assert("toggle"@[0] == 't' && "enable"@[0] == 'e' && "on"@[0] == 'o' && "disable"@[0] == 'd'
        && "off"@[0] == 'o');
}

/// A search has the conditions that were asked for and is never unlimited: its page has the rows that
/// were asked for, a hundred where nothing was said, at least one and at most a thousand; it starts at
/// the row that was asked for, the first where nothing or less was said.
pub proof fn law_search_is_what_was_asked_for(params: QueriesParams, r: QueryFilter)
    requires
        query_filter.ensures((params,), r),
    ensures
        r.domain == params.domain && r.client == params.client && r.status == params.status,
        r.from == params.from && r.until == params.until,
        params.limit is None ==> r.limit == 100,
        params.limit matches Some(n) ==> (1 <= n <= 1000 ==> r.limit == n) && (n < 1 ==> r.limit == 1)
            && (n > 1000 ==> r.limit == 1000),
        params.offset is None ==> r.offset == 0,
        params.offset matches Some(n) ==> (n >= 0 ==> r.offset == n) && (n < 0 ==> r.offset == 0),
{
}

/// A page of the blocklist has the rows that were asked for, by the same rules.
pub proof fn law_page_is_what_was_asked_for(params: &QueriesParams, r: Option<(usize, usize)>)
    requires
        page.ensures((params,), r),
    ensures
        r matches Some((start, limit)) ==> {
            &&& 1 <= limit <= 1000
            &&& params.limit is None ==> limit == 100
            &&& params.limit matches Some(n) ==> (1 <= n <= 1000 ==> limit == n)
            &&& params.offset is None ==> start == 0
            &&& params.offset matches Some(n) ==> (n >= 0 ==> start == n) && (n < 0 ==> start == 0)
        },
        r is None ==> (params.offset matches Some(n) && n > usize::MAX),
{
}

/// A change of one domain touches one list: the one that it is for. The domain is on that list after
/// it was added; the other lists, patterns and wildcard entries are as they were.
pub proof fn law_change_touches_one_list(v: ListsView, delta: BlockingDelta, domain: Seq<char>)
    ensures
        ({
            let w = changed(v, delta, domain);
            let name = text::lowercase(text::trimmed(domain));
            &&& w.allow_regexes == v.allow_regexes && w.deny_regexes == v.deny_regexes
                && w.wildcards == v.wildcards && w.adlists == v.adlists
            &&& delta is AddAllow ==> w.allow == v.allow.insert(name)
            &&& delta is RemoveAllow ==> w.allow == v.allow.remove(text::trimmed(domain))
            &&& !(delta is AddAllow || delta is RemoveAllow) ==> w.allow == v.allow
            &&& delta is AddDeny ==> w.deny == v.deny.insert(name)
            &&& delta is RemoveDeny ==> w.deny == v.deny.remove(text::trimmed(domain))
            &&& !(delta is AddDeny || delta is RemoveDeny) ==> w.deny == v.deny
            &&& delta is AddGravity ==> w.gravity == v.gravity.insert(name)
            &&& delta is RemoveGravity ==> w.gravity == v.gravity.remove(text::trimmed(domain))
            &&& !(delta is AddGravity || delta is RemoveGravity) ==> w.gravity == v.gravity
        }),
{
}

/// What the body of a request does to blocking: "enable" or "on" switches it on, "disable" or "off"
/// switches it off, "toggle" switches it off where it was on and on where it was off. Anything else is
/// refused with the status 400.
pub proof fn law_blocking_is_switched(
    body: &Json,
    mode: BlockingMode,
    r: Result<BlockingMode, (u16, String)>,
    action: Seq<char>,
)
    requires
        blocking_action.ensures((body, mode), r),
        object_members(body@).contains_key("action"@),
        object_members(body@)["action"@] == JsonView::Text(action),
    ensures
        action == "enable"@ || action == "on"@ ==> r == Ok::<BlockingMode, (u16, String)>(
            BlockingMode::Null,
        ),
        action == "disable"@ || action == "off"@ ==> r == Ok::<BlockingMode, (u16, String)>(
            BlockingMode::Disabled,
        ),
        action == "toggle"@ ==> r is Ok && (r->Ok_0 == BlockingMode::Disabled <==> mode
            != BlockingMode::Disabled),
        action != "enable"@ && action != "on"@ && action != "disable"@ && action != "off"@ && action
            != "toggle"@ ==> (r matches Err((status, _)) && status == 400),
{
    reveal_strlit("enable");
    reveal_strlit("on");
    reveal_strlit("disable");
    reveal_strlit("off");
    reveal_strlit("toggle");
    assert("toggle"@[0] == 't' && "enable"@[0] == 'e' && "on"@[0] == 'o' && "disable"@[0] == 'd'
        && "off"@[0] == 'o');
    assert("on"@[1] == 'n' && "off"@[1] == 'f');
}

/// The domain for the blocklist and the address to measure are what the body says; the port is what the
/// body says, 853 where it says none. Without a domain, or without an address, nothing is done.
pub proof fn law_bodies_say_what_they_say(
    body: &Json,
    text: Seq<char>,
    d: Result<String, (u16, String)>,
    t: Option<(String, u64)>,
)
    requires
        blocklist_domain.ensures((body,), d),
        benchmark_target.ensures((body,), t),
    ensures
        ({
            let m = object_members(body@);
            &&& m.contains_key("domain"@) && m["domain"@] == JsonView::Text(text) && text.len() > 0
                ==> d is Ok && d->Ok_0@ == text
            &&& !m.contains_key("domain"@) ==> d is Err
            &&& m.contains_key("ip"@) && m["ip"@] == JsonView::Text(text) && text.len() > 0
                ==> t is Some && (t->0).0@ == text
            &&& !m.contains_key("ip"@) ==> t is None
            &&& t is Some && !m.contains_key("port"@) ==> (t->0).1 == 853
            &&& t is Some && m.contains_key("port"@) && m["port"@] is Number
                && text::unsigned_value(m["port"@]->Number_0, 10, u64::MAX as nat) is Some
                ==> (t->0).1 == text::unsigned_value(m["port"@]->Number_0, 10, u64::MAX as nat)->0
        }),
{
}

/// The server is up for as many seconds as have passed completely since its start.
pub proof fn law_uptime_is_in_whole_seconds(s: &ApiState, now: u64, r: u64)
    requires
        ApiState::uptime_seconds.ensures((s, now), r),
        now >= s.start_time,
    ensures
        r * 1_000_000_000 <= now - s.start_time < (r + 1) * 1_000_000_000,
{
}

/// The processor time is the number behind the name in the first line that starts with the name; other
/// lines in front of it do not matter.
pub proof fn law_named_line_gives_the_number(
    before: Seq<Seq<char>>,
    line: Seq<char>,
    after: Seq<Seq<char>>,
    name: Seq<char>,
)
    requires
        forall|i: int| 0 <= i < before.len() ==> !name.is_prefix_of(#[trigger] before[i]),
        name.is_prefix_of(line),
    ensures
        named_number(before + (seq![line] + after), name) == (if text::words(line).len() >= 2 {
            text::unsigned_value(text::words(line)[1], 10, u64::MAX as nat)
        } else {
            None
        }),
        named_number(before, name) is None,
    decreases before.len(),
{
    let all = before + (seq![line] + after);
    if before.len() == 0 {
        assert(all[0] == line);
    } else {
        let rest = before.subrange(1, before.len() as int);
        assert(all[0] == before[0]);
        assert(all.subrange(1, all.len() as int) =~= rest + (seq![line] + after));
        assert forall|i: int| 0 <= i < rest.len() implies !name.is_prefix_of(#[trigger] rest[i]) by {
            assert(rest[i] == before[i + 1]);
        }
        law_named_line_gives_the_number(rest, line, after, name);
    }
}

/// Suggestions are for the domain, unless the client is asked for; any other column is refused with the
/// status 400. They are for the text that was given.
pub proof fn law_suggestions_are_for_a_column(
    params: SuggestionsParams,
    r: Result<(SuggestionField, String), (u16, String)>,
)
    requires
        suggestion_request.ensures((params,), r),
    ensures
        params.field is None ==> r is Ok && (r->Ok_0).0 == SuggestionField::Domain,
        params.field matches Some(f) ==> (f@ == "client"@ ==> r is Ok && (r->Ok_0).0
            == SuggestionField::Client),
        params.field matches Some(f) ==> (f@ != "client"@ && f@ != "domain"@ ==> r is Err && (
        r->Err_0).0 == 400),
        r is Ok && params.q is Some ==> (r->Ok_0).1@ == params.q->0@,
        r is Ok && params.q is None ==> (r->Ok_0).1@.len() == 0,
{
    reveal_strlit("domain");
    reveal_strlit("client");
    assert("domain"@[0] == 'd' && "client"@[0] == 'c');
}

/// The domain of an entry is that of the first entry with its number.
pub proof fn law_entry_is_found_by_its_number(
    entries: &Vec<DomainListEntry>,
    id: i32,
    r: Option<String>,
    i: int,
)
    requires
        domain_of_entry.ensures((entries, id), r),
        0 <= i < entries@.len(),
        entries@[i].id == id,
        forall|k: int| 0 <= k < i ==> (#[trigger] entries@[k]).id != id,
    ensures
        r is Some,
        r->0@ == entries@[i].domain@,
{
    let j = choose|j: int|
        0 <= j < entries@.len() && (#[trigger] entries@[j]).id == id && entries@[j].domain@ == r->0@
            && (forall|k: int| 0 <= k < j ==> (#[trigger] entries@[k]).id != id);
    if j < i {
        assert(entries@[j].id != id);
    } else if i < j {
        assert(entries@[i].id != id);
    }
}

} // verus!
