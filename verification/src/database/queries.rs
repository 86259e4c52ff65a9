//! The query log: what is stored of a query, and how the log is searched.

use crate::database::status::QueryStatus;
use crate::text;
use vstd::prelude::*;

verus! {

broadcast use vstd::string::group_string_axioms;

/// A name and how often it occurs.
#[derive(Debug, Clone)]
pub struct CountedItem {
    pub name: String,
    pub count: i64,
}

/// A record type and how often it occurs.
#[derive(Debug, Clone)]
pub struct QueryTypeCount {
    pub query_type: i32,
    pub count: i64,
}

/// A query that was blocked.
#[derive(Debug, Clone)]
pub struct BlockedQuery {
    pub timestamp: i64,
    pub domain: String,
    pub client: Option<String>,
    pub forward: Option<String>,
    pub query_type: i32,
}

/// A session of the API.
#[derive(Debug, Clone)]
pub struct Session {
    pub sid: String,
    pub created_at: i64,
    pub expires_at: i64,
    pub last_used_at: Option<i64>,
    pub client_ip: Option<String>,
    pub user_agent: Option<String>,
    pub data: Option<Vec<u8>>,
}

/// What is searched for in the query log.
#[derive(Debug, Clone)]
pub struct QueryFilter {
    pub domain: Option<String>,
    pub client: Option<String>,
    pub status: Option<i32>,
    pub from: Option<i64>,
    pub until: Option<i64>,
    pub limit: i64,
    pub offset: i64,
}

impl Default for QueryFilter {
    /// No condition, and a page of no rows.
    fn default() -> (r: Self)
        ensures
            r.domain is None && r.client is None && r.status is None,
            r.from is None && r.until is None,
            r.limit == 0 && r.offset == 0,
    {
        QueryFilter {
            domain: None,
            client: None,
            status: None,
            from: None,
            until: None,
            limit: 0,
            offset: 0,
        }
    }
}

/// A row of the query log.
#[derive(Debug, Clone)]
pub struct QueryLogEntry {
    pub id: i64,
    pub timestamp: i64,
    pub domain: String,
    pub client: Option<String>,
    pub forward: Option<String>,
    pub query_type: i32,
    pub status: i32,
    pub reply_time: Option<i64>,
    pub elapsed_ms: Option<i64>,
}

/// The counts of ten minutes.
#[derive(Debug, Clone, Copy, PartialEq, Eq, Structural)]
pub struct HistorySlot {
    pub timestamp: i64,
    pub total: i64,
    pub blocked: i64,
    pub cached: i64,
    pub forwarded: i64,
}

/// The counts of the whole log.
#[derive(Debug, Clone, Copy, PartialEq, Eq, Structural)]
pub struct QueryStats {
    pub total: i64,
    pub blocked: i64,
    pub cached: i64,
    pub forwarded: i64,
}

/// A query as it is stored.
#[derive(Debug, Clone)]
pub struct StoredQuery {
    pub timestamp: i64,
    pub domain: String,
    pub client: Option<String>,
    pub forward: Option<String>,
    pub query_type: i32,
    pub status: QueryStatus,
    pub reply_time: Option<i64>,
    pub reply_type: i32,
    pub flags: i32,
    pub interface: Option<String>,
    pub elapsed_ms: Option<i64>,
    pub adlist_id: Option<i32>,
    pub cache_id: Option<i32>,
    pub regex_id: Option<i32>,
    pub upstream_id: Option<i32>,
}

/// A value that is bound to a place of a statement.
#[derive(Debug, Clone, PartialEq)]
pub enum SqlValue {
    Text(String),
    Int(i64),
}

/// The contents of an `SqlValue`.
pub enum SqlView {
    Text(Seq<char>),
    Int(i64),
}

impl View for SqlValue {
    type V = SqlView;

    open spec fn view(&self) -> SqlView {
        match *self {
            SqlValue::Text(s) => SqlView::Text(s@),
            SqlValue::Int(n) => SqlView::Int(n),
        }
    }
}

/// The contents of each value.
pub open spec fn sql_views(v: Seq<SqlValue>) -> Seq<SqlView> {
    v.map_values(|x: SqlValue| x@)
}

/// The place with the number `n`, which is at most nine, in a statement.
pub open spec fn place(n: nat) -> Seq<char> {
    seq!['?', (48 + n) as u8 as char]
}

/// A text that matches whatever holds `s`.
pub open spec fn like(s: Seq<char>) -> Seq<char> {
    seq!['%'] + s + seq!['%']
}

/// The pattern for `LIKE` that matches whatever holds the text.
pub fn like_pattern(s: &str) -> (r: String)
    ensures
        r@ == like(s@),
{
    let mut out = String::new();
    out.push('%');
    out.append(s);
    out.push('%');
    assert(out@ =~= like(s@));
    out
}

/// Conditions with the values that are bound to their places.
#[verifier::ext_equal]
pub struct ClausesView {
    pub texts: Seq<Seq<char>>,
    pub values: Seq<SqlView>,
}

impl ClausesView {
    /// One more condition: `head`, and behind it the next place, to which `value` is bound.
    pub open spec fn with(self, head: Seq<char>, value: SqlView) -> ClausesView {
        ClausesView {
            texts: self.texts.push(head + place(self.values.len() + 1)),
            values: self.values.push(value),
        }
    }
}

/// Conditions while they are collected.
pub struct Clauses {
    pub texts: Vec<Vec<char>>,
    pub values: Vec<SqlValue>,
}

impl View for Clauses {
    type V = ClausesView;

    open spec fn view(&self) -> ClausesView {
        ClausesView {
            texts: self.texts@.map_values(|t: Vec<char>| t@),
            values: sql_views(self.values@),
        }
    }
}

/// Adds the place with the number `n`.
pub fn push_place(out: &mut Vec<char>, n: usize)
    requires
        1 <= n <= 9,
    ensures
        final(out)@ == old(out)@ + place(n as nat),
{
    out.push('?');
    let d: u8 = 48 + n as u8;
    out.push(d as char);
    assert(out@ =~= old(out)@ + place(n as nat));
}

impl Clauses {
    /// No condition.
    pub fn new() -> (r: Clauses)
        ensures
            r@ == (ClausesView { texts: Seq::empty(), values: Seq::empty() }),
    {
        let r = Clauses { texts: Vec::new(), values: Vec::new() };
        assert(r@ =~= (ClausesView { texts: Seq::empty(), values: Seq::empty() }));
        r
    }

    /// Adds a condition.
    pub fn add(&mut self, head: &str, value: SqlValue)
        requires
            old(self)@.values.len() < 9,
        ensures
            final(self)@ == old(self)@.with(head@, value@),
    {
        let mut t = text::chars_of(head);
        push_place(&mut t, self.values.len() + 1);
        self.texts.push(t);
        self.values.push(value);
        assert(self@ =~= old(self)@.with(head@, value@));
    }
}

/// The parts with `sep` between them.
pub open spec fn joined_with(parts: Seq<Seq<char>>, sep: Seq<char>) -> Seq<char>
    decreases parts.len(),
{
    if parts.len() == 0 {
        Seq::empty()
    } else if parts.len() == 1 {
        parts[0]
    } else {
        joined_with(parts.drop_last(), sep) + sep + parts.last()
    }
}

/// Joins the parts.
pub fn join_with(parts: &Vec<Vec<char>>, sep: &str) -> (r: Vec<char>)
    ensures
        r@ == joined_with(parts@.map_values(|t: Vec<char>| t@), sep@),
{
    let ghost all = parts@.map_values(|t: Vec<char>| t@);
    let sep_chars = text::chars_of(sep);
    let mut out: Vec<char> = Vec::new();
    let mut i: usize = 0;
    while i < parts.len()
        invariant
            i <= parts@.len(),
            sep_chars@ == sep@,
            all == parts@.map_values(|t: Vec<char>| t@),
            out@ == joined_with(all.subrange(0, i as int), sep@),
        decreases parts@.len() - i,
    {
        proof {
            let longer = all.subrange(0, i + 1);
            assert(longer.drop_last() =~= all.subrange(0, i as int));
            assert(longer.last() == parts@[i as int]@);
        }
        if i > 0 {
            let mut s = text::copy_chars(sep_chars.as_slice());
            out.append(&mut s);
        }
        let mut p = text::copy_chars(parts[i].as_slice());
        out.append(&mut p);
        assert(out@ =~= joined_with(all.subrange(0, i + 1), sep@));
        i += 1;
    }
    assert(all.subrange(0, all.len() as int) =~= all);
    out
}

/// The conditions of a filter, in a fixed order.
pub open spec fn filter_clauses(f: QueryFilter) -> ClausesView {
    let c0 = ClausesView { texts: Seq::empty(), values: Seq::empty() };
    let c1 = match f.domain {
        Some(d) => c0.with("dbl_domain LIKE "@, SqlView::Text(like(d@))),
        None => c0,
    };
    let c2 = match f.client {
        Some(c) => c1.with("dbl_client LIKE "@, SqlView::Text(like(c@))),
        None => c1,
    };
    let c3 = match f.status {
        Some(s) => c2.with("dbl_status = "@, SqlView::Int(s as i64)),
        None => c2,
    };
    let c4 = match f.from {
        Some(t) => c3.with("timestamp >= "@, SqlView::Int(t)),
        None => c3,
    };
    match f.until {
        Some(t) => c4.with("timestamp <= "@, SqlView::Int(t)),
        None => c4,
    }
}

/// The clause that a filter puts behind the table; nothing where there is no condition.
pub open spec fn where_clause(c: ClausesView) -> Seq<char> {
    if c.texts.len() == 0 {
        Seq::empty()
    } else {
        "WHERE "@ + joined_with(c.texts, " AND "@)
    }
}

/// The statement that counts the rows of a filter.
pub open spec fn count_statement(c: ClausesView) -> Seq<char> {
    "SELECT COUNT(*) FROM queries "@ + where_clause(c)
}

/// The statement that fetches a page of the rows of a filter, the newest first. The size of the
/// page and its offset are bound to two places more.
pub open spec fn page_statement(c: ClausesView) -> Seq<char> {
    "SELECT id, timestamp, dbl_domain, dbl_client, dbl_forward, dbl_type, dbl_status, dbl_reply_time, dbl_elapsed_ms FROM queries "@
        + where_clause(c) + " ORDER BY timestamp DESC LIMIT "@ + place(c.values.len() + 1)
        + " OFFSET "@ + place(c.values.len() + 2)
}

/// A search of the query log: two statements with the values that are bound to their places.
pub struct LogSearch {
    pub count_sql: String,
    pub count_values: Vec<SqlValue>,
    pub page_sql: String,
    pub page_values: Vec<SqlValue>,
}

fn copy_value(v: &SqlValue) -> (r: SqlValue)
    ensures
        r@ == v@,
{
    match v {
        SqlValue::Text(s) => SqlValue::Text(s.clone()),
        SqlValue::Int(n) => SqlValue::Int(*n),
    }
}

fn copy_values(v: &Vec<SqlValue>) -> (r: Vec<SqlValue>)
    ensures
        sql_views(r@) == sql_views(v@),
{
    let mut out: Vec<SqlValue> = Vec::new();
    let mut i: usize = 0;
    while i < v.len()
        invariant
            i <= v@.len(),
            out@.len() == i,
            forall|k: int| 0 <= k < i ==> (#[trigger] out@[k])@ == v@[k]@,
        decreases v@.len() - i,
    {
        out.push(copy_value(&v[i]));
        i += 1;
    }
    assert(sql_views(out@) =~= sql_views(v@));
    out
}

/// Collects the conditions of a filter.
fn collect_clauses(f: &QueryFilter) -> (r: Clauses)
    ensures
        r@ == filter_clauses(*f),
        r@.texts.len() == r@.values.len() <= 5,
{
    let mut c = Clauses::new();
    match &f.domain {
        Some(d) => {
            c.add("dbl_domain LIKE ", SqlValue::Text(like_pattern(d.as_str())));
        },
        None => {},
    }
    match &f.client {
        Some(d) => {
            c.add("dbl_client LIKE ", SqlValue::Text(like_pattern(d.as_str())));
        },
        None => {},
    }
    match f.status {
        Some(s) => {
            c.add("dbl_status = ", SqlValue::Int(s as i64));
        },
        None => {},
    }
    match f.from {
        Some(t) => {
            c.add("timestamp >= ", SqlValue::Int(t));
        },
        None => {},
    }
    match f.until {
        Some(t) => {
            c.add("timestamp <= ", SqlValue::Int(t));
        },
        None => {},
    }
    c
}

/// The statements and values that search the query log by a filter.
pub fn search_log(filter: &QueryFilter) -> (r: LogSearch)
    ensures
        r.count_sql@ == count_statement(filter_clauses(*filter)),
        sql_views(r.count_values@) == filter_clauses(*filter).values,
        r.page_sql@ == page_statement(filter_clauses(*filter)),
        sql_views(r.page_values@) == filter_clauses(*filter).values.push(
            SqlView::Int(filter.limit),
        ).push(SqlView::Int(filter.offset)),
        // A page holds the newest rows first.
        exists|front: Seq<char>, n: nat|
            r.page_sql@ == #[trigger] (front + (" ORDER BY timestamp DESC LIMIT "@ + place(n)
                + " OFFSET "@ + place(n + 1))) && n == r.count_values@.len() + 1,
{
    let c = collect_clauses(filter);
    let mut clause = String::new();
    if c.texts.len() > 0 {
        clause.append("WHERE ");
        let joined = join_with(&c.texts, " AND ");
        let s = text::string_of(joined.as_slice());
        clause.append(s.as_str());
    }
    assert(clause@ =~= where_clause(c@));
    let mut count_sql = "SELECT COUNT(*) FROM queries ".to_owned();
    count_sql.append(clause.as_str());
    let mut page_sql =
        "SELECT id, timestamp, dbl_domain, dbl_client, dbl_forward, dbl_type, dbl_status, dbl_reply_time, dbl_elapsed_ms FROM queries ".to_owned();
    page_sql.append(clause.as_str());
    page_sql.append(" ORDER BY timestamp DESC LIMIT ");
    let mut p1: Vec<char> = Vec::new();
    push_place(&mut p1, c.values.len() + 1);
    let s1 = text::string_of(p1.as_slice());
    page_sql.append(s1.as_str());
    page_sql.append(" OFFSET ");
    let mut p2: Vec<char> = Vec::new();
    push_place(&mut p2, c.values.len() + 2);
    let s2 = text::string_of(p2.as_slice());
    page_sql.append(s2.as_str());
    assert(s1@ =~= place(c@.values.len() + 1));
    assert(s2@ =~= place(c@.values.len() + 2));
    let count_values = copy_values(&c.values);
    let mut page_values = copy_values(&c.values);
    let ghost before = page_values@;
    page_values.push(SqlValue::Int(filter.limit));
    page_values.push(SqlValue::Int(filter.offset));
    assert(sql_views(page_values@) =~= sql_views(before).push(SqlView::Int(filter.limit)).push(
        SqlView::Int(filter.offset),
    ));
    proof {
        let front =
            "SELECT id, timestamp, dbl_domain, dbl_client, dbl_forward, dbl_type, dbl_status, dbl_reply_time, dbl_elapsed_ms FROM queries "@
            + clause@;
        let n: nat = c@.values.len() + 1;
        assert(sql_views(count_values@).len() == count_values@.len());
        assert(page_sql@ =~= front + (" ORDER BY timestamp DESC LIMIT "@ + place(n) + " OFFSET "@
            + place(n + 1)));
    }
    LogSearch { count_sql, count_values, page_sql, page_values }
}

/// The time before which queries are deleted.
pub fn retention_cutoff(now: i64, max_age_secs: i64) -> (r: i64)
    requires
        i64::MIN <= now - max_age_secs <= i64::MAX,
    ensures
        r == now - max_age_secs,
{
    now - max_age_secs
}

/// The time at which the day of a time starts, in universal time.
pub fn start_of_day(now: i64) -> (r: i64)
    requires
        crate::clock::is_timestamp(now as int),
    ensures
        r <= now < r + 86_400,
        r % 86_400 == 0,
{
    now - now % 86_400
}

/// Every condition of a filter has its own value, and a search binds just these, then the size of
/// the page and its offset.
pub proof fn law_search_binds_every_condition(f: QueryFilter)
    ensures
        filter_clauses(f).texts.len() == filter_clauses(f).values.len(),
        filter_clauses(f).texts.len() <= 5,
        forall|i: int|
            0 <= i < filter_clauses(f).texts.len() ==> place((i + 1) as nat).is_suffix_of(
                #[trigger] filter_clauses(f).texts[i],
            ),
{
    let c = filter_clauses(f);
    assert forall|i: int| 0 <= i < c.texts.len() implies place((i + 1) as nat).is_suffix_of(
        #[trigger] c.texts[i],
    ) by {
        let t = c.texts[i];
        assert(t.subrange(t.len() - 2, t.len() as int) =~= place((i + 1) as nat));
    }
}

/// Whether old queries are to be deleted: only where queries are logged and are kept for a limited
/// time.
pub fn retention_due(query_log: bool, retention: u64) -> (r: bool)
    ensures
        r == (query_log && retention > 0),
{
    query_log && retention > 0
}

/// How many of the five conditions a filter has.
pub open spec fn conditions(f: QueryFilter) -> nat {
    (if f.domain is Some {
        1nat
    } else {
        0
    }) + (if f.client is Some {
        1nat
    } else {
        0
    }) + (if f.status is Some {
        1nat
    } else {
        0
    }) + (if f.from is Some {
        1nat
    } else {
        0
    }) + (if f.until is Some {
        1nat
    } else {
        0
    })
}

/// The statement for a page of the log ends with its order, its size and its offset: from the newest
/// to the oldest, so many rows as are bound to the place behind those of the conditions, from the
/// row on that is bound to the last place. It reads the rows of the log from the same table, under
/// the same conditions, as the statement that counts them.
pub proof fn law_page_is_the_newest_first(f: QueryFilter)
    ensures
        ({
            let n = conditions(f);
            let c = filter_clauses(f);
            let tail = " ORDER BY timestamp DESC LIMIT ?"@ + seq![(48 + n + 1) as u8 as char]
                + " OFFSET ?"@ + seq![(48 + n + 2) as u8 as char];
            let head =
                "SELECT id, timestamp, dbl_domain, dbl_client, dbl_forward, dbl_type, dbl_status, dbl_reply_time, dbl_elapsed_ms FROM queries "@;
            &&& c.values.len() == n
            &&& tail.is_suffix_of(page_statement(c))
            &&& head.is_prefix_of(page_statement(c))
            &&& "SELECT COUNT(*) FROM queries "@.is_prefix_of(count_statement(c))
            &&& page_statement(c).subrange(
                head.len() as int,
                page_statement(c).len() - tail.len(),
            ) == count_statement(c).subrange(
                "SELECT COUNT(*) FROM queries "@.len() as int,
                count_statement(c).len() as int,
            )
        }),
{
    let n = conditions(f);
    let c = filter_clauses(f);
    reveal_strlit(" ORDER BY timestamp DESC LIMIT ");
    reveal_strlit(" ORDER BY timestamp DESC LIMIT ?");
    reveal_strlit(" OFFSET ");
    reveal_strlit(" OFFSET ?");
    let tail = " ORDER BY timestamp DESC LIMIT ?"@ + seq![(48 + n + 1) as u8 as char]
        + " OFFSET ?"@ + seq![(48 + n + 2) as u8 as char];
    let same = " ORDER BY timestamp DESC LIMIT "@ + place(n + 1) + " OFFSET "@ + place(n + 2);
    assert(" ORDER BY timestamp DESC LIMIT ?"@ =~= " ORDER BY timestamp DESC LIMIT "@.push('?'));
    assert(" OFFSET ?"@ =~= " OFFSET "@.push('?'));
    assert(tail =~= same);
    let p = page_statement(c);
    let head =
        "SELECT id, timestamp, dbl_domain, dbl_client, dbl_forward, dbl_type, dbl_status, dbl_reply_time, dbl_elapsed_ms FROM queries "@;
    assert(p =~= head + where_clause(c) + tail);
    assert(p.subrange(p.len() - tail.len(), p.len() as int) =~= tail);
    assert(p.subrange(0, head.len() as int) =~= head);
    let k = count_statement(c);
    let front = "SELECT COUNT(*) FROM queries "@;
    assert(k.subrange(0, front.len() as int) =~= front);
    assert(p.subrange(head.len() as int, p.len() - tail.len()) =~= where_clause(c));
    assert(k.subrange(front.len() as int, k.len() as int) =~= where_clause(c));
}

/// One of the conditions compares with the value: it is the text `head` and the number of the place
/// that the value is bound to.
pub open spec fn compares(c: ClausesView, head: Seq<char>, value: SqlView) -> bool {
    exists|i: int|
        0 <= i < c.texts.len() && #[trigger] c.texts[i] == head + seq!['?', (49 + i) as u8 as char]
            && c.values[i] == value
}

/// What a search asks for. Each field of a filter that is given is one condition of the statement,
/// with the field's value bound to its place: the domain and the client hold the given text, the
/// status is the given one, the time is not before the one and not after the other. Fields that are
/// not given are no conditions, and there are no others.
pub proof fn law_search_asks_for_what_is_given(f: QueryFilter)
    ensures
        ({
            let c = filter_clauses(f);
            &&& c.texts.len() == conditions(f)
            &&& f.domain is Some ==> compares(
                c,
                "dbl_domain LIKE "@,
                SqlView::Text(seq!['%'] + f.domain->0@ + seq!['%']),
            )
            &&& f.client is Some ==> compares(
                c,
                "dbl_client LIKE "@,
                SqlView::Text(seq!['%'] + f.client->0@ + seq!['%']),
            )
            &&& f.status is Some ==> compares(c, "dbl_status = "@, SqlView::Int(f.status->0 as i64))
            &&& f.from is Some ==> compares(c, "timestamp >= "@, SqlView::Int(f.from->0))
            &&& f.until is Some ==> compares(c, "timestamp <= "@, SqlView::Int(f.until->0))
        }),
{
    let c = filter_clauses(f);
    let a = if f.domain is Some {
        1int
    } else {
        0
    };
    let b = if f.client is Some {
        a + 1
    } else {
        a
    };
    let d = if f.status is Some {
        b + 1
    } else {
        b
    };
    let e = if f.from is Some {
        d + 1
    } else {
        d
    };
    if f.domain is Some {
        assert(c.texts[0] =~= "dbl_domain LIKE "@ + seq!['?', 49u8 as char]);
    }
    if f.client is Some {
        assert(c.texts[a] =~= "dbl_client LIKE "@ + seq!['?', (49 + a) as u8 as char]);
    }
    if f.status is Some {
        assert(c.texts[b] =~= "dbl_status = "@ + seq!['?', (49 + b) as u8 as char]);
    }
    if f.from is Some {
        assert(c.texts[d] =~= "timestamp >= "@ + seq!['?', (49 + d) as u8 as char]);
    }
    if f.until is Some {
        assert(c.texts[e] =~= "timestamp <= "@ + seq!['?', (49 + e) as u8 as char]);
    }
}

/// All conditions have to hold: behind the table stands nothing where there is none, else `WHERE` and
/// the first, and behind it `AND` and the next, one by one.
pub proof fn law_every_condition_has_to_hold(c: ClausesView, text: Seq<char>, value: SqlView)
    ensures
        c.texts.len() == 0 ==> where_clause(c).len() == 0,
        ({
            let more = ClausesView { texts: c.texts.push(text), values: c.values.push(value) };
            if c.texts.len() == 0 {
                where_clause(more) == "WHERE "@ + text
            } else {
                where_clause(more) == where_clause(c) + " AND "@ + text
            }
        }),
{
    let more = ClausesView { texts: c.texts.push(text), values: c.values.push(value) };
    assert(more.texts.drop_last() =~= c.texts);
    if c.texts.len() > 0 {
        assert(where_clause(more) =~= where_clause(c) + " AND "@ + text);
    }
}

/// Old queries are those older than they are kept for: the cutoff lies so many seconds before now. They
/// are deleted only where queries are logged and kept for a limited time. A day starts at a multiple of
/// 86400 seconds.
pub proof fn law_old_queries_are_deleted(
    now: i64,
    age: i64,
    cutoff: i64,
    query_log: bool,
    retention: u64,
    due: bool,
    start: i64,
)
    requires
        retention_cutoff.ensures((now, age), cutoff),
        retention_due.ensures((query_log, retention), due),
        start_of_day.ensures((now,), start),
    ensures
        cutoff + age == now,
        due <==> query_log && retention != 0,
        start % 86_400 == 0,
        start <= now < start + 86_400,
{
}

} // verus!
