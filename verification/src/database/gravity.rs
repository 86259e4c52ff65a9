//! The gravity database: its lists, and what it decides of a domain.

use crate::blocking::pattern;
use crate::database::queries::{
    compares, joined_with, join_with, sql_views, Clauses, ClausesView, SqlValue, SqlView,
};
use crate::text::{self, optional_str};
use vstd::prelude::*;

verus! {

broadcast use vstd::string::group_string_axioms;

/// An entry of the domain lists. The type is 0 for allow, 1 for deny, 2 for allow by pattern and 3
/// for deny by pattern.
#[derive(Debug, Clone)]
pub struct DomainListEntry {
    pub id: i32,
    pub domain_type: i32,
    pub domain: String,
    pub enabled: bool,
    pub date_added: i64,
    pub date_modified: i64,
    pub comment: Option<String>,
}

/// A group.
#[derive(Debug, Clone)]
pub struct GroupEntry {
    pub id: i32,
    pub name: String,
    pub description: Option<String>,
    pub enabled: bool,
    pub date_added: i64,
    pub date_modified: i64,
}

/// A client.
#[derive(Debug, Clone)]
pub struct ClientEntry {
    pub id: i32,
    pub ip: String,
    pub comment: Option<String>,
    pub date_added: i64,
    pub date_modified: i64,
}

/// A blocklist.
#[derive(Debug, Clone)]
pub struct AdlistEntry {
    pub id: i32,
    pub address: String,
    pub comment: Option<String>,
    pub enabled: bool,
    pub date_added: i64,
    pub date_modified: i64,
}

/// What the database decides of a domain.
#[derive(Debug, Clone, PartialEq)]
pub enum BlockingDecision {
    NotBlocked,
    /// Allowed, whatever else holds of it.
    Allowlisted,
    /// Blocked by name, by the list of the given name.
    Blocked(String),
    /// Blocked by the pattern with the given number.
    BlockedByRegex(i32),
}

impl BlockingDecision {
    /// Whether the domain is blocked.
    pub fn is_blocked(&self) -> (r: bool)
        ensures
            r == (*self is Blocked || *self is BlockedByRegex),
    {
        match self {
            BlockingDecision::Blocked(_) => true,
            BlockingDecision::BlockedByRegex(_) => true,
            BlockingDecision::NotBlocked => false,
            BlockingDecision::Allowlisted => false,
        }
    }
}

/// A question to the database.
#[derive(Debug, Clone, Copy, PartialEq, Eq, Structural)]
pub enum Check {
    /// Is the domain on the allow list?
    Allow,
    /// Is it on the deny list?
    Deny,
    /// Does a pattern of the allow list match it?
    AllowPattern,
    /// Does a pattern of the deny list match it?
    DenyPattern,
    /// Is it among the domains of the blocklists?
    Gravity,
}

/// What follows from an answer.
pub enum Step {
    /// The next question.
    Ask(Check),
    /// The decision.
    Decided(BlockingDecision),
}

/// What follows from the answer to a question. Where the answer is yes, `id` is the number of the
/// pattern that matched, if a pattern was asked for.
pub open spec fn step_after(check: Check, yes: bool, id: i32, s: Step) -> bool {
    match check {
        Check::Allow => if yes {
            s matches Step::Decided(BlockingDecision::Allowlisted)
        } else {
            s matches Step::Ask(Check::Deny)
        },
        Check::Deny => if yes {
            s matches Step::Decided(BlockingDecision::Blocked(l)) && l@ == "exact"@
        } else {
            s matches Step::Ask(Check::AllowPattern)
        },
        Check::AllowPattern => if yes {
            s matches Step::Decided(BlockingDecision::Allowlisted)
        } else {
            s matches Step::Ask(Check::DenyPattern)
        },
        Check::DenyPattern => if yes {
            s matches Step::Decided(BlockingDecision::BlockedByRegex(n)) && n == id
        } else {
            s matches Step::Ask(Check::Gravity)
        },
        Check::Gravity => if yes {
            s matches Step::Decided(BlockingDecision::Blocked(l)) && l@ == "gravity"@
        } else {
            s matches Step::Decided(BlockingDecision::NotBlocked)
        },
    }
}

/// The next step of a check: the first question is `Check::Allow`.
pub fn next_step(check: Check, yes: bool, id: i32) -> (r: Step)
    ensures
        step_after(check, yes, id, r),
{
    match check {
        Check::Allow => if yes {
            Step::Decided(BlockingDecision::Allowlisted)
        } else {
            Step::Ask(Check::Deny)
        },
        Check::Deny => if yes {
            Step::Decided(BlockingDecision::Blocked("exact".to_owned()))
        } else {
            Step::Ask(Check::AllowPattern)
        },
        Check::AllowPattern => if yes {
            Step::Decided(BlockingDecision::Allowlisted)
        } else {
            Step::Ask(Check::DenyPattern)
        },
        Check::DenyPattern => if yes {
            Step::Decided(BlockingDecision::BlockedByRegex(id))
        } else {
            Step::Ask(Check::Gravity)
        },
        Check::Gravity => if yes {
            Step::Decided(BlockingDecision::Blocked("gravity".to_owned()))
        } else {
            Step::Decided(BlockingDecision::NotBlocked)
        },
    }
}

/// The pattern has a meaning: it is not a single slash.
pub open spec fn meaningful(p: Seq<char>) -> bool {
    text::trimmed(p) != seq!['/']
}

/// A pattern of the database matches a domain. `/x/` is the regular expression `x`; `*.s` stands for
/// `s` and what lies below it; `*s` for whatever ends with `s`; anything else for itself.
pub open spec fn pattern_matches(domain: Seq<char>, p: Seq<char>) -> bool {
    let t = text::trimmed(p);
    let n = t.len() as int;
    if n == 0 {
        false
    } else if t[0] == '/' && t[n - 1] == '/' {
        let body = t.subrange(1, n - 1);
        pattern::regex_compiles(body) && pattern::regex_accepts(body, domain)
    } else if n >= 2 && t[0] == '*' && t[1] == '.' {
        domain == t.subrange(2, n) || t.subrange(1, n).is_suffix_of(domain)
    } else if t[0] == '*' {
        t.subrange(1, n).is_suffix_of(domain)
    } else {
        domain == t
    }
}

/// Whether a pattern of the database matches a domain.
pub fn domain_matches_pattern(domain: &str, p: &str) -> (r: bool)
    requires
        meaningful(p@),
    ensures
        r == pattern_matches(domain@, p@),
{
    let c = text::chars_of(p);
    let t: &[char] = text::trim(c.as_slice());
    let n: usize = t.len();
    if n == 0 {
        return false;
    }
    let d = text::chars_of(domain);
    if t[0] == '/' && t[n - 1] == '/' {
        proof {
            if n == 1 {
                assert(t@ =~= seq!['/']);
            }
        }
        let body = text::string_of(&t[1..n - 1]);
        match pattern::compile(body.as_str()) {
            Some(re) => pattern::is_match(&re, domain),
            None => false,
        }
    } else if n >= 2 && t[0] == '*' && t[1] == '.' {
        text::same(d.as_slice(), &t[2..n]) || text::ends_with(d.as_slice(), &t[1..n])
    } else if t[0] == '*' {
        text::ends_with(d.as_slice(), &t[1..n])
    } else {
        text::same(d.as_slice(), t)
    }
}

/// A pattern of the deny list and its number.
#[derive(Debug, Clone)]
pub struct NumberedPattern {
    pub id: i32,
    pub pattern: String,
}

/// Whether one of the patterns matches a domain.
pub fn matches_any_pattern(domain: &str, patterns: &Vec<String>) -> (r: bool)
    requires
        forall|i: int| 0 <= i < patterns@.len() ==> meaningful((#[trigger] patterns@[i])@),
    ensures
        r == exists|i: int|
            0 <= i < patterns@.len() && pattern_matches(domain@, (#[trigger] patterns@[i])@),
{
    let mut i: usize = 0;
    while i < patterns.len()
        invariant
            i <= patterns@.len(),
            forall|k: int| 0 <= k < patterns@.len() ==> meaningful((#[trigger] patterns@[k])@),
            forall|k: int| 0 <= k < i ==> !pattern_matches(domain@, (#[trigger] patterns@[k])@),
        decreases patterns@.len() - i,
    {
        if domain_matches_pattern(domain, patterns[i].as_str()) {
            return true;
        }
        i += 1;
    }
    false
}

/// The number of the first pattern that matches a domain.
pub fn first_matching_pattern(domain: &str, patterns: &Vec<NumberedPattern>) -> (r: Option<i32>)
    requires
        forall|i: int|
            0 <= i < patterns@.len() ==> meaningful((#[trigger] patterns@[i]).pattern@),
    ensures
        match r {
            Some(id) => exists|i: int|
                {
                    &&& 0 <= i < patterns@.len()
                    &&& (#[trigger] patterns@[i]).id == id
                    &&& pattern_matches(domain@, patterns@[i].pattern@)
                    &&& forall|k: int|
                        0 <= k < i ==> !pattern_matches(
                            domain@,
                            (#[trigger] patterns@[k]).pattern@,
                        )
                },
            None => forall|k: int|
                0 <= k < patterns@.len() ==> !pattern_matches(
                    domain@,
                    (#[trigger] patterns@[k]).pattern@,
                ),
        },
{
    let mut i: usize = 0;
    while i < patterns.len()
        invariant
            i <= patterns@.len(),
            forall|k: int|
                0 <= k < patterns@.len() ==> meaningful((#[trigger] patterns@[k]).pattern@),
            forall|k: int|
                0 <= k < i ==> !pattern_matches(domain@, (#[trigger] patterns@[k]).pattern@),
        decreases patterns@.len() - i,
    {
        if domain_matches_pattern(domain, patterns[i].pattern.as_str()) {
            return Some(patterns[i].id);
        }
        i += 1;
    }
    None
}

/// The offset of a page of the blocklists' domains: pages are counted from one.
pub fn page_offset(page: usize, limit: usize) -> (r: usize)
    requires
        page > 0 ==> (page - 1) * limit <= usize::MAX,
    ensures
        r == (if page == 0 {
            0
        } else {
            (page - 1) * limit
        }),
{
    if page == 0 {
        assert(0 * limit == 0);
        0
    } else {
        (page - 1) * limit
    }
}

/// The assignments of an update of a domain list entry at the time `now`: the fields that are given,
/// and the time of the change where there is one.
pub open spec fn update_clauses(
    domain: Option<Seq<char>>,
    enabled: Option<bool>,
    comment: Option<Seq<char>>,
    now: i64,
) -> ClausesView {
    let c0 = ClausesView { texts: Seq::empty(), values: Seq::empty() };
    let c1 = match domain {
        Some(d) => c0.with("domain = "@, SqlView::Text(d)),
        None => c0,
    };
    let c2 = match enabled {
        Some(e) => c1.with(
            "enabled = "@,
            SqlView::Int(
                if e {
                    1
                } else {
                    0
                },
            ),
        ),
        None => c1,
    };
    let c3 = match comment {
        Some(c) => c2.with("comment = "@, SqlView::Text(c)),
        None => c2,
    };
    if c3.texts.len() == 0 {
        c3
    } else {
        c3.with("date_modified = "@, SqlView::Int(now))
    }
}

/// The statement of an update. The number of the entry is bound to the last place.
pub open spec fn update_statement(c: ClausesView) -> Seq<char> {
    "UPDATE domainlist SET "@ + joined_with(c.texts, ", "@) + " WHERE id = "@
        + crate::database::queries::place(c.values.len() + 1)
}

/// The statement and the values that update a domain list entry at the time `now`; none where no
/// field is given.
pub fn update_domainlist(
    id: i32,
    domain: Option<&str>,
    enabled: Option<bool>,
    comment: Option<&str>,
    now: i64,
) -> (r: Option<(String, Vec<SqlValue>)>)
    ensures
        r is None <==> domain is None && enabled is None && comment is None,
        r matches Some(u) ==> {
            let c = update_clauses(optional_str(domain), enabled, optional_str(comment), now);
            &&& u.0@ == update_statement(c)
            &&& sql_views(u.1@) == c.values.push(SqlView::Int(id as i64))
        },
{
    let mut c = Clauses::new();
    match domain {
        Some(d) => {
            c.add("domain = ", SqlValue::Text(d.to_owned()));
        },
        None => {},
    }
    match enabled {
        Some(e) => {
            let n: i64 = if e {
                1
            } else {
                0
            };
            c.add("enabled = ", SqlValue::Int(n));
        },
        None => {},
    }
    match comment {
        Some(t) => {
            c.add("comment = ", SqlValue::Text(t.to_owned()));
        },
        None => {},
    }
    assert(c.texts@.len() == c@.texts.len());
    if c.texts.len() == 0 {
        return None;
    }
    c.add("date_modified = ", SqlValue::Int(now));
    assert(c.values@.len() == c@.values.len());
    let mut sql = "UPDATE domainlist SET ".to_owned();
    let joined = join_with(&c.texts, ", ");
    let s = text::string_of(joined.as_slice());
    sql.append(s.as_str());
    sql.append(" WHERE id = ");
    let mut p: Vec<char> = Vec::new();
    crate::database::queries::push_place(&mut p, c.values.len() + 1);
    let s1 = text::string_of(p.as_slice());
    assert(s1@ =~= crate::database::queries::place(c@.values.len() + 1));
    sql.append(s1.as_str());
    let ghost before = c.values@;
    let mut values = c.values;
    values.push(SqlValue::Int(id as i64));
    assert(sql_views(values@) =~= sql_views(before).push(SqlView::Int(id as i64)));
    Some((sql, values))
}

/// What the database decides of a domain, question by question. The allow list goes first, then the
/// deny list, then the patterns of the allow list, those of the deny list, and at last the
/// blocklists. The first yes decides; a domain that no list has is not blocked.
pub proof fn law_first_yes_decides(
    allow: bool,
    deny: bool,
    allow_pattern: bool,
    deny_pattern: bool,
    gravity: bool,
    id: i32,
    a: Step,
    b: Step,
    c: Step,
    d: Step,
    e: Step,
)
    requires
        next_step.ensures((Check::Allow, allow, id), a),
        a matches Step::Ask(q) ==> next_step.ensures((q, deny, id), b),
        a is Ask && b is Ask ==> next_step.ensures((b->Ask_0, allow_pattern, id), c),
        a is Ask && b is Ask && c is Ask ==> next_step.ensures((c->Ask_0, deny_pattern, id), d),
        a is Ask && b is Ask && c is Ask && d is Ask ==> next_step.ensures(
            (d->Ask_0, gravity, id),
            e,
        ),
    ensures
        ({
            let last = if a is Decided {
                a
            } else if b is Decided {
                b
            } else if c is Decided {
                c
            } else if d is Decided {
                d
            } else {
                e
            };
            &&& a is Ask ==> a->Ask_0 == Check::Deny
            &&& a is Ask && b is Ask ==> b->Ask_0 == Check::AllowPattern
            &&& a is Ask && b is Ask && c is Ask ==> c->Ask_0 == Check::DenyPattern
            &&& a is Ask && b is Ask && c is Ask && d is Ask ==> d->Ask_0 == Check::Gravity
            &&& last is Decided
            &&& allow || (!deny && allow_pattern) ==> last->Decided_0 is Allowlisted
            &&& !allow && deny ==> last->Decided_0 is Blocked
            &&& !allow && !deny && !allow_pattern && deny_pattern ==> last->Decided_0
                == BlockingDecision::BlockedByRegex(id)
            &&& !allow && !deny && !allow_pattern && !deny_pattern && gravity
                ==> last->Decided_0 is Blocked
            &&& !allow && !deny && !allow_pattern && !deny_pattern && !gravity
                ==> last->Decided_0 is NotBlocked
        }),
{
}

/// What the patterns of the database match. `*.` in front of a domain matches the domain and whatever
/// ends with a dot and the domain; `*` in front of a text matches whatever ends with the text; what
/// stands between slashes is a regular expression; any other text matches itself alone.
pub proof fn law_patterns_match_by_their_shape(domain: Seq<char>, body: Seq<char>)
    requires
        pattern::is_bare(body),
    ensures
        pattern_matches(domain, seq!['*', '.'] + body) <==> domain == body || (seq!['.']
            + body).is_suffix_of(domain),
        body[0] != '.' ==> (pattern_matches(domain, seq!['*'] + body) <==> body.is_suffix_of(
            domain,
        )),
        pattern_matches(domain, seq!['/'] + body + seq!['/']) <==> pattern::regex_compiles(body)
            && pattern::regex_accepts(body, domain),
        body[0] != '*' && body[0] != '/' ==> (pattern_matches(domain, body) <==> domain == body),
        !pattern_matches(domain, Seq::empty()),
{
    let dotted = seq!['*', '.'] + body;
    assert(dotted.last() == body.last());
    pattern::lemma_bare_is_trimmed(dotted);
    assert(dotted.subrange(2, dotted.len() as int) =~= body);
    assert(dotted.subrange(1, dotted.len() as int) =~= seq!['.'] + body);
    let starred = seq!['*'] + body;
    assert(starred.last() == body.last());
    pattern::lemma_bare_is_trimmed(starred);
    assert(starred.subrange(1, starred.len() as int) =~= body);
    let slashed = seq!['/'] + body + seq!['/'];
    assert(slashed.last() == '/');
    pattern::lemma_bare_is_trimmed(slashed);
    assert(slashed.subrange(1, slashed.len() - 1) =~= body);
    pattern::lemma_bare_is_trimmed(body);
}

/// Pages follow each other without gap or overlap, from the first row on.
pub proof fn law_pages_follow_each_other(page: usize, limit: usize, r: usize, next: usize)
    requires
        1 <= page < usize::MAX,
        page * limit <= usize::MAX,
        page_offset.ensures((page, limit), r),
        page_offset.ensures(((page + 1) as usize, limit), next),
    ensures
        page == 1 ==> r == 0,
        next == r + limit,
{
    assert((page - 1) * limit + limit == page * limit) by (nonlinear_arith);
}

/// An update assigns just what is given, and the time of the change: each column gets the value of its
/// own field, and the entry is found by its number, which is bound to the last place.
pub proof fn law_update_assigns_what_is_given(
    domain: Option<Seq<char>>,
    enabled: Option<bool>,
    comment: Option<Seq<char>>,
    now: i64,
)
    requires
        domain is Some || enabled is Some || comment is Some,
    ensures
        ({
            let c = update_clauses(domain, enabled, comment, now);
            let one = |yes: bool|
                if yes {
                    1int
                } else {
                    0
                };
            let n = one(domain is Some) + one(enabled is Some) + one(comment is Some) + 1;
            &&& c.texts.len() == n && c.values.len() == n
            &&& domain is Some ==> compares(c, "domain = "@, SqlView::Text(domain->0))
            &&& enabled == Some(true) ==> compares(c, "enabled = "@, SqlView::Int(1))
            &&& enabled == Some(false) ==> compares(c, "enabled = "@, SqlView::Int(0))
            &&& comment is Some ==> compares(c, "comment = "@, SqlView::Text(comment->0))
            &&& compares(c, "date_modified = "@, SqlView::Int(now))
            &&& "UPDATE domainlist SET "@.is_prefix_of(update_statement(c))
            &&& (" WHERE id = "@ + seq!['?', (49 + n) as u8 as char]).is_suffix_of(
                update_statement(c),
            )
        }),
{
    let c = update_clauses(domain, enabled, comment, now);
    let a = if domain is Some {
        1int
    } else {
        0
    };
    let b = if enabled is Some {
        a + 1
    } else {
        a
    };
    let d = if comment is Some {
        b + 1
    } else {
        b
    };
    if domain is Some {
        assert(c.texts[0] =~= "domain = "@ + seq!['?', 49u8 as char]);
    }
    if enabled is Some {
        assert(c.texts[a] =~= "enabled = "@ + seq!['?', (49 + a) as u8 as char]);
    }
    if comment is Some {
        assert(c.texts[b] =~= "comment = "@ + seq!['?', (49 + b) as u8 as char]);
    }
    assert(c.texts[d] =~= "date_modified = "@ + seq!['?', (49 + d) as u8 as char]);
    let u = update_statement(c);
    let head = "UPDATE domainlist SET "@;
    assert(u.subrange(0, head.len() as int) =~= head);
    let tail = " WHERE id = "@ + seq!['?', (49 + d + 1) as u8 as char];
    assert(u.subrange(u.len() - tail.len(), u.len() as int) =~= tail);
}

} // verus!
