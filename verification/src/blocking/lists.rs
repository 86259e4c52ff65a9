//! The lists that decide, and the engine that holds them.

use crate::blocking::domain_set::{self, members};
use crate::blocking::pattern;
use crate::blocking::wildcard::{self, WildcardMatcher};
use crate::config::BlockingMode;
use crate::text;
use dashmap::DashSet;
use regex::Regex;
use vstd::prelude::*;

verus! {

broadcast use vstd::string::group_string_axioms;

/// What is decided of a domain.
#[derive(Debug, Clone, PartialEq)]
pub enum BlockingDecision {
    NotBlocked,
    Allowlisted,
    /// Blocked by the list of the given name.
    Blocked(String),
    BlockedByRegex,
}

/// The contents of a `BlockingDecision`.
pub enum DecisionView {
    NotBlocked,
    Allowlisted,
    Blocked(Seq<char>),
    BlockedByRegex,
}

impl View for BlockingDecision {
    type V = DecisionView;

    open spec fn view(&self) -> DecisionView {
        match *self {
            BlockingDecision::NotBlocked => DecisionView::NotBlocked,
            BlockingDecision::Allowlisted => DecisionView::Allowlisted,
            BlockingDecision::Blocked(list) => DecisionView::Blocked(list@),
            BlockingDecision::BlockedByRegex => DecisionView::BlockedByRegex,
        }
    }
}

impl DecisionView {
    /// The domain is blocked.
    pub open spec fn blocks(self) -> bool {
        self is Blocked || self is BlockedByRegex
    }
}

impl BlockingDecision {
    /// Whether the domain is blocked.
    pub fn is_blocked(&self) -> (r: bool)
        ensures
            r == self@.blocks(),
    {
        match self {
            BlockingDecision::Blocked(_) => true,
            BlockingDecision::BlockedByRegex => true,
            BlockingDecision::NotBlocked => false,
            BlockingDecision::Allowlisted => false,
        }
    }
}

/// The rows of the gravity database that the lists are made of.
pub struct GravityRows {
    /// Domains of the allow list.
    pub allow: Vec<String>,
    /// Domains of the deny list.
    pub deny: Vec<String>,
    /// Patterns of the allow list.
    pub allow_patterns: Vec<String>,
    /// Patterns of the deny list.
    pub deny_patterns: Vec<String>,
    /// Domains and wildcard entries of the blocklists.
    pub gravity: Vec<String>,
    pub adlist_count: usize,
}

/// The lists in memory.
pub struct BlockingLists {
    allowlist_exact: DashSet<String>,
    denylist_exact: DashSet<String>,
    allowlist_regex: Vec<Regex>,
    denylist_regex: Vec<Regex>,
    gravity_exact: DashSet<String>,
    wildcard_deny: WildcardMatcher,
    total_blocked: usize,
    adlist_count: usize,
}

/// The contents of `BlockingLists`. Patterns stand as the regular expressions that they stand for.
#[verifier::ext_equal]
pub struct ListsView {
    pub allow: Set<Seq<char>>,
    pub deny: Set<Seq<char>>,
    pub allow_regexes: Seq<Seq<char>>,
    pub deny_regexes: Seq<Seq<char>>,
    pub gravity: Set<Seq<char>>,
    pub wildcards: Set<Seq<char>>,
    pub total: usize,
    pub adlists: usize,
}

impl View for BlockingLists {
    type V = ListsView;

    closed spec fn view(&self) -> ListsView {
        ListsView {
            allow: members(self.allowlist_exact),
            deny: members(self.denylist_exact),
            allow_regexes: pattern::regex_texts(self.allowlist_regex@),
            deny_regexes: pattern::regex_texts(self.denylist_regex@),
            gravity: members(self.gravity_exact),
            wildcards: self.wildcard_deny.keys(),
            total: self.total_blocked,
            adlists: self.adlist_count,
        }
    }
}

impl ListsView {
    /// The total counts at least the domains of the two exact lists that block.
    pub open spec fn well_formed(self) -> bool {
        &&& self.deny.finite()
        &&& self.gravity.finite()
        &&& self.deny.len() + self.gravity.len() <= self.total
    }
}

/// A domain as the lists are asked for it: without dots at its end, in lowercase.
pub open spec fn asked(domain: Seq<char>) -> Seq<char> {
    text::lowercase(text::trimmed_end_of(domain, '.'))
}

/// What the lists decide of a domain. The allow list goes first, by name and by pattern; then the
/// deny list by name, the blocklists by name and by wildcard, and the deny list by pattern.
pub open spec fn decision(v: ListsView, domain: Seq<char>) -> DecisionView {
    let d = asked(domain);
    if v.allow.contains(d) || pattern::any_accepts(v.allow_regexes, d) {
        DecisionView::Allowlisted
    } else if v.deny.contains(d) {
        DecisionView::Blocked("exact"@)
    } else if v.gravity.contains(d) {
        DecisionView::Blocked("gravity"@)
    } else if wildcard::matches_some(v.wildcards, d) {
        DecisionView::Blocked("wildcard"@)
    } else if pattern::any_accepts(v.deny_regexes, d) {
        DecisionView::BlockedByRegex
    } else {
        DecisionView::NotBlocked
    }
}

/// The rows in lowercase.
pub open spec fn lower_set(rows: Seq<Seq<char>>) -> Set<Seq<char>>
    decreases rows.len(),
{
    if rows.len() == 0 {
        Set::empty()
    } else {
        lower_set(rows.drop_last()).insert(text::lowercase(rows.last()))
    }
}

/// The row is a wildcard entry.
pub open spec fn is_wildcard(row: Seq<char>) -> bool {
    let t = text::trimmed(row);
    t.len() > 0 && t[0] == '*'
}

/// The rows that are domains, trimmed and in lowercase.
pub open spec fn exact_rows(rows: Seq<Seq<char>>) -> Set<Seq<char>>
    decreases rows.len(),
{
    if rows.len() == 0 {
        Set::empty()
    } else if is_wildcard(rows.last()) {
        exact_rows(rows.drop_last())
    } else {
        exact_rows(rows.drop_last()).insert(text::lowercase(text::trimmed(rows.last())))
    }
}

/// The rows that are wildcard entries, as a matcher stores them.
pub open spec fn wildcard_rows(rows: Seq<Seq<char>>) -> Set<Seq<char>>
    decreases rows.len(),
{
    if rows.len() == 0 {
        Set::empty()
    } else if is_wildcard(rows.last()) {
        wildcard_rows(rows.drop_last()).insert(wildcard::wildcard_key(text::trimmed(rows.last())))
    } else {
        wildcard_rows(rows.drop_last())
    }
}

/// How many rows are wildcard entries.
pub open spec fn wildcard_count(rows: Seq<Seq<char>>) -> nat
    decreases rows.len(),
{
    if rows.len() == 0 {
        0
    } else if is_wildcard(rows.last()) {
        wildcard_count(rows.drop_last()) + 1
    } else {
        wildcard_count(rows.drop_last())
    }
}

/// The lists that the rows make. The total counts what blocks: the domains of the deny list and of
/// the blocklists, each wildcard entry, and the patterns of the deny list.
pub open spec fn loaded(rows: GravityRows) -> ListsView {
    let gravity = text::texts(rows.gravity@);
    let deny = lower_set(text::texts(rows.deny@));
    let deny_regexes = pattern::compiled(text::texts(rows.deny_patterns@));
    ListsView {
        allow: lower_set(text::texts(rows.allow@)),
        deny,
        allow_regexes: pattern::compiled(text::texts(rows.allow_patterns@)),
        deny_regexes,
        gravity: exact_rows(gravity),
        wildcards: wildcard_rows(gravity),
        total: (exact_rows(gravity).len() + deny.len() + wildcard_count(gravity)
            + deny_regexes.len()) as usize,
        adlists: rows.adlist_count,
    }
}

/// The set of the rows in lowercase.
fn load_lower(rows: &Vec<String>) -> (r: DashSet<String>)
    ensures
        members(r) == lower_set(text::texts(rows@)),
        members(r).finite(),
        members(r).len() <= rows@.len(),
{
    let mut set = domain_set::new_set();
    let ghost all = text::texts(rows@);
    let mut i: usize = 0;
    while i < rows.len()
        invariant
            i <= rows@.len(),
            all == text::texts(rows@),
            members(set) == lower_set(all.subrange(0, i as int)),
            members(set).finite(),
            members(set).len() <= i,
        decreases rows@.len() - i,
    {
        proof {
            let longer = all.subrange(0, i + 1);
            assert(longer.drop_last() =~= all.subrange(0, i as int));
            assert(longer.last() == rows@[i as int]@);
        }
        let small = text::to_lowercase(rows[i].as_str());
        domain_set::insert(&mut set, small);
        i += 1;
    }
    assert(all.subrange(0, all.len() as int) =~= all);
    set
}

impl BlockingLists {
    /// Makes the lists of the rows of the gravity database.
    pub fn load(rows: &GravityRows) -> (r: BlockingLists)
        requires
            rows.gravity@.len() + rows.deny@.len() + rows.deny_patterns@.len() <= usize::MAX,
        ensures
            r@ == loaded(*rows),
            r@.well_formed(),
    {
        let allowlist_exact = load_lower(&rows.allow);
        let denylist_exact = load_lower(&rows.deny);
        let allowlist_regex = pattern::compile_all(&rows.allow_patterns);
        let denylist_regex = pattern::compile_all(&rows.deny_patterns);
        let mut gravity_exact = domain_set::new_set();
        let mut wildcard_deny = WildcardMatcher::default();
        let mut wildcards: usize = 0;
        let ghost all = text::texts(rows.gravity@);
        let mut i: usize = 0;
        while i < rows.gravity.len()
            invariant
                i <= rows.gravity@.len(),
                all == text::texts(rows.gravity@),
                members(gravity_exact) == exact_rows(all.subrange(0, i as int)),
                members(gravity_exact).finite(),
                wildcard_deny.keys() == wildcard_rows(all.subrange(0, i as int)),
                wildcards == wildcard_count(all.subrange(0, i as int)),
                members(gravity_exact).len() + wildcards <= i,
            decreases rows.gravity@.len() - i,
        {
            proof {
                let longer = all.subrange(0, i + 1);
                assert(longer.drop_last() =~= all.subrange(0, i as int));
                assert(longer.last() == rows.gravity@[i as int]@);
            }
            let c = text::chars_of(rows.gravity[i].as_str());
            let t: &[char] = text::trim(c.as_slice());
            let entry = text::string_of(t);
            if t.len() > 0 && t[0] == '*' {
                wildcard_deny.insert(entry.as_str());
                wildcards += 1;
            } else {
                let small = text::to_lowercase(entry.as_str());
                domain_set::insert(&mut gravity_exact, small);
            }
            i += 1;
        }
        assert(all.subrange(0, all.len() as int) =~= all);
        proof {
            assert(pattern::regex_texts(denylist_regex@).len() == denylist_regex@.len());
        }
        let total_blocked: usize = domain_set::len(&gravity_exact) + domain_set::len(
            &denylist_exact,
        ) + wildcards + denylist_regex.len();
        BlockingLists {
            allowlist_exact,
            denylist_exact,
            allowlist_regex,
            denylist_regex,
            gravity_exact,
            wildcard_deny,
            total_blocked,
            adlist_count: rows.adlist_count,
        }
    }

    /// Compiles a pattern; none where it stands for nothing or does not compile.
    pub fn compile_regex(pattern: &str) -> (r: Option<Regex>)
        ensures
            r is Some <==> pattern::usable(pattern@),
            r is Some ==> pattern::regex_text(r->0) == pattern::pattern_regex(pattern@)->0,
    {
        pattern::compile_pattern(pattern)
    }

    /// Decides of a domain.
    pub fn check_blocked(&self, domain: &str) -> (r: BlockingDecision)
        ensures
            r@ == decision(self@, domain@),
            text::all_ascii(text::trimmed_end_of(domain@, '.')) ==> asked(domain@)
                == text::ascii_lower(text::trimmed_end_of(domain@, '.')),
    {
        let c = text::chars_of(domain);
        let bare = text::string_of(text::trim_end_of(c.as_slice(), '.'));
        let d = text::to_lowercase(bare.as_str());
        if domain_set::contains(&self.allowlist_exact, d.as_str()) {
            return BlockingDecision::Allowlisted;
        }
        if pattern::any_match(&self.allowlist_regex, d.as_str()) {
            return BlockingDecision::Allowlisted;
        }
        if domain_set::contains(&self.denylist_exact, d.as_str()) {
            return BlockingDecision::Blocked("exact".to_owned());
        }
        if domain_set::contains(&self.gravity_exact, d.as_str()) {
            return BlockingDecision::Blocked("gravity".to_owned());
        }
        if self.wildcard_deny.is_match(d.as_str()) {
            return BlockingDecision::Blocked("wildcard".to_owned());
        }
        if pattern::any_match(&self.denylist_regex, d.as_str()) {
            return BlockingDecision::BlockedByRegex;
        }
        BlockingDecision::NotBlocked
    }

    /// How much blocks: domains, wildcard entries and patterns.
    pub fn total_blocked(&self) -> (r: u64)
        ensures
            r == self@.total,
    {
        self.total_blocked as u64
    }

    /// How many blocklists there are.
    pub fn adlist_count(&self) -> (r: u64)
        ensures
            r == self@.adlists,
    {
        self.adlist_count as u64
    }
}

/// An entry as it is added: trimmed and in lowercase.
pub open spec fn added(domain: Seq<char>) -> Seq<char> {
    text::lowercase(text::trimmed(domain))
}

/// The domain, trimmed and in lowercase.
fn normal_form(domain: &str) -> (r: String)
    ensures
        r@ == added(domain@),
{
    let c = text::chars_of(domain);
    let bare = text::string_of(text::trim(c.as_slice()));
    text::to_lowercase(bare.as_str())
}

/// The domain, trimmed.
fn bare_form(domain: &str) -> (r: String)
    ensures
        r@ == text::trimmed(domain@),
{
    let c = text::chars_of(domain);
    text::string_of(text::trim(c.as_slice()))
}

/// A count after something was added, or not.
pub open spec fn counted_up(total: usize, changed: bool) -> usize {
    if changed {
        (total + 1) as usize
    } else {
        total
    }
}

/// A count after something was removed, or not; it never goes below zero.
pub open spec fn counted_down(total: usize, changed: bool) -> usize {
    if changed && total > 0 {
        (total - 1) as usize
    } else {
        total
    }
}

/// The lists after a domain was put on the allow list.
pub open spec fn allow_added(v: ListsView, domain: Seq<char>) -> ListsView {
    ListsView { allow: v.allow.insert(added(domain)), ..v }
}

/// The lists after a domain was taken off the allow list.
pub open spec fn allow_removed(v: ListsView, domain: Seq<char>) -> ListsView {
    ListsView { allow: v.allow.remove(text::trimmed(domain)), ..v }
}

/// The lists after a domain was put on the deny list.
pub open spec fn deny_added(v: ListsView, domain: Seq<char>) -> ListsView {
    ListsView {
        deny: v.deny.insert(added(domain)),
        total: counted_up(v.total, !v.deny.contains(added(domain))),
        ..v
    }
}

/// The lists after a domain was taken off the deny list.
pub open spec fn deny_removed(v: ListsView, domain: Seq<char>) -> ListsView {
    ListsView {
        deny: v.deny.remove(text::trimmed(domain)),
        total: counted_down(v.total, v.deny.contains(text::trimmed(domain))),
        ..v
    }
}

/// The lists after a domain was put among those of the blocklists.
pub open spec fn gravity_added(v: ListsView, domain: Seq<char>) -> ListsView {
    ListsView {
        gravity: v.gravity.insert(added(domain)),
        total: counted_up(v.total, !v.gravity.contains(added(domain))),
        ..v
    }
}

/// The lists after a domain was taken from those of the blocklists.
pub open spec fn gravity_removed(v: ListsView, domain: Seq<char>) -> ListsView {
    ListsView {
        gravity: v.gravity.remove(text::trimmed(domain)),
        total: counted_down(v.total, v.gravity.contains(text::trimmed(domain))),
        ..v
    }
}

impl BlockingLists {
    /// Puts a domain on the allow list.
    pub fn add_allow_domain(&mut self, domain: &str)
        ensures
            final(self)@ == allow_added(old(self)@, domain@),
            old(self)@.well_formed() ==> final(self)@.well_formed(),
    {
        let d = normal_form(domain);
        domain_set::insert(&mut self.allowlist_exact, d);
        assert(self@ =~= allow_added(old(self)@, domain@));
    }

    /// Takes a domain off the allow list. The entry that is removed is the domain as it is given,
    /// apart from white space round it.
    pub fn remove_allow_domain(&mut self, domain: &str)
        ensures
            final(self)@ == allow_removed(old(self)@, domain@),
            old(self)@.well_formed() ==> final(self)@.well_formed(),
    {
        let d = bare_form(domain);
        domain_set::remove(&mut self.allowlist_exact, d.as_str());
        assert(self@ =~= allow_removed(old(self)@, domain@));
    }

    /// Puts a domain on the deny list.
    pub fn add_deny_domain(&mut self, domain: &str)
        requires
            old(self)@.total < usize::MAX,
        ensures
            final(self)@ == deny_added(old(self)@, domain@),
            old(self)@.well_formed() ==> final(self)@.well_formed(),
    {
        let d = normal_form(domain);
        if domain_set::insert(&mut self.denylist_exact, d) {
            self.total_blocked += 1;
        }
        assert(self@ =~= deny_added(old(self)@, domain@));
    }

    /// Takes a domain off the deny list. The entry that is removed is the domain as it is given,
    /// apart from white space round it.
    pub fn remove_deny_domain(&mut self, domain: &str)
        ensures
            final(self)@ == deny_removed(old(self)@, domain@),
            old(self)@.well_formed() ==> final(self)@.well_formed(),
    {
        let d = bare_form(domain);
        if domain_set::remove(&mut self.denylist_exact, d.as_str()) {
            self.total_blocked = self.total_blocked.saturating_sub(1);
        }
        assert(self@ =~= deny_removed(old(self)@, domain@));
    }

    /// Puts a domain among those of the blocklists.
    pub fn add_gravity_domain(&mut self, domain: &str)
        requires
            old(self)@.total < usize::MAX,
        ensures
            final(self)@ == gravity_added(old(self)@, domain@),
            old(self)@.well_formed() ==> final(self)@.well_formed(),
    {
        let d = normal_form(domain);
        if domain_set::insert(&mut self.gravity_exact, d) {
            self.total_blocked += 1;
        }
        assert(self@ =~= gravity_added(old(self)@, domain@));
    }

    /// Takes a domain from those of the blocklists. The entry that is removed is the domain as it
    /// is given, apart from white space round it.
    pub fn remove_gravity_domain(&mut self, domain: &str)
        ensures
            final(self)@ == gravity_removed(old(self)@, domain@),
            old(self)@.well_formed() ==> final(self)@.well_formed(),
    {
        let d = bare_form(domain);
        if domain_set::remove(&mut self.gravity_exact, d.as_str()) {
            self.total_blocked = self.total_blocked.saturating_sub(1);
        }
        assert(self@ =~= gravity_removed(old(self)@, domain@));
    }
}

/// Numbers about the lists.
#[derive(Debug, Clone, Copy, PartialEq, Eq, Structural)]
pub struct BlockingStats {
    pub total_blocked: u64,
    pub adlist_count: u64,
    pub blocking_mode: BlockingMode,
}

/// The lists and the mode they are used with.
pub struct BlockingEngine {
    pub lists: BlockingLists,
    pub mode: BlockingMode,
}

impl BlockingEngine {
    /// An engine with the lists that the rows make.
    pub fn load(rows: &GravityRows, mode: BlockingMode) -> (r: BlockingEngine)
        requires
            rows.gravity@.len() + rows.deny@.len() + rows.deny_patterns@.len() <= usize::MAX,
        ensures
            r.lists@ == loaded(*rows),
            r.lists@.well_formed(),
            r.mode == mode,
    {
        BlockingEngine { lists: BlockingLists::load(rows), mode }
    }

    /// Replaces the lists by those that the rows make which were read from the gravity database;
    /// the mode stays. Where they could not be read, nothing is changed, and the error comes back.
    pub fn reload<E>(&mut self, read: Result<GravityRows, E>) -> (r: Result<(), E>)
        requires
            read matches Ok(rows) ==> rows.gravity@.len() + rows.deny@.len()
                + rows.deny_patterns@.len() <= usize::MAX,
        ensures
            match read {
                Ok(rows) => r is Ok && final(self).lists@ == loaded(rows)
                    && final(self).lists@.well_formed() && final(self).mode == old(self).mode,
                Err(e) => r == Err::<(), E>(e) && *final(self) == *old(self),
            },
    {
        match read {
            Ok(rows) => {
                self.lists = BlockingLists::load(&rows);
                Ok(())
            },
            Err(e) => Err(e),
        }
    }

    /// The mode.
    pub fn mode(&self) -> (r: BlockingMode)
        ensures
            r == self.mode,
    {
        self.mode
    }

    /// Changes the mode; the lists stay.
    pub fn set_mode(&mut self, mode: BlockingMode)
        ensures
            final(self).mode == mode,
            final(self).lists == old(self).lists,
    {
        self.mode = mode;
    }

    /// Whether a domain is blocked.
    pub fn is_blocked(&self, domain: &str) -> (r: bool)
        ensures
            r == decision(self.lists@, domain@).blocks(),
    {
        self.lists.check_blocked(domain).is_blocked()
    }

    /// Numbers about the lists.
    pub fn stats(&self) -> (r: BlockingStats)
        ensures
            r.total_blocked == self.lists@.total,
            r.adlist_count == self.lists@.adlists,
            r.blocking_mode == self.mode,
    {
        BlockingStats {
            total_blocked: self.lists.total_blocked(),
            adlist_count: self.lists.adlist_count(),
            blocking_mode: self.mode,
        }
    }

    /// The lists themselves.
    pub fn lists(&mut self) -> (r: &mut BlockingLists)
        ensures
            *r == old(self).lists,
            final(self).lists == *final(r),
            final(self).mode == old(self).mode,
    {
        &mut self.lists
    }
}

} // verus!
