//! What holds of the lists across their operations.

use crate::blocking::lists::{
    added, allow_added, allow_removed, asked, decision, deny_added, deny_removed, exact_rows,
    gravity_added, gravity_removed, is_wildcard, loaded, lower_set, wildcard_count, wildcard_rows,
    DecisionView, GravityRows, ListsView,
};
use crate::blocking::pattern;
use crate::blocking::wildcard::{
    at_or_below, domain_key, entry_domain, law_wildcard_matches_below, lemma_keys_decide,
    matches_some, wildcard_key,
};
use crate::text;
use vstd::prelude::*;

verus! {

/// A domain on the allow list is never blocked, whatever else holds of it.
pub proof fn law_allow_list_wins(v: ListsView, domain: Seq<char>)
    requires
        v.allow.contains(asked(domain)),
    ensures
        decision(v, domain) == DecisionView::Allowlisted,
        !decision(v, domain).blocks(),
{
}

/// A domain that was put on the allow list is not blocked.
pub proof fn law_allowed_domain_is_not_blocked(v: ListsView, domain: Seq<char>, query: Seq<char>)
    requires
        asked(query) == added(domain),
    ensures
        decision(allow_added(v, domain), query) == DecisionView::Allowlisted,
{
}

/// A domain that was put on the deny list is blocked by name, unless it is allowed.
pub proof fn law_denied_domain_is_blocked(v: ListsView, domain: Seq<char>, query: Seq<char>)
    requires
        asked(query) == added(domain),
        decision(v, query) != DecisionView::Allowlisted,
    ensures
        decision(deny_added(v, domain), query) == DecisionView::Blocked("exact"@),
{
}

/// A domain that was put among those of the blocklists is blocked, unless it is allowed.
pub proof fn law_gravity_domain_is_blocked(v: ListsView, domain: Seq<char>, query: Seq<char>)
    requires
        asked(query) == added(domain),
        decision(v, query) != DecisionView::Allowlisted,
    ensures
        decision(gravity_added(v, domain), query).blocks(),
{
}

/// Adding a domain to a list, or removing it, changes what is decided of no other domain.
pub proof fn law_other_domains_are_unaffected(v: ListsView, domain: Seq<char>, query: Seq<char>)
    requires
        asked(query) != added(domain),
        asked(query) != text::trimmed(domain),
    ensures
        decision(allow_added(v, domain), query) == decision(v, query),
        decision(allow_removed(v, domain), query) == decision(v, query),
        decision(deny_added(v, domain), query) == decision(v, query),
        decision(deny_removed(v, domain), query) == decision(v, query),
        decision(gravity_added(v, domain), query) == decision(v, query),
        decision(gravity_removed(v, domain), query) == decision(v, query),
{
}

/// Removing a domain undoes adding it, where it was not there before and is given in lowercase;
/// removing it once more changes nothing. The total is part of the lists.
pub proof fn law_removing_undoes_adding(v: ListsView, domain: Seq<char>)
    requires
        added(domain) == text::trimmed(domain),
        v.total < usize::MAX,
    ensures
        !v.allow.contains(added(domain)) ==> allow_removed(allow_added(v, domain), domain) == v,
        !v.deny.contains(added(domain)) ==> deny_removed(deny_added(v, domain), domain) == v,
        !v.gravity.contains(added(domain)) ==> gravity_removed(gravity_added(v, domain), domain)
            == v,
        !v.allow.contains(added(domain)) ==> allow_removed(v, domain) == v,
        !v.deny.contains(added(domain)) ==> deny_removed(v, domain) == v,
        !v.gravity.contains(added(domain)) ==> gravity_removed(v, domain) == v,
{
    let d = added(domain);
    if !v.allow.contains(d) {
        assert(allow_removed(allow_added(v, domain), domain) =~= v);
        assert(allow_removed(v, domain) =~= v);
    }
    if !v.deny.contains(d) {
        assert(deny_removed(deny_added(v, domain), domain) =~= v);
        assert(deny_removed(v, domain) =~= v);
    }
    if !v.gravity.contains(d) {
        assert(gravity_removed(gravity_added(v, domain), domain) =~= v);
        assert(gravity_removed(v, domain) =~= v);
    }
}

/// The total follows the lists: it grows by one with each new entry and shrinks by one with each
/// entry that goes.
pub proof fn law_total_follows_the_lists(v: ListsView, domain: Seq<char>)
    requires
        v.well_formed(),
        v.total < usize::MAX,
    ensures
        deny_added(v, domain).total - v.total == deny_added(v, domain).deny.len() - v.deny.len(),
        v.total - deny_removed(v, domain).total == v.deny.len() - deny_removed(
            v,
            domain,
        ).deny.len(),
        gravity_added(v, domain).total - v.total == gravity_added(v, domain).gravity.len()
            - v.gravity.len(),
        v.total - gravity_removed(v, domain).total == v.gravity.len() - gravity_removed(
            v,
            domain,
        ).gravity.len(),
{
    let t = text::trimmed(domain);
    if v.deny.contains(t) {
        assert(v.deny.len() > 0) by {
            if v.deny.len() == 0 {
                assert(v.deny =~= Set::empty());
            }
        }
    }
    if v.gravity.contains(t) {
        assert(v.gravity.len() > 0) by {
            if v.gravity.len() == 0 {
                assert(v.gravity =~= Set::empty());
            }
        }
    }
}

/// A dot at the end of a domain changes nothing.
pub proof fn law_trailing_dot_is_ignored(v: ListsView, domain: Seq<char>)
    ensures
        decision(v, domain.push('.')) == decision(v, domain),
{
    assert(domain.push('.').drop_last() =~= domain);
    assert(text::trimmed_end_of(domain.push('.'), '.') == text::trimmed_end_of(domain, '.'));
}

/// A wildcard entry blocks its domain and everything below it, unless it is allowed.
pub proof fn law_wildcard_blocks_below(v: ListsView, suffix: Seq<char>, query: Seq<char>)
    requires
        v.wildcards.contains(domain_key(suffix)),
        at_or_below(asked(query), suffix),
        decision(v, query) != DecisionView::Allowlisted,
    ensures
        decision(v, query).blocks(),
{
    law_wildcard_matches_below(v.wildcards, suffix, asked(query));
}

proof fn lemma_rows(rows: Seq<Seq<char>>, i: int)
    requires
        0 <= i < rows.len(),
    ensures
        !is_wildcard(rows[i]) ==> exact_rows(rows).contains(
            text::lowercase(text::trimmed(rows[i])),
        ),
        is_wildcard(rows[i]) ==> wildcard_rows(rows).contains(
            wildcard_key(text::trimmed(rows[i])),
        ),
    decreases rows.len(),
{
    if i < rows.len() - 1 {
        lemma_rows(rows.drop_last(), i);
    }
}

/// Every domain among the rows of the blocklists is blocked once the rows are loaded, unless it is
/// allowed; and every wildcard entry is stored.
pub proof fn law_loaded_rows_block(rows: GravityRows, i: int, query: Seq<char>)
    requires
        0 <= i < rows.gravity@.len(),
    ensures
        !is_wildcard(rows.gravity@[i]@) && asked(query) == text::lowercase(
            text::trimmed(rows.gravity@[i]@),
        ) && decision(loaded(rows), query) != DecisionView::Allowlisted ==> decision(
            loaded(rows),
            query,
        ).blocks(),
        is_wildcard(rows.gravity@[i]@) ==> loaded(rows).wildcards.contains(
            wildcard_key(text::trimmed(rows.gravity@[i]@)),
        ),
{
    let all = text::texts(rows.gravity@);
    assert(all[i] == rows.gravity@[i]@);
    lemma_rows(all, i);
}

proof fn lemma_lower_set(rows: Seq<Seq<char>>, d: Seq<char>)
    ensures
        lower_set(rows).contains(d) <==> exists|i: int|
            0 <= i < rows.len() && text::lowercase(#[trigger] rows[i]) == d,
    decreases rows.len(),
{
    if rows.len() > 0 {
        let shorter = rows.drop_last();
        lemma_lower_set(shorter, d);
        if exists|i: int| 0 <= i < shorter.len() && text::lowercase(#[trigger] shorter[i]) == d {
            let i = choose|i: int|
                0 <= i < shorter.len() && text::lowercase(#[trigger] shorter[i]) == d;
            assert(text::lowercase(rows[i]) == d);
        }
        if exists|i: int| 0 <= i < rows.len() && text::lowercase(#[trigger] rows[i]) == d {
            let i = choose|i: int|
                0 <= i < rows.len() && text::lowercase(#[trigger] rows[i]) == d;
            if i < shorter.len() {
                assert(text::lowercase(shorter[i]) == d);
            }
        }
        assert(text::lowercase(rows[rows.len() - 1]) == text::lowercase(rows.last()));
    }
}

/// The row is the domain `d`.
pub open spec fn names(row: Seq<char>, d: Seq<char>) -> bool {
    !is_wildcard(row) && added(row) == d
}

proof fn lemma_exact_rows(rows: Seq<Seq<char>>, d: Seq<char>)
    ensures
        exact_rows(rows).contains(d) <==> exists|i: int|
            0 <= i < rows.len() && names(#[trigger] rows[i], d),
    decreases rows.len(),
{
    if rows.len() > 0 {
        let shorter = rows.drop_last();
        lemma_exact_rows(shorter, d);
        if exists|i: int| 0 <= i < shorter.len() && names(#[trigger] shorter[i], d) {
            let i = choose|i: int| 0 <= i < shorter.len() && names(#[trigger] shorter[i], d);
            assert(names(rows[i], d));
        }
        if exists|i: int| 0 <= i < rows.len() && names(#[trigger] rows[i], d) {
            let i = choose|i: int| 0 <= i < rows.len() && names(#[trigger] rows[i], d);
            if i < shorter.len() {
                assert(names(shorter[i], d));
            }
        }
        assert(names(rows[rows.len() - 1], d) == names(rows.last(), d));
    }
}

/// The row is a wildcard entry that is stored as `key`.
spec fn is_stored_as(row: Seq<char>, key: Seq<char>) -> bool {
    is_wildcard(row) && wildcard_key(text::trimmed(row)) == key
}

proof fn lemma_wildcard_rows(rows: Seq<Seq<char>>, key: Seq<char>)
    ensures
        wildcard_rows(rows).contains(key) <==> exists|i: int|
            0 <= i < rows.len() && is_stored_as(#[trigger] rows[i], key),
    decreases rows.len(),
{
    if rows.len() > 0 {
        let shorter = rows.drop_last();
        lemma_wildcard_rows(shorter, key);
        if exists|i: int| 0 <= i < shorter.len() && is_stored_as(#[trigger] shorter[i], key) {
            let i = choose|i: int| 0 <= i < shorter.len() && is_stored_as(#[trigger] shorter[i], key);
            assert(is_stored_as(rows[i], key));
        }
        if exists|i: int| 0 <= i < rows.len() && is_stored_as(#[trigger] rows[i], key) {
            let i = choose|i: int| 0 <= i < rows.len() && is_stored_as(#[trigger] rows[i], key);
            if i < shorter.len() {
                assert(is_stored_as(shorter[i], key));
            }
        }
        assert(is_stored_as(rows[rows.len() - 1], key) == is_stored_as(rows.last(), key));
    }
}

/// The row is a wildcard entry, and the domain `d` is its domain or lies below it.
pub open spec fn covers(row: Seq<char>, d: Seq<char>) -> bool {
    is_wildcard(row) && at_or_below(d, entry_domain(text::trimmed(row)))
}

proof fn lemma_wildcard_rows_decide(rows: Seq<Seq<char>>, d: Seq<char>)
    ensures
        matches_some(wildcard_rows(rows), d) <==> exists|i: int|
            0 <= i < rows.len() && covers(#[trigger] rows[i], d),
{
    let keys = wildcard_rows(rows);
    let entries = Set::new(
        |p: Seq<char>|
            exists|i: int|
                0 <= i < rows.len() && is_wildcard(#[trigger] rows[i]) && text::trimmed(rows[i])
                    == p,
    );
    assert forall|key: Seq<char>| #[trigger] keys.contains(key) <==> exists|p: Seq<char>|
        entries.contains(p) && #[trigger] wildcard_key(p) == key by {
        lemma_wildcard_rows(rows, key);
        if keys.contains(key) {
            let i = choose|i: int| 0 <= i < rows.len() && is_stored_as(#[trigger] rows[i], key);
            let p = text::trimmed(rows[i]);
            assert(entries.contains(p));
            assert(wildcard_key(p) == key);
        }
        if exists|p: Seq<char>| entries.contains(p) && #[trigger] wildcard_key(p) == key {
            let p = choose|p: Seq<char>| entries.contains(p) && #[trigger] wildcard_key(p) == key;
            let i = choose|i: int|
                0 <= i < rows.len() && is_wildcard(#[trigger] rows[i]) && text::trimmed(rows[i])
                    == p;
            assert(is_stored_as(rows[i], key));
        }
    }
    lemma_keys_decide(keys, entries, d);
    if matches_some(keys, d) {
        let p = choose|p: Seq<char>| #[trigger]
            entries.contains(p) && at_or_below(d, entry_domain(p));
        let i = choose|i: int|
            0 <= i < rows.len() && is_wildcard(#[trigger] rows[i]) && text::trimmed(rows[i]) == p;
        assert(covers(rows[i], d));
    }
    if exists|i: int| 0 <= i < rows.len() && covers(#[trigger] rows[i], d) {
        let i = choose|i: int| 0 <= i < rows.len() && covers(#[trigger] rows[i], d);
        assert(entries.contains(text::trimmed(rows[i])));
    }
}

/// One of the rows is the domain `d` in lowercase.
pub open spec fn one_is(rows: Seq<Seq<char>>, d: Seq<char>) -> bool {
    exists|i: int| 0 <= i < rows.len() && text::lowercase(#[trigger] rows[i]) == d
}

/// One of the rows of the blocklists is the domain `d`.
pub open spec fn one_names(rows: Seq<Seq<char>>, d: Seq<char>) -> bool {
    exists|i: int| 0 <= i < rows.len() && names(#[trigger] rows[i], d)
}

/// One of the rows of the blocklists is a wildcard entry for the domain `d` or one above it.
pub open spec fn one_covers(rows: Seq<Seq<char>>, d: Seq<char>) -> bool {
    exists|i: int| 0 <= i < rows.len() && covers(#[trigger] rows[i], d)
}

/// Once rows are loaded, or loaded anew, they alone decide. A domain is blocked exactly where no row
/// or pattern of the allow list has it and a row or pattern of the deny list, a row of the
/// blocklists or a wildcard entry does: new rows block from then on, rows that went do not any more,
/// and rows that stayed still do.
pub proof fn law_loaded_rows_decide(rows: GravityRows, query: Seq<char>)
    ensures
        ({
            let d = asked(query);
            let v = loaded(rows);
            let gravity = text::texts(rows.gravity@);
            let allows = one_is(text::texts(rows.allow@), d) || pattern::any_accepts(
                v.allow_regexes,
                d,
            );
            let denies = one_is(text::texts(rows.deny@), d) || pattern::any_accepts(
                v.deny_regexes,
                d,
            );
            decision(v, query).blocks() <==> !allows && (denies || one_names(gravity, d)
                || one_covers(gravity, d))
        }),
{
    let d = asked(query);
    let v = loaded(rows);
    let gravity = text::texts(rows.gravity@);
    lemma_lower_set(text::texts(rows.allow@), d);
    lemma_lower_set(text::texts(rows.deny@), d);
    lemma_exact_rows(gravity, d);
    lemma_wildcard_rows_decide(gravity, d);
    assert(v.allow.contains(d) == one_is(text::texts(rows.allow@), d));
    assert(v.deny.contains(d) == one_is(text::texts(rows.deny@), d));
    assert(v.gravity.contains(d) == one_names(gravity, d));
    assert(matches_some(v.wildcards, d) == one_covers(gravity, d));
}

/// A name is asked for as it is, in lowercase, but for dots at its end.
pub proof fn law_name_is_asked_for_as_it_is(name: Seq<char>, dots: Seq<char>)
    requires
        name.len() > 0 ==> name.last() != '.',
        forall|i: int| 0 <= i < dots.len() ==> #[trigger] dots[i] == '.',
    ensures
        asked(name + dots) == text::lowercase(name),
    decreases dots.len(),
{
    if dots.len() == 0 {
        assert(name + dots =~= name);
    } else {
        let fewer = dots.drop_last();
        assert forall|i: int| 0 <= i < fewer.len() implies #[trigger] fewer[i] == '.' by {
            assert(fewer[i] == dots[i]);
        }
        law_name_is_asked_for_as_it_is(name, fewer);
        assert((name + dots).drop_last() =~= name + fewer);
        assert((name + dots).last() == dots[dots.len() - 1]);
    }
}

/// A domain is put on a list as it is, in lowercase, but for white space in front of it; and it is taken
/// off as it is.
pub proof fn law_domain_is_listed_as_it_is(v: ListsView, lead: Seq<char>, name: Seq<char>)
    requires
        text::all_white(lead),
        name.len() > 0,
        !text::white_space(name[0]),
        !text::white_space(name[name.len() - 1]),
        v.total < usize::MAX,
    ensures
        allow_added(v, lead + name).allow == v.allow.insert(text::lowercase(name)),
        deny_added(v, lead + name).deny == v.deny.insert(text::lowercase(name)),
        gravity_added(v, lead + name).gravity == v.gravity.insert(text::lowercase(name)),
        allow_removed(v, lead + name).allow == v.allow.remove(name),
        deny_removed(v, lead + name).deny == v.deny.remove(name),
        gravity_removed(v, lead + name).gravity == v.gravity.remove(name),
        deny_added(v, lead + name).total == v.total + (if v.deny.contains(text::lowercase(name)) {
            0int
        } else {
            1
        }),
        gravity_added(v, lead + name).total == v.total + (if v.gravity.contains(
            text::lowercase(name),
        ) {
            0int
        } else {
            1
        }),
        allow_added(v, lead + name).total == v.total,
{
    text::lemma_white_in_front(lead, name);
    text::lemma_trimmed_keeps(name, name.len() - 1);
    text::lemma_trimmed_is_shorter(name);
    assert(text::trimmed(name) =~= name);
    assert(text::trimmed_start(name) == name);
    assert(text::trimmed(lead + name) == name);
}

/// What the lists decide. The allow list goes before everything else, by name or by pattern; then a
/// name on the deny list blocks, then one of the blocklists, then a wildcard entry, then a pattern of
/// the deny list. A name that is in none of them is not blocked.
pub proof fn law_lists_decide_in_order(v: ListsView, query: Seq<char>)
    ensures
        ({
            let d = asked(query);
            let r = decision(v, query);
            let allows = v.allow.contains(d) || exists|i: int|
                0 <= i < v.allow_regexes.len() && pattern::regex_accepts(
                    #[trigger] v.allow_regexes[i],
                    d,
                );
            let denies = exists|i: int|
                0 <= i < v.deny_regexes.len() && pattern::regex_accepts(
                    #[trigger] v.deny_regexes[i],
                    d,
                );
            let wild = matches_some(v.wildcards, d);
            &&& r == DecisionView::Allowlisted <==> allows
            &&& r == DecisionView::Blocked("exact"@) ==> !allows && (v.deny.contains(d))
            &&& !allows && v.deny.contains(d) ==> r == DecisionView::Blocked("exact"@)
            &&& !allows && !v.deny.contains(d) && v.gravity.contains(d) ==> r
                == DecisionView::Blocked("gravity"@)
            &&& !allows && !v.deny.contains(d) && !v.gravity.contains(d) && wild ==> r
                == DecisionView::Blocked("wildcard"@)
            &&& !allows && !v.deny.contains(d) && !v.gravity.contains(d) && !wild && denies ==> r
                == DecisionView::BlockedByRegex
            &&& r.blocks() <==> !allows && (v.deny.contains(d) || v.gravity.contains(d) || wild
                || denies)
        }),
{
    reveal_strlit("exact");
    reveal_strlit("gravity");
    reveal_strlit("wildcard");
    assert("exact"@.len() != "gravity"@.len());
    assert("exact"@.len() != "wildcard"@.len());
}

/// A row of the blocklists is a wildcard entry exactly where it starts with a star, behind white space
/// that may stand in front.
pub proof fn law_rows_with_a_star_are_wildcards(lead: Seq<char>, row: Seq<char>)
    requires
        text::all_white(lead),
        row.len() > 0,
        !text::white_space(row[0]),
    ensures
        is_wildcard(lead + row) <==> row[0] == '*',
{
    text::lemma_white_in_front(lead, row);
    text::lemma_trimmed_keeps(row, 0);
    assert(text::trimmed_start(row) == row);
    assert(text::trimmed(lead + row) == text::trimmed(row));
}

/// The total counts what blocks: one row more of the blocklists counts one more where it is a wildcard
/// entry or a domain that was not there, and nothing where the domain was there.
pub proof fn law_total_counts_the_rows(rows: GravityRows, more: GravityRows, row: Seq<char>)
    requires
        text::texts(more.gravity@) == text::texts(rows.gravity@).push(row),
        more.deny@ == rows.deny@,
        more.deny_patterns@ == rows.deny_patterns@,
        more.gravity@.len() + more.deny@.len() + more.deny_patterns@.len() <= usize::MAX,
    ensures
        loaded(more).total == loaded(rows).total + (if is_wildcard(row) || !loaded(
            rows,
        ).gravity.contains(added(row)) {
            1int
        } else {
            0
        }),
{
    let g = text::texts(rows.gravity@);
    let h = text::texts(more.gravity@);
    assert(h.drop_last() =~= g);
    assert(h.len() == more.gravity@.len());
    lemma_row_counts(h);
    lemma_row_counts(g);
    lemma_lower_set_counts(text::texts(rows.deny@));
    lemma_compiled_counts(text::texts(rows.deny_patterns@));
    assert(text::texts(rows.deny@).len() == rows.deny@.len());
    assert(text::texts(rows.deny_patterns@).len() == rows.deny_patterns@.len());
}

proof fn lemma_row_counts(rows: Seq<Seq<char>>)
    ensures
        exact_rows(rows).finite(),
        exact_rows(rows).len() + wildcard_count(rows) <= rows.len(),
    decreases rows.len(),
{
    if rows.len() > 0 {
        lemma_row_counts(rows.drop_last());
    }
}

proof fn lemma_lower_set_counts(rows: Seq<Seq<char>>)
    ensures
        lower_set(rows).finite(),
        lower_set(rows).len() <= rows.len(),
    decreases rows.len(),
{
    if rows.len() > 0 {
        lemma_lower_set_counts(rows.drop_last());
    }
}

proof fn lemma_compiled_counts(patterns: Seq<Seq<char>>)
    ensures
        pattern::compiled(patterns).len() <= patterns.len(),
    decreases patterns.len(),
{
    if patterns.len() > 0 {
        lemma_compiled_counts(patterns.drop_last());
    }
}

} // verus!
