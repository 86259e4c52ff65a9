//! Wildcard entries, which stand for a domain and everything below it.

use crate::blocking::domain_set::{self, members};
use crate::text;
use dashmap::DashSet;
use vstd::prelude::*;

verus! {

broadcast use vstd::string::group_string_axioms;

/// The domain behind the `*.` or `*` of a wildcard entry.
pub open spec fn wildcard_suffix(pattern: Seq<char>) -> Seq<char> {
    let t = text::trimmed(pattern);
    let n = t.len() as int;
    if n >= 2 && t[0] == '*' && t[1] == '.' {
        t.subrange(2, n)
    } else if n >= 1 && t[0] == '*' {
        t.subrange(1, n)
    } else {
        t
    }
}

/// Labels from the right to the left, with dots between them: what an entry is stored as.
pub open spec fn reversed_key(labels: Seq<Seq<char>>) -> Seq<char> {
    text::joined(labels.reverse(), '.')
}

/// The labels in lowercase, each by itself.
pub open spec fn lower_labels(labels: Seq<Seq<char>>) -> Seq<Seq<char>> {
    labels.map_values(|l: Seq<char>| text::lowercase(l))
}

/// What a wildcard entry is stored as.
pub open spec fn wildcard_key(pattern: Seq<char>) -> Seq<char> {
    reversed_key(lower_labels(text::pieces(wildcard_suffix(pattern), '.')))
}

/// The domain behind the `*.` or `*` of a wildcard entry, in lowercase label by label.
pub open spec fn lowered_suffix(pattern: Seq<char>) -> Seq<char> {
    text::joined(lower_labels(text::pieces(wildcard_suffix(pattern), '.')), '.')
}

/// The domain that a wildcard entry stands for: the labels of what it is stored as, from the left
/// to the right again. It is the domain behind the `*`, in lowercase, as long as lowercase makes a
/// dot of no other character.
pub open spec fn entry_domain(pattern: Seq<char>) -> Seq<char> {
    text::joined(text::pieces(wildcard_key(pattern), '.').reverse(), '.')
}

/// What is stored after the entries are added, one by one.
pub open spec fn added(keys: Set<Seq<char>>, patterns: Seq<Seq<char>>) -> Set<Seq<char>>
    decreases patterns.len(),
{
    if patterns.len() == 0 {
        keys
    } else {
        added(keys, patterns.drop_last()).insert(wildcard_key(patterns.last()))
    }
}

/// What an entry for the domain `s`, which is in lowercase, is stored as.
pub open spec fn domain_key(s: Seq<char>) -> Seq<char> {
    reversed_key(text::pieces(s, '.'))
}

/// Some of the labels of the domain, counted from the right, are stored.
pub open spec fn matches_some(keys: Set<Seq<char>>, domain: Seq<char>) -> bool {
    let reversed = text::pieces(domain, '.').reverse();
    exists|k: int|
        1 <= k <= reversed.len() && #[trigger] keys.contains(
            text::joined(reversed.subrange(0, k), '.'),
        )
}

/// `domain` is `suffix` or a domain below it.
pub open spec fn at_or_below(domain: Seq<char>, suffix: Seq<char>) -> bool {
    domain == suffix || (seq!['.'] + suffix).is_suffix_of(domain)
}

/// Finds whether a domain lies at or below one of its entries, by one lookup for each label.
pub struct WildcardMatcher {
    suffixes: DashSet<String>,
}

impl Default for WildcardMatcher {
    /// A matcher without entries.
    fn default() -> (r: Self)
        ensures
            r.keys() == Set::<Seq<char>>::empty(),
    {
        WildcardMatcher { suffixes: domain_set::new_set() }
    }
}

impl WildcardMatcher {
    /// What the entries are stored as.
    pub closed spec fn keys(&self) -> Set<Seq<char>> {
        members(self.suffixes)
    }

    /// Adds an entry such as `*.example.com` or `*example.com`.
    pub fn insert(&mut self, pattern: &str)
        ensures
            final(self).keys() == old(self).keys().insert(wildcard_key(pattern@)),
            text::all_ascii(wildcard_suffix(pattern@)) ==> wildcard_key(pattern@) == domain_key(
                text::ascii_lower(wildcard_suffix(pattern@)),
            ) && entry_domain(pattern@) == text::ascii_lower(wildcard_suffix(pattern@)),
    {
        let c = text::chars_of(pattern);
        let t: &[char] = text::trim(c.as_slice());
        let start: usize = if t.len() >= 2 && t[0] == '*' && t[1] == '.' {
            2
        } else if t.len() >= 1 && t[0] == '*' {
            1
        } else {
            0
        };
        let suffix: &[char] = &t[start..t.len()];
        assert(suffix@ =~= wildcard_suffix(pattern@));
        let parts = text::split(suffix, '.');
        let ghost all = text::pieces(suffix@, '.');
        let ghost lower = lower_labels(all);
        proof {
            text::lemma_pieces(suffix@, '.');
        }
        let mut key: Vec<char> = Vec::new();
        let mut i: usize = parts.len();
        while i > 0
            invariant
                i <= parts@.len(),
                parts@.len() == all.len(),
                all.len() > 0,
                lower == lower_labels(all),
                all == text::pieces(suffix@, '.'),
                forall|k: int| 0 <= k < parts@.len() ==> (#[trigger] parts@[k])@ == all[k],
                key@ == text::joined(lower.reverse().subrange(0, lower.len() - i), '.'),
                text::all_ascii(suffix@) ==> forall|k: int|
                    i <= k < all.len() ==> text::lowercase(#[trigger] all[k]) == text::ascii_lower(
                        all[k],
                    ),
            decreases i,
        {
            i -= 1;
            let label = text::string_of(parts[i].as_slice());
            let small = text::to_lowercase(label.as_str());
            let small_chars = text::chars_of(small.as_str());
            proof {
                if text::all_ascii(suffix@) {
                    lemma_ascii_pieces(suffix@, i as int);
                }
                let rev = lower.reverse();
                let done = rev.subrange(0, lower.len() - (i + 1));
                let longer = rev.subrange(0, lower.len() - i);
                assert(rev[lower.len() - (i + 1)] == lower[i as int]);
                assert(longer =~= done + seq![lower[i as int]]);
                if done.len() > 0 {
                    text::lemma_joined_concat(done, seq![lower[i as int]], '.');
                }
            }
            if key.len() > 0 || i + 1 < parts.len() {
                key.push('.');
            }
            let ghost before = key@;
            let mut small_mut = small_chars;
            key.append(&mut small_mut);
        }
        proof {
            assert(lower.reverse().subrange(0, lower.len() as int) =~= lower.reverse());
            if text::all_ascii(suffix@) {
                lemma_ascii_lower_pieces(suffix@);
                assert(lower =~= text::pieces(text::ascii_lower(suffix@), '.'));
                text::lemma_pieces(text::ascii_lower(suffix@), '.');
                law_entry_stands_for_its_suffix(pattern@);
                text::lemma_joined_pieces(text::ascii_lower(suffix@), '.');
            }
        }
        let stored = text::string_of(key.as_slice());
        domain_set::insert(&mut self.suffixes, stored);
    }

    /// Whether a domain, which is in lowercase, lies at or below an entry.
    pub fn is_match(&self, domain_lower: &str) -> (r: bool)
        ensures
            r == matches_some(self.keys(), domain_lower@),
    {
        let c = text::chars_of(domain_lower);
        let parts = text::split(c.as_slice(), '.');
        let ghost all = text::pieces(domain_lower@, '.');
        let ghost rev = all.reverse();
        proof {
            text::lemma_pieces(domain_lower@, '.');
        }
        let mut current = String::new();
        let mut i: usize = 0;
        while i < parts.len()
            invariant
                i <= parts@.len(),
                parts@.len() == all.len(),
                all == text::pieces(domain_lower@, '.'),
                rev == all.reverse(),
                forall|k: int| 0 <= k < parts@.len() ==> (#[trigger] parts@[k])@ == all[k],
                current@ == text::joined(rev.subrange(0, i as int), '.'),
                forall|k: int|
                    1 <= k <= i ==> !(#[trigger] self.keys().contains(
                        text::joined(rev.subrange(0, k), '.'),
                    )),
            decreases parts@.len() - i,
        {
            let ghost done = rev.subrange(0, i as int);
            let label = text::string_of(parts[parts.len() - 1 - i].as_slice());
            proof {
                let longer = rev.subrange(0, i + 1);
                assert(rev[i as int] == label@);
                assert(longer =~= done + seq![label@]);
                if i > 0 {
                    text::lemma_joined_concat(done, seq![label@], '.');
                }
            }
            if i > 0 {
                current.push('.');
            }
            current.append(label.as_str());
            assert(current@ =~= text::joined(rev.subrange(0, i + 1), '.'));
            if domain_set::contains(&self.suffixes, current.as_str()) {
                return true;
            }
            i += 1;
        }
        false
    }
}

proof fn lemma_ascii_pieces(s: Seq<char>, k: int)
    requires
        text::all_ascii(s),
        0 <= k < text::pieces(s, '.').len(),
    ensures
        text::all_ascii(text::pieces(s, '.')[k]),
    decreases s.len(),
{
    text::lemma_first_index(s, '.');
    let i = text::first_index(s, '.');
    if i < s.len() {
        let rest = s.subrange(i + 1, s.len() as int);
        assert(text::all_ascii(rest)) by {
            assert forall|j: int| 0 <= j < rest.len() implies (#[trigger] rest[j]) as u32 <= 0x7f by {
                assert(rest[j] == s[j + i + 1]);
            }
        }
        if k == 0 {
            let first = s.subrange(0, i);
            assert forall|j: int| 0 <= j < first.len() implies (#[trigger] first[j]) as u32 <= 0x7f by {
                assert(first[j] == s[j]);
            }
        } else {
            lemma_ascii_pieces(rest, k - 1);
        }
    }
}

/// Lowering the letters of an ASCII text lowers those of its pieces.
proof fn lemma_ascii_lower_pieces(s: Seq<char>)
    ensures
        text::pieces(text::ascii_lower(s), '.') == text::pieces(s, '.').map_values(
            |l: Seq<char>| text::ascii_lower(l),
        ),
    decreases s.len(),
{
    let f = |l: Seq<char>| text::ascii_lower(l);
    let t = text::ascii_lower(s);
    text::lemma_first_index(s, '.');
    let i = text::first_index(s, '.');
    assert forall|j: int| 0 <= j < i implies t[j] != '.' by {
        assert(s[j] != '.');
    }
    text::lemma_first_index_is(t, '.', i);
    if i < s.len() {
        let rest = s.subrange(i + 1, s.len() as int);
        lemma_ascii_lower_pieces(rest);
        assert(t.subrange(i + 1, t.len() as int) =~= text::ascii_lower(rest));
        assert(t.subrange(0, i) =~= text::ascii_lower(s.subrange(0, i)));
        assert(text::pieces(s, '.') == seq![s.subrange(0, i)] + text::pieces(rest, '.'));
        assert(text::pieces(s, '.').map_values(f) =~= seq![t.subrange(0, i)] + text::pieces(
            rest,
            '.',
        ).map_values(f));
    } else {
        assert(text::pieces(s, '.').map_values(f) =~= seq![t]);
    }
}

/// An entry matches its own domain and everything below it.
pub proof fn law_wildcard_matches_below(keys: Set<Seq<char>>, suffix: Seq<char>, domain: Seq<char>)
    requires
        keys.contains(domain_key(suffix)),
        at_or_below(domain, suffix),
    ensures
        matches_some(keys, domain),
{
    let p = text::pieces(suffix, '.');
    let d = text::pieces(domain, '.');
    let k = p.len() as int;
    text::lemma_pieces(suffix, '.');
    if domain == suffix {
        assert(d.reverse().subrange(0, k) =~= p.reverse());
    } else {
        let head = domain.subrange(0, domain.len() - suffix.len() - 1);
        let tail = seq!['.'] + suffix;
        assert(tail == domain.subrange(domain.len() - tail.len(), domain.len() as int));
        assert forall|i: int| 0 <= i < domain.len() implies domain[i] == (head + seq!['.']
            + suffix)[i] by {
            if i >= head.len() {
                assert(tail[i - head.len()] == domain[i]);
            }
        }
        assert(domain =~= head + seq!['.'] + suffix);
        text::lemma_pieces_concat(head, suffix, '.');
        assert(d == text::pieces(head, '.') + p);
        assert(d.reverse().subrange(0, k) =~= p.reverse());
    }
    assert(keys.contains(text::joined(d.reverse().subrange(0, k), '.')));
}

/// What matches lies at or below the domain of an entry: never only at the end of a label.
pub proof fn law_wildcard_matches_only_below(
    keys: Set<Seq<char>>,
    suffixes: Set<Seq<char>>,
    domain: Seq<char>,
)
    requires
        forall|key: Seq<char>| #[trigger]
            keys.contains(key) ==> exists|s: Seq<char>|
                suffixes.contains(s) && key == #[trigger] domain_key(s),
        matches_some(keys, domain),
    ensures
        exists|s: Seq<char>| #[trigger] suffixes.contains(s) && at_or_below(domain, s),
{
    let d = text::pieces(domain, '.');
    let n = d.len() as int;
    let k = choose|k: int|
        1 <= k <= d.reverse().len() && #[trigger] keys.contains(
            text::joined(d.reverse().subrange(0, k), '.'),
        );
    let tail = d.reverse().subrange(0, k);
    let key = text::joined(tail, '.');
    let s = choose|s: Seq<char>| suffixes.contains(s) && key == #[trigger] domain_key(s);
    let p = text::pieces(s, '.');
    text::lemma_pieces(domain, '.');
    text::lemma_pieces(s, '.');
    assert forall|i: int, j: int| 0 <= i < tail.len() && 0 <= j < tail[i].len() implies #[trigger] tail[i][j]
        != '.' by {
        assert(d[n - 1 - i][j] != '.');
    }
    let r = p.reverse();
    assert forall|i: int, j: int| 0 <= i < r.len() && 0 <= j < r[i].len() implies #[trigger] r[i][j]
        != '.' by {
        assert(p[p.len() - 1 - i][j] != '.');
    }
    text::lemma_pieces_joined(tail, '.');
    text::lemma_pieces_joined(r, '.');
    assert(tail == r);
    text::lemma_joined_pieces(domain, '.');
    text::lemma_joined_pieces(s, '.');
    let low = d.subrange(n - k, n);
    assert(low =~= p) by {
        assert forall|i: int| 0 <= i < k implies low[i] == p[i] by {
            assert(tail[k - 1 - i] == d[n - 1 - (k - 1 - i)]);
            assert(r[k - 1 - i] == p[p.len() - 1 - (k - 1 - i)]);
        }
    }
    if k < n {
        let head = d.subrange(0, n - k);
        assert(d =~= head + low);
        text::lemma_joined_concat(head, low, '.');
        let front = text::joined(head, '.');
        assert(domain == front + seq!['.'] + s);
        assert(domain.subrange(domain.len() - (s.len() + 1), domain.len() as int) =~= seq!['.']
            + s);
    } else {
        assert(d =~= p);
    }
    assert(at_or_below(domain, s));
}

/// The labels of a text from the right to the left hold no dots.
proof fn lemma_reversed_pieces(s: Seq<char>)
    ensures
        text::pieces(text::joined(text::pieces(s, '.').reverse(), '.'), '.') == text::pieces(
            s,
            '.',
        ).reverse(),
{
    let p = text::pieces(s, '.');
    text::lemma_pieces(s, '.');
    let r = p.reverse();
    assert forall|i: int, j: int| 0 <= i < r.len() && 0 <= j < r[i].len() implies #[trigger] r[i][j]
        != '.' by {
        assert(p[p.len() - 1 - i][j] != '.');
    }
    text::lemma_pieces_joined(r, '.');
}

/// An entry is stored as its domain is.
proof fn lemma_entry_domain(pattern: Seq<char>)
    ensures
        domain_key(entry_domain(pattern)) == wildcard_key(pattern),
{
    let key = wildcard_key(pattern);
    lemma_reversed_pieces(key);
    text::lemma_joined_pieces(key, '.');
    assert(text::pieces(key, '.').reverse().reverse() =~= text::pieces(key, '.'));
}

/// The domain that an entry stands for is the one behind its `*.` or `*`, in lowercase label by
/// label, where lowercase makes no dot of another character.
pub proof fn law_entry_stands_for_its_suffix(pattern: Seq<char>)
    requires
        text::none_holds(lower_labels(text::pieces(wildcard_suffix(pattern), '.')), '.'),
    ensures
        entry_domain(pattern) == lowered_suffix(pattern),
{
    let lower = lower_labels(text::pieces(wildcard_suffix(pattern), '.'));
    text::lemma_pieces(wildcard_suffix(pattern), '.');
    let r = lower.reverse();
    assert forall|i: int, j: int| 0 <= i < r.len() && 0 <= j < r[i].len() implies #[trigger] r[i][j]
        != '.' by {
        assert(lower[lower.len() - 1 - i][j] != '.');
    }
    text::lemma_pieces_joined(r, '.');
    assert(r.reverse() =~= lower);
}

proof fn lemma_added(keys: Set<Seq<char>>, patterns: Seq<Seq<char>>, key: Seq<char>)
    ensures
        added(keys, patterns).contains(key) <==> keys.contains(key) || exists|i: int|
            0 <= i < patterns.len() && wildcard_key(#[trigger] patterns[i]) == key,
    decreases patterns.len(),
{
    if patterns.len() > 0 {
        let shorter = patterns.drop_last();
        lemma_added(keys, shorter, key);
        if exists|i: int| 0 <= i < patterns.len() && wildcard_key(#[trigger] patterns[i]) == key {
            let i = choose|i: int|
                0 <= i < patterns.len() && wildcard_key(#[trigger] patterns[i]) == key;
            if i < shorter.len() {
                assert(wildcard_key(shorter[i]) == key);
            }
        }
        if exists|i: int| 0 <= i < shorter.len() && wildcard_key(#[trigger] shorter[i]) == key {
            let i = choose|i: int|
                0 <= i < shorter.len() && wildcard_key(#[trigger] shorter[i]) == key;
            assert(wildcard_key(patterns[i]) == key);
        }
        assert(wildcard_key(patterns[patterns.len() - 1]) == wildcard_key(patterns.last()));
    }
}

/// A domain matches what is stored of entries exactly where it is the domain of one of them or lies
/// below one.
pub(crate) proof fn lemma_keys_decide(
    keys: Set<Seq<char>>,
    patterns: Set<Seq<char>>,
    domain: Seq<char>,
)
    requires
        forall|key: Seq<char>| #[trigger]
            keys.contains(key) <==> exists|p: Seq<char>|
                patterns.contains(p) && #[trigger] wildcard_key(p) == key,
    ensures
        matches_some(keys, domain) <==> exists|p: Seq<char>| #[trigger]
            patterns.contains(p) && at_or_below(domain, entry_domain(p)),
{
    if exists|p: Seq<char>| #[trigger] patterns.contains(p) && at_or_below(domain, entry_domain(p)) {
        let p = choose|p: Seq<char>| #[trigger]
            patterns.contains(p) && at_or_below(domain, entry_domain(p));
        lemma_entry_domain(p);
        assert(keys.contains(wildcard_key(p)));
        law_wildcard_matches_below(keys, entry_domain(p), domain);
    }
    if matches_some(keys, domain) {
        let suffixes = Set::new(
            |s: Seq<char>|
                exists|p: Seq<char>| #[trigger] patterns.contains(p) && entry_domain(p) == s,
        );
        assert forall|key: Seq<char>| #[trigger] keys.contains(key) implies exists|s: Seq<char>|
            suffixes.contains(s) && key == #[trigger] domain_key(s) by {
            let p = choose|p: Seq<char>|
                patterns.contains(p) && #[trigger] wildcard_key(p) == key;
            lemma_entry_domain(p);
            let s = entry_domain(p);
            assert(suffixes.contains(s));
            assert(key == domain_key(s));
        }
        law_wildcard_matches_only_below(keys, suffixes, domain);
    }
}

/// After entries are added to an empty matcher, a domain matches exactly where it is the domain of
/// one of the entries or lies below one.
pub proof fn law_wildcards_match_at_or_below(patterns: Seq<Seq<char>>, domain: Seq<char>)
    ensures
        matches_some(added(Set::empty(), patterns), domain) <==> exists|i: int|
            0 <= i < patterns.len() && at_or_below(domain, entry_domain(#[trigger] patterns[i])),
{
    let keys = added(Set::empty(), patterns);
    let all = patterns.to_set();
    assert forall|key: Seq<char>| #[trigger] keys.contains(key) <==> exists|p: Seq<char>|
        all.contains(p) && #[trigger] wildcard_key(p) == key by {
        lemma_added(Set::empty(), patterns, key);
        if keys.contains(key) {
            let i = choose|i: int|
                0 <= i < patterns.len() && wildcard_key(#[trigger] patterns[i]) == key;
            assert(all.contains(patterns[i]));
        }
    }
    lemma_keys_decide(keys, all, domain);
    if matches_some(keys, domain) {
        let p = choose|p: Seq<char>| #[trigger]
            all.contains(p) && at_or_below(domain, entry_domain(p));
        let i = choose|i: int| 0 <= i < patterns.len() && patterns[i] == p;
        assert(at_or_below(domain, entry_domain(patterns[i])));
    }
    if exists|i: int|
        0 <= i < patterns.len() && at_or_below(domain, entry_domain(#[trigger] patterns[i])) {
        let i = choose|i: int|
            0 <= i < patterns.len() && at_or_below(domain, entry_domain(#[trigger] patterns[i]));
        assert(all.contains(patterns[i]));
    }
}

/// A domain lies at or below another exactly where it is the other, or is something and a dot in front
/// of the other: never where it only ends with the same letters.
pub proof fn law_below_starts_at_a_dot(domain: Seq<char>, suffix: Seq<char>)
    ensures
        at_or_below(domain, suffix) <==> domain == suffix || exists|front: Seq<char>|
            domain == #[trigger] (front + seq!['.'] + suffix),
{
    let tail = seq!['.'] + suffix;
    if tail.is_suffix_of(domain) {
        let front = domain.subrange(0, domain.len() - tail.len());
        assert(domain =~= front + tail);
        assert(front + tail =~= front + seq!['.'] + suffix);
    }
    if exists|front: Seq<char>| domain == #[trigger] (front + seq!['.'] + suffix) {
        let front = choose|front: Seq<char>| domain == #[trigger] (front + seq!['.'] + suffix);
        assert(domain.subrange(domain.len() - tail.len(), domain.len() as int) =~= tail);
    }
}

/// The domain of an entry is what stands behind its `*.` or its `*`, as it stands there; an entry
/// without a star is its own domain. White space round it does not matter.
pub proof fn law_entry_names_its_domain(lead: Seq<char>, domain: Seq<char>)
    requires
        text::all_white(lead),
        domain.len() > 0,
        !text::white_space(domain[0]),
        !text::white_space(domain.last()),
    ensures
        wildcard_suffix(lead + (seq!['*', '.'] + domain)) == domain,
        domain[0] != '.' ==> wildcard_suffix(lead + (seq!['*'] + domain)) == domain,
        domain[0] != '*' ==> wildcard_suffix(lead + domain) == domain,
{
    let dotted = seq!['*', '.'] + domain;
    lemma_bare(lead, dotted);
    assert(dotted.subrange(2, dotted.len() as int) =~= domain);
    let starred = seq!['*'] + domain;
    lemma_bare(lead, starred);
    assert(starred.subrange(1, starred.len() as int) =~= domain);
    lemma_bare(lead, domain);
}

proof fn lemma_bare(lead: Seq<char>, s: Seq<char>)
    requires
        text::all_white(lead),
        s.len() > 0,
        !text::white_space(s[0]),
        !text::white_space(s[s.len() - 1]),
    ensures
        text::trimmed(lead + s) == s,
{
    text::lemma_white_in_front(lead, s);
    text::lemma_trimmed_keeps(s, s.len() - 1);
    text::lemma_trimmed_is_shorter(s);
    assert(text::trimmed(s) =~= s);
    assert(text::trimmed_start(s) == s);
}

/// The domain of an entry in lowercase has the same labels, each in lowercase.
pub proof fn law_labels_are_lowered_one_by_one(pattern: Seq<char>, i: int)
    requires
        text::none_holds(lower_labels(text::pieces(wildcard_suffix(pattern), '.')), '.'),
        0 <= i < text::pieces(wildcard_suffix(pattern), '.').len(),
    ensures
        text::pieces(lowered_suffix(pattern), '.').len() == text::pieces(
            wildcard_suffix(pattern),
            '.',
        ).len(),
        text::pieces(lowered_suffix(pattern), '.')[i] == text::lowercase(
            text::pieces(wildcard_suffix(pattern), '.')[i],
        ),
{
    text::lemma_pieces(wildcard_suffix(pattern), '.');
    text::lemma_pieces_joined(lower_labels(text::pieces(wildcard_suffix(pattern), '.')), '.');
}

} // verus!
