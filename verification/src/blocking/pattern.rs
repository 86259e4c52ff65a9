//! Patterns of domains, and the regular expressions that they stand for.

use crate::text;
use regex::Regex;
use vstd::prelude::*;

verus! {

broadcast use vstd::string::group_string_axioms;

#[verifier::external_type_specification]
#[verifier::external_body]
pub struct ExRegex(regex::Regex);

/// The text that a regular expression was compiled from, as `Regex::as_str` gives it.
pub uninterp spec fn regex_text(re: Regex) -> Seq<char>;

/// Whether `Regex::new` compiles the text.
pub uninterp spec fn regex_compiles(pattern: Seq<char>) -> bool;

/// Whether the regular expression compiled from `pattern` matches somewhere in `haystack`.
pub uninterp spec fn regex_accepts(pattern: Seq<char>, haystack: Seq<char>) -> bool;

/// `Regex::new`: whether it succeeds depends on the text alone, and the expression keeps the text
/// that it was compiled from.
#[verifier::external_body]
pub(crate) fn compile(pattern: &str) -> (r: Option<Regex>)
    ensures
        r is Some <==> regex_compiles(pattern@),
        r is Some ==> regex_text(r->0) == pattern@,
{
    Regex::new(pattern).ok()
}

/// `Regex::is_match`: the result depends on the text of the expression and on the haystack.
#[verifier::external_body]
pub(crate) fn is_match(re: &Regex, haystack: &str) -> (r: bool)
    ensures
        r == regex_accepts(regex_text(*re), haystack@),
{
    re.is_match(haystack)
}

/// A character that means something in a regular expression.
pub open spec fn meta(c: char) -> bool {
    c == '\\' || c == '.' || c == '+' || c == '*' || c == '?' || c == '(' || c == ')' || c == '|'
        || c == '[' || c == ']' || c == '{' || c == '}' || c == '^' || c == '$' || c == '#' || c
        == '&' || c == '-' || c == '~'
}

/// `s` with a backslash before each character that means something in a regular expression.
pub open spec fn escaped(s: Seq<char>) -> Seq<char>
    decreases s.len(),
{
    if s.len() == 0 {
        Seq::empty()
    } else if meta(s.last()) {
        escaped(s.drop_last()).push('\\').push(s.last())
    } else {
        escaped(s.drop_last()).push(s.last())
    }
}

/// `regex::escape`: the text with a backslash before each character that means something.
#[verifier::external_body]
pub(crate) fn escape(s: &str) -> (r: String)
    ensures
        r@ == escaped(s@),
{
    regex::escape(s)
}

/// The regular expression that a pattern stands for. `/x/` is the expression `x`; `*.s` and `*s`
/// stand for `s` and everything below it; anything else stands for itself. Case never matters. A
/// pattern of less than two bytes, and one with nothing between its slashes, stands for nothing.
pub open spec fn pattern_regex(pattern: Seq<char>) -> Option<Seq<char>> {
    let b = text::trimmed(pattern);
    let n = b.len() as int;
    if n == 0 || (n == 1 && (b[0] as u32) < 0x80) {
        None
    } else if b[0] == '/' && n > 1 && b[n - 1] == '/' {
        if n == 2 {
            None
        } else {
            Some("(?i)"@ + b.subrange(1, n - 1))
        }
    } else if n >= 2 && b[0] == '*' && b[1] == '.' {
        Some("(?i)(^|\\.)"@ + escaped(b.subrange(2, n)) + "$"@)
    } else if b[0] == '*' {
        Some("(?i)(^|\\.)"@ + escaped(b.subrange(1, n)) + "$"@)
    } else {
        Some("(?i)^"@ + escaped(b) + "$"@)
    }
}

/// The pattern can be used: it stands for an expression, and that compiles.
pub open spec fn usable(pattern: Seq<char>) -> bool {
    pattern_regex(pattern) matches Some(p) && regex_compiles(p)
}

/// `head`, then the escaped `body`, then an end mark.
fn anchored(head: &str, body: &[char]) -> (r: String)
    ensures
        r@ == head@ + escaped(body@) + "$"@,
{
    let plain = text::string_of(body);
    let quoted = escape(plain.as_str());
    let mut s = head.to_owned();
    s.append(quoted.as_str());
    s.append("$");
    s
}

/// The regular expression that a pattern stands for.
fn regex_of(pattern: &str) -> (r: Option<String>)
    ensures
        match r {
            Some(s) => pattern_regex(pattern@) == Some(s@),
            None => pattern_regex(pattern@) is None,
        },
{
    let c = text::chars_of(pattern);
    let b: &[char] = text::trim(c.as_slice());
    let n: usize = b.len();
    if n == 0 || (n == 1 && (b[0] as u32) < 0x80) {
        return None;
    }
    if b[0] == '/' && n > 1 && b[n - 1] == '/' {
        if n == 2 {
            return None;
        }
        let inner = text::string_of(&b[1..n - 1]);
        let mut s = "(?i)".to_owned();
        s.append(inner.as_str());
        Some(s)
    } else if n >= 2 && b[0] == '*' && b[1] == '.' {
        Some(anchored("(?i)(^|\\.)", &b[2..n]))
    } else if b[0] == '*' {
        Some(anchored("(?i)(^|\\.)", &b[1..n]))
    } else {
        Some(anchored("(?i)^", b))
    }
}

/// Compiles a pattern; none where it stands for nothing or does not compile.
pub fn compile_pattern(pattern: &str) -> (r: Option<Regex>)
    ensures
        r is Some <==> usable(pattern@),
        r is Some ==> regex_text(r->0) == pattern_regex(pattern@)->0,
{
    match regex_of(pattern) {
        Some(s) => compile(s.as_str()),
        None => None,
    }
}

/// The texts of a list of expressions.
pub open spec fn regex_texts(v: Seq<Regex>) -> Seq<Seq<char>> {
    v.map_values(|re: Regex| regex_text(re))
}

/// One of the expressions matches somewhere in `haystack`.
pub open spec fn any_accepts(patterns: Seq<Seq<char>>, haystack: Seq<char>) -> bool {
    exists|i: int| 0 <= i < patterns.len() && regex_accepts(#[trigger] patterns[i], haystack)
}

/// Whether one of the expressions matches somewhere in `haystack`.
pub fn any_match(list: &Vec<Regex>, haystack: &str) -> (r: bool)
    ensures
        r == any_accepts(regex_texts(list@), haystack@),
{
    let mut i: usize = 0;
    while i < list.len()
        invariant
            i <= list@.len(),
            forall|j: int|
                0 <= j < i ==> !regex_accepts(#[trigger] regex_texts(list@)[j], haystack@),
        decreases list@.len() - i,
    {
        if is_match(&list[i], haystack) {
            assert(regex_accepts(regex_texts(list@)[i as int], haystack@));
            return true;
        }
        i += 1;
    }
    false
}

/// The expressions of those patterns that can be used, in order.
pub open spec fn compiled(patterns: Seq<Seq<char>>) -> Seq<Seq<char>>
    decreases patterns.len(),
{
    if patterns.len() == 0 {
        Seq::empty()
    } else {
        let before = compiled(patterns.drop_last());
        if usable(patterns.last()) {
            before.push(pattern_regex(patterns.last())->0)
        } else {
            before
        }
    }
}

/// Compiles the patterns that can be used; the others are left out.
pub fn compile_all(patterns: &Vec<String>) -> (r: Vec<Regex>)
    ensures
        regex_texts(r@) == compiled(text::texts(patterns@)),
        r@.len() <= patterns@.len(),
{
    let mut out: Vec<Regex> = Vec::new();
    let ghost all = text::texts(patterns@);
    let mut i: usize = 0;
    assert(regex_texts(out@) =~= Seq::empty());
    while i < patterns.len()
        invariant
            i <= patterns@.len(),
            all == text::texts(patterns@),
            regex_texts(out@) == compiled(all.subrange(0, i as int)),
            out@.len() <= i,
        decreases patterns@.len() - i,
    {
        proof {
            let longer = all.subrange(0, i + 1);
            assert(longer.drop_last() =~= all.subrange(0, i as int));
            assert(longer.last() == patterns@[i as int]@);
        }
        match compile_pattern(patterns[i].as_str()) {
            Some(re) => {
                let ghost before = regex_texts(out@);
                out.push(re);
                assert(regex_texts(out@) =~= before.push(regex_text(re)));
            },
            None => {},
        }
        i += 1;
    }
    assert(all.subrange(0, all.len() as int) =~= all);
    out
}

proof fn lemma_compiled(patterns: Seq<Seq<char>>, e: Seq<char>)
    ensures
        compiled(patterns).contains(e) <==> exists|i: int|
            0 <= i < patterns.len() && stands_for(#[trigger] patterns[i], e),
    decreases patterns.len(),
{
    if patterns.len() > 0 {
        let shorter = patterns.drop_last();
        let before = compiled(shorter);
        let now = compiled(patterns);
        lemma_compiled(shorter, e);
        if now.contains(e) {
            let j = choose|j: int| 0 <= j < now.len() && now[j] == e;
            if j < before.len() {
                assert(before[j] == e);
                let i = choose|i: int| 0 <= i < shorter.len() && stands_for(#[trigger] shorter[i], e);
                assert(stands_for(patterns[i], e));
            } else {
                assert(stands_for(patterns[patterns.len() - 1], e));
            }
        }
        if exists|i: int| 0 <= i < patterns.len() && stands_for(#[trigger] patterns[i], e) {
            let i = choose|i: int| 0 <= i < patterns.len() && stands_for(#[trigger] patterns[i], e);
            if i < shorter.len() {
                assert(stands_for(shorter[i], e));
                let j = choose|j: int| 0 <= j < before.len() && before[j] == e;
                assert(now[j] == e);
            } else {
                assert(now[before.len() as int] == e);
            }
        }
    }
}

/// The pattern stands for the expression, and that compiles.
pub open spec fn stands_for(pattern: Seq<char>, e: Seq<char>) -> bool {
    pattern_regex(pattern) == Some(e) && regex_compiles(e)
}

/// A list of patterns accepts a text exactly where one of them does: one that stands for an expression
/// that compiles and accepts the text. Patterns that do not are passed over.
pub proof fn law_one_pattern_is_enough(patterns: Seq<Seq<char>>, haystack: Seq<char>)
    ensures
        any_accepts(compiled(patterns), haystack) <==> exists|i: int, e: Seq<char>|
            0 <= i < patterns.len() && #[trigger] stands_for(patterns[i], e) && regex_accepts(
                e,
                haystack,
            ),
{
    let list = compiled(patterns);
    if any_accepts(list, haystack) {
        let j = choose|j: int| 0 <= j < list.len() && regex_accepts(#[trigger] list[j], haystack);
        lemma_compiled(patterns, list[j]);
        let i = choose|i: int|
            0 <= i < patterns.len() && stands_for(#[trigger] patterns[i], list[j]);
        assert(stands_for(patterns[i], list[j]));
    }
    if exists|i: int, e: Seq<char>|
        0 <= i < patterns.len() && #[trigger] stands_for(patterns[i], e) && regex_accepts(
            e,
            haystack,
        ) {
        let (i, e) = choose|i: int, e: Seq<char>|
            0 <= i < patterns.len() && #[trigger] stands_for(patterns[i], e) && regex_accepts(
                e,
                haystack,
            );
        lemma_compiled(patterns, e);
        let j = choose|j: int| 0 <= j < list.len() && list[j] == e;
        assert(regex_accepts(list[j], haystack));
    }
}

/// A body without white space at its ends.
pub open spec fn is_bare(s: Seq<char>) -> bool {
    s.len() > 0 && !text::white_space(s[0]) && !text::white_space(s.last())
}

pub(crate) proof fn lemma_bare_is_trimmed(s: Seq<char>)
    requires
        is_bare(s),
    ensures
        text::trimmed(s) == s,
{
    text::lemma_trimmed_keeps(s, s.len() - 1);
    text::lemma_trimmed_is_shorter(s);
    assert(text::trimmed(s) =~= s);
}

/// What patterns stand for. Between slashes stands a regular expression, which is taken as it is. A
/// star in front of a domain, with or without a dot behind it, stands for the domain and what lies
/// below it: an expression that ends with the domain, behind a dot or at the start. Any other text
/// stands for itself, from its start to its end. Case never matters, and each character of a domain
/// stands for itself.
pub proof fn law_shapes_of_patterns(body: Seq<char>)
    requires
        is_bare(body),
    ensures
        pattern_regex(seq!['/'] + body + seq!['/']) == Some("(?i)"@ + body),
        pattern_regex(seq!['*', '.'] + body) == Some("(?i)(^|\\.)"@ + escaped(body) + "$"@),
        body[0] != '.' ==> pattern_regex(seq!['*'] + body) == Some(
            "(?i)(^|\\.)"@ + escaped(body) + "$"@,
        ),
        body.len() >= 2 && body[0] != '*' && body[0] != '/' ==> pattern_regex(body) == Some(
            "(?i)^"@ + escaped(body) + "$"@,
        ),
        pattern_regex(seq!['/', '/']) is None,
        pattern_regex(Seq::empty()) is None,
{
    let slashed = seq!['/'] + body + seq!['/'];
    assert(slashed[0] == '/' && slashed.last() == '/');
    lemma_bare_is_trimmed(slashed);
    assert(slashed.subrange(1, slashed.len() - 1) =~= body);
    let dotted = seq!['*', '.'] + body;
    assert(dotted.last() == body.last());
    lemma_bare_is_trimmed(dotted);
    assert(dotted.subrange(2, dotted.len() as int) =~= body);
    let starred = seq!['*'] + body;
    assert(starred.last() == body.last());
    lemma_bare_is_trimmed(starred);
    assert(starred.subrange(1, starred.len() as int) =~= body);
    lemma_bare_is_trimmed(body);
    lemma_bare_is_trimmed(seq!['/', '/']);
}

} // verus!
