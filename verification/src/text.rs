//! Text as sequences of characters: trimming, splitting, prefixes, numbers.
//!
//! Every function here works on the characters of a string, so that its contract can speak
//! of `Seq<char>` alone.

use vstd::prelude::*;

verus! {

broadcast use vstd::string::group_string_axioms;

/// `String::push` of the standard library: the character is added at the end of the string.
pub assume_specification[ String::push ](s: &mut String, ch: char)
    ensures
        final(s)@ == old(s)@.push(ch),
;

/// `s` with its ASCII capital letters replaced by the small ones.
pub open spec fn ascii_lower(s: Seq<char>) -> Seq<char> {
    s.map_values(|c: char| ascii_lower_char(c))
}

/// The small letter of an ASCII capital; any other character is itself.
pub open spec fn ascii_lower_char(c: char) -> char {
    if 'A' <= c && c <= 'Z' {
        ((c as u8) + 32) as u8 as char
    } else {
        c
    }
}

/// The capital letter of an ASCII small letter; any other character is itself.
pub open spec fn ascii_upper_char(c: char) -> char {
    if 'a' <= c && c <= 'z' {
        ((c as u8) - 32) as u8 as char
    } else {
        c
    }
}

/// `s` with its ASCII small letters replaced by the capital ones.
pub open spec fn ascii_upper(s: Seq<char>) -> Seq<char> {
    s.map_values(|c: char| ascii_upper_char(c))
}

/// Every character is an ASCII character.
pub open spec fn all_ascii(s: Seq<char>) -> bool {
    forall|i: int| 0 <= i < s.len() ==> (#[trigger] s[i]) as u32 <= 0x7f
}

/// The lowercase form of a text by the Unicode rules, as `str::to_lowercase` gives it.
pub uninterp spec fn lowercase(s: Seq<char>) -> Seq<char>;

/// The uppercase form of a text by the Unicode rules, as `str::to_uppercase` gives it.
pub uninterp spec fn uppercase(s: Seq<char>) -> Seq<char>;

/// `str::to_lowercase` of the standard library. The result is the Unicode lowercase form of
/// the text. On a text of ASCII characters that form maps the letters `A` to `Z` to `a` to `z`
/// and keeps every other character.
#[verifier::external_body]
pub(crate) fn to_lowercase(s: &str) -> (r: String)
    ensures
        r@ == lowercase(s@),
        all_ascii(s@) ==> r@ == ascii_lower(s@),
{
    s.to_lowercase()
}

/// `str::to_uppercase` of the standard library. The result is the Unicode uppercase form of
/// the text. On a text of ASCII characters that form maps the letters `a` to `z` to `A` to `Z`
/// and keeps every other character.
#[verifier::external_body]
pub(crate) fn to_uppercase(s: &str) -> (r: String)
    ensures
        r@ == uppercase(s@),
        all_ascii(s@) ==> r@ == ascii_upper(s@),
{
    s.to_uppercase()
}

/// The characters of a string, in order.
pub fn chars_of(s: &str) -> (r: Vec<char>)
    ensures
        r@ == s@,
{
    let mut out: Vec<char> = Vec::new();
    for c in it: s.chars()
        invariant
            out@ == s@.subrange(0, it.index() as int),
            it.seq() == s@,
    {
        out.push(c);
        assert(s@.subrange(0, it.index() + 1) =~= s@.subrange(0, it.index() as int).push(c));
    }
    assert(s@.subrange(0, s@.len() as int) =~= s@);
    out
}

/// The string with the given characters.
pub fn string_of(s: &[char]) -> (r: String)
    ensures
        r@ == s@,
{
    let mut out = String::new();
    let mut i: usize = 0;
    while i < s.len()
        invariant
            i <= s.len(),
            out@ == s@.subrange(0, i as int),
        decreases s.len() - i,
    {
        out.push(s[i]);
        assert(s@.subrange(0, i + 1) =~= s@.subrange(0, i as int).push(s@[i as int]));
        i += 1;
    }
    assert(s@.subrange(0, s@.len() as int) =~= s@);
    out
}

/// The Unicode property `White_Space`, which `char::is_whitespace` tests.
pub open spec fn white_space(c: char) -> bool {
    let u = c as u32;
    ||| 0x09 <= u <= 0x0d
    ||| u == 0x20
    ||| u == 0x85
    ||| u == 0xa0
    ||| u == 0x1680
    ||| 0x2000 <= u <= 0x200a
    ||| u == 0x2028
    ||| u == 0x2029
    ||| u == 0x202f
    ||| u == 0x205f
    ||| u == 0x3000
}

/// Whether a character is white space.
pub fn is_white_space(c: char) -> (r: bool)
    ensures
        r == white_space(c),
{
    let u: u32 = c as u32;
    (0x09 <= u && u <= 0x0d) || u == 0x20 || u == 0x85 || u == 0xa0 || u == 0x1680 || (0x2000 <= u
        && u <= 0x200a) || u == 0x2028 || u == 0x2029 || u == 0x202f || u == 0x205f || u == 0x3000
}

/// `s` without the white space at its start.
pub open spec fn trimmed_start(s: Seq<char>) -> Seq<char>
    decreases s.len(),
{
    if s.len() > 0 && white_space(s[0]) {
        trimmed_start(s.subrange(1, s.len() as int))
    } else {
        s
    }
}

/// `s` without the white space at its end.
pub open spec fn trimmed_end(s: Seq<char>) -> Seq<char>
    decreases s.len(),
{
    if s.len() > 0 && white_space(s.last()) {
        trimmed_end(s.drop_last())
    } else {
        s
    }
}

/// `s` without the white space at its two ends.
pub open spec fn trimmed(s: Seq<char>) -> Seq<char> {
    trimmed_end(trimmed_start(s))
}

/// `s` without the run of `c` at its end.
pub open spec fn trimmed_end_of(s: Seq<char>, c: char) -> Seq<char>
    decreases s.len(),
{
    if s.len() > 0 && s.last() == c {
        trimmed_end_of(s.drop_last(), c)
    } else {
        s
    }
}

/// Removes the white space at the start.
pub fn trim_start(s: &[char]) -> (r: &[char])
    ensures
        r@ == trimmed_start(s@),
{
    let mut i: usize = 0;
    assert(s@.subrange(0, s@.len() as int) =~= s@);
    while i < s.len() && is_white_space(s[i])
        invariant
            i <= s.len(),
            trimmed_start(s@) == trimmed_start(s@.subrange(i as int, s@.len() as int)),
        decreases s.len() - i,
    {
        assert(s@.subrange(i as int, s@.len() as int).subrange(1, s@.len() - i) =~= s@.subrange(
            i + 1,
            s@.len() as int,
        ));
        i += 1;
    }
    &s[i..s.len()]
}

/// Removes the white space at the end.
pub fn trim_end(s: &[char]) -> (r: &[char])
    ensures
        r@ == trimmed_end(s@),
{
    let mut n: usize = s.len();
    assert(s@.subrange(0, s@.len() as int) =~= s@);
    while n > 0 && is_white_space(s[n - 1])
        invariant
            n <= s.len(),
            trimmed_end(s@) == trimmed_end(s@.subrange(0, n as int)),
        decreases n,
    {
        assert(s@.subrange(0, n as int).drop_last() =~= s@.subrange(0, n - 1));
        n -= 1;
    }
    &s[0..n]
}

/// Removes the white space at the two ends.
pub fn trim(s: &[char]) -> (r: &[char])
    ensures
        r@ == trimmed(s@),
{
    trim_end(trim_start(s))
}

/// Removes the run of `c` at the end.
pub fn trim_end_of(s: &[char], c: char) -> (r: &[char])
    ensures
        r@ == trimmed_end_of(s@, c),
{
    let mut n: usize = s.len();
    assert(s@.subrange(0, s@.len() as int) =~= s@);
    while n > 0 && s[n - 1] == c
        invariant
            n <= s.len(),
            trimmed_end_of(s@, c) == trimmed_end_of(s@.subrange(0, n as int), c),
        decreases n,
    {
        assert(s@.subrange(0, n as int).drop_last() =~= s@.subrange(0, n - 1));
        n -= 1;
    }
    &s[0..n]
}

/// The position of the first `c` in `s`; the length of `s` where there is none.
pub open spec fn first_index(s: Seq<char>, c: char) -> int
    decreases s.len(),
{
    if s.len() == 0 || s[0] == c {
        0
    } else {
        1 + first_index(s.subrange(1, s.len() as int), c)
    }
}

/// The pieces of `s` between the occurrences of `c`: always one more than there are of `c`.
pub open spec fn pieces(s: Seq<char>, c: char) -> Seq<Seq<char>>
    decreases s.len(),
{
    let i = first_index(s, c);
    if 0 <= i < s.len() {
        seq![s.subrange(0, i)] + pieces(s.subrange(i + 1, s.len() as int), c)
    } else {
        seq![s]
    }
}

/// What `first_index` is: an occurrence with none before it, or the length.
pub proof fn lemma_first_index(s: Seq<char>, c: char)
    ensures
        0 <= first_index(s, c) <= s.len(),
        forall|j: int| 0 <= j < first_index(s, c) ==> s[j] != c,
        first_index(s, c) < s.len() ==> s[first_index(s, c)] == c,
    decreases s.len(),
{
    if s.len() > 0 && s[0] != c {
        let t = s.subrange(1, s.len() as int);
        lemma_first_index(t, c);
        assert forall|j: int| 0 <= j < first_index(s, c) implies s[j] != c by {
            if j > 0 {
                assert(t[j - 1] == s[j]);
            }
        }
    }
}

/// The first index is the only position that is an occurrence with none before it.
pub proof fn lemma_first_index_is(s: Seq<char>, c: char, i: int)
    requires
        0 <= i <= s.len(),
        forall|j: int| 0 <= j < i ==> s[j] != c,
        i < s.len() ==> s[i] == c,
    ensures
        first_index(s, c) == i,
{
    lemma_first_index(s, c);
}

/// The position of the first `c` at or after `from`; the length where there is none.
pub fn find_from(s: &[char], from: usize, c: char) -> (r: usize)
    requires
        from <= s@.len(),
    ensures
        from <= r <= s@.len(),
        r - from == first_index(s@.subrange(from as int, s@.len() as int), c),
{
    let mut i: usize = from;
    let ghost tail = s@.subrange(from as int, s@.len() as int);
    while i < s.len() && s[i] != c
        invariant
            from <= i <= s.len(),
            tail == s@.subrange(from as int, s@.len() as int),
            forall|j: int| 0 <= j < i - from ==> tail[j] != c,
        decreases s.len() - i,
    {
        assert(tail[i - from] == s@[i as int]);
        i += 1;
    }
    proof {
        if i < s.len() {
            assert(tail[i - from] == s@[i as int]);
        }
        lemma_first_index_is(tail, c, i - from);
    }
    i
}

/// The pieces of `s` between the occurrences of `c`.
pub fn split(s: &[char], c: char) -> (r: Vec<Vec<char>>)
    ensures
        r@.len() == pieces(s@, c).len(),
        forall|i: int| 0 <= i < r@.len() ==> (#[trigger] r@[i])@ == pieces(s@, c)[i],
{
    let mut out: Vec<Vec<char>> = Vec::new();
    let mut from: usize = 0;
    let ghost whole = pieces(s@, c);
    assert(s@.subrange(0, s@.len() as int) =~= s@);
    loop
        invariant_except_break
            from <= s@.len(),
            whole.len() == out@.len() + pieces(s@.subrange(from as int, s@.len() as int), c).len(),
            forall|i: int| 0 <= i < out@.len() ==> (#[trigger] out@[i])@ == whole[i],
            forall|i: int|
                0 <= i < whole.len() - out@.len() ==> whole[out@.len() + i] == (#[trigger] pieces(
                    s@.subrange(from as int, s@.len() as int),
                    c,
                )[i]),
        ensures
            out@.len() == whole.len(),
            forall|i: int| 0 <= i < out@.len() ==> (#[trigger] out@[i])@ == whole[i],
        decreases s@.len() - from,
    {
        let end: usize = find_from(s, from, c);
        let ghost tail = s@.subrange(from as int, s@.len() as int);
        let ghost rest = pieces(tail, c);
        let piece: Vec<char> = copy_chars(&s[from..end]);
        let ghost before = out@;
        out.push(piece);
        assert(piece@ =~= tail.subrange(0, end - from));
        if end == s.len() {
            proof {
                assert(tail.subrange(0, end - from) =~= tail);
                assert(rest =~= seq![tail]);
                assert(whole[before.len() as int + 0] == rest[0]);
            }
            break;
        }
        proof {
            assert(tail.subrange(end - from + 1, tail.len() as int) =~= s@.subrange(
                end + 1,
                s@.len() as int,
            ));
            let next = pieces(s@.subrange(end + 1, s@.len() as int), c);
            assert(rest == seq![tail.subrange(0, end - from)] + next);
            assert(whole[before.len() as int + 0] == rest[0]);
            assert forall|i: int| 0 <= i < next.len() implies whole[out@.len() + i] == #[trigger] next[i] by {
                assert(rest[i + 1] == next[i]);
            }
        }
        from = end + 1;
    }
    out
}

/// A vector with the characters of a slice.
pub fn copy_chars(s: &[char]) -> (r: Vec<char>)
    ensures
        r@ == s@,
{
    let mut out: Vec<char> = Vec::with_capacity(s.len());
    let mut i: usize = 0;
    while i < s.len()
        invariant
            i <= s.len(),
            out@ == s@.subrange(0, i as int),
        decreases s.len() - i,
    {
        out.push(s[i]);
        assert(s@.subrange(0, i + 1) =~= s@.subrange(0, i as int).push(s@[i as int]));
        i += 1;
    }
    assert(s@.subrange(0, s@.len() as int) =~= s@);
    out
}

/// Whether two texts are the same.
pub fn same(a: &[char], b: &[char]) -> (r: bool)
    ensures
        r == (a@ == b@),
{
    if a.len() != b.len() {
        return false;
    }
    let mut i: usize = 0;
    while i < a.len()
        invariant
            a.len() == b.len(),
            i <= a.len(),
            forall|j: int| 0 <= j < i ==> a@[j] == b@[j],
        decreases a.len() - i,
    {
        if a[i] != b[i] {
            return false;
        }
        i += 1;
    }
    assert(a@ =~= b@);
    true
}

/// Whether a text is the given string.
pub fn is_text(a: &[char], t: &str) -> (r: bool)
    ensures
        r == (a@ == t@),
{
    let b = chars_of(t);
    same(a, b.as_slice())
}

/// Whether two strings are the same.
pub fn same_text(a: &str, b: &str) -> (r: bool)
    ensures
        r == (a@ == b@),
{
    let c = chars_of(a);
    is_text(c.as_slice(), b)
}

/// Whether `s` starts with `p`.
pub fn starts_with(s: &[char], p: &str) -> (r: bool)
    ensures
        r == p@.is_prefix_of(s@),
{
    let q = chars_of(p);
    if q.len() > s.len() {
        return false;
    }
    same(&s[0..q.len()], q.as_slice())
}

/// Whether `s` ends with `p`.
pub fn ends_with(s: &[char], p: &[char]) -> (r: bool)
    ensures
        r == p@.is_suffix_of(s@),
{
    if p.len() > s.len() {
        return false;
    }
    same(&s[s.len() - p.len()..s.len()], p)
}

/// The words of `s`: its maximal runs without white space, in order.
pub open spec fn words(s: Seq<char>) -> Seq<Seq<char>>
    decreases s.len(),
    when true via words_decreases
{
    let t = trimmed_start(s);
    if t.len() == 0 {
        Seq::empty()
    } else {
        let n = word_length(t);
        seq![t.subrange(0, n)] + words(t.subrange(n, t.len() as int))
    }
}

/// How many characters `s` has before its first white space.
pub open spec fn word_length(s: Seq<char>) -> int
    decreases s.len(),
{
    if s.len() == 0 || white_space(s[0]) {
        0
    } else {
        1 + word_length(s.subrange(1, s.len() as int))
    }
}

#[via_fn]
proof fn words_decreases(s: Seq<char>) {
    lemma_trimmed_start(s);
    let t = trimmed_start(s);
    if t.len() > 0 {
        lemma_word_length(t);
        assert(t.subrange(word_length(t), t.len() as int).len() < s.len());
    }
}

/// What `trimmed_start` is: a tail that does not start with white space.
pub proof fn lemma_trimmed_start(s: Seq<char>)
    ensures
        trimmed_start(s).len() <= s.len(),
        trimmed_start(s) == s.subrange(s.len() - trimmed_start(s).len(), s.len() as int),
        trimmed_start(s).len() > 0 ==> !white_space(trimmed_start(s)[0]),
    decreases s.len(),
{
    if s.len() > 0 && white_space(s[0]) {
        let u = s.subrange(1, s.len() as int);
        lemma_trimmed_start(u);
        assert(u.subrange(u.len() - trimmed_start(u).len(), u.len() as int) =~= s.subrange(
            s.len() - trimmed_start(u).len(),
            s.len() as int,
        ));
    } else {
        assert(s.subrange(0, s.len() as int) =~= s);
    }
}

/// What `word_length` is: the first white space, or the length.
pub proof fn lemma_word_length(s: Seq<char>)
    ensures
        0 <= word_length(s) <= s.len(),
        forall|j: int| 0 <= j < word_length(s) ==> !white_space(s[j]),
        word_length(s) < s.len() ==> white_space(s[word_length(s)]),
    decreases s.len(),
{
    if s.len() > 0 && !white_space(s[0]) {
        let u = s.subrange(1, s.len() as int);
        lemma_word_length(u);
        assert forall|j: int| 0 <= j < word_length(s) implies !white_space(s[j]) by {
            if j > 0 {
                assert(u[j - 1] == s[j]);
            }
        }
    }
}

proof fn lemma_word_length_is(s: Seq<char>, n: int)
    requires
        0 <= n <= s.len(),
        forall|j: int| 0 <= j < n ==> !white_space(s[j]),
        n < s.len() ==> white_space(s[n]),
    ensures
        word_length(s) == n,
{
    lemma_word_length(s);
}

/// The words of `s`.
pub fn split_words(s: &[char]) -> (r: Vec<Vec<char>>)
    ensures
        r@.len() == words(s@).len(),
        forall|i: int| 0 <= i < r@.len() ==> (#[trigger] r@[i])@ == words(s@)[i],
{
    let mut out: Vec<Vec<char>> = Vec::new();
    let ghost whole = words(s@);
    let mut rest: &[char] = trim_start(s);
    proof {
        lemma_trimmed_start(s@);
        lemma_trimmed_start_again(s@);
        assert(words(s@) == words(rest@));
    }
    while rest.len() > 0
        invariant
            rest@ == trimmed_start(rest@),
            whole.len() == out@.len() + words(rest@).len(),
            forall|i: int| 0 <= i < out@.len() ==> (#[trigger] out@[i])@ == whole[i],
            forall|i: int|
                0 <= i < whole.len() - out@.len() ==> whole[out@.len() + i] == (#[trigger] words(
                    rest@,
                )[i]),
        decreases rest@.len(),
    {
        let ghost t = rest@;
        let mut n: usize = 0;
        while n < rest.len() && !is_white_space(rest[n])
            invariant
                n <= rest@.len(),
                forall|j: int| 0 <= j < n ==> !white_space(rest@[j]),
            decreases rest@.len() - n,
        {
            n += 1;
        }
        proof {
            lemma_word_length_is(t, n as int);
            lemma_trimmed_start(t);
            lemma_trimmed_start(t.subrange(n as int, t.len() as int));
            lemma_trimmed_start_again(t.subrange(n as int, t.len() as int));
        }
        let ghost before = out@;
        let word: Vec<char> = copy_chars(&rest[0..n]);
        out.push(word);
        rest = trim_start(&rest[n..rest.len()]);
        proof {
            let tail = t.subrange(n as int, t.len() as int);
            assert(words(tail) == words(rest@));
            assert(words(t) == seq![t.subrange(0, n as int)] + words(tail));
            assert(whole[before.len() as int + 0] == words(t)[0]);
            assert forall|i: int| 0 <= i < words(rest@).len() implies whole[out@.len() + i]
                == #[trigger] words(rest@)[i] by {
                assert(words(t)[i + 1] == words(rest@)[i]);
            }
        }
    }
    out
}

/// White space is taken off the end, and nothing else.
proof fn lemma_trimmed_end(s: Seq<char>)
    ensures
        trimmed_end(s).len() <= s.len(),
        trimmed_end(s) == s.subrange(0, trimmed_end(s).len() as int),
        trimmed_end(s).len() > 0 ==> !white_space(trimmed_end(s).last()),
    decreases s.len(),
{
    if s.len() > 0 && white_space(s.last()) {
        let u = s.drop_last();
        lemma_trimmed_end(u);
        assert(u.subrange(0, trimmed_end(u).len() as int) =~= s.subrange(
            0,
            trimmed_end(u).len() as int,
        ));
    } else {
        assert(s =~= s.subrange(0, s.len() as int));
    }
}

/// What is trimmed has no white space at its ends.
pub proof fn lemma_trimmed_ends(s: Seq<char>)
    ensures
        trimmed(s).len() > 0 ==> !white_space(trimmed(s)[0]) && !white_space(trimmed(s).last()),
{
    lemma_trimmed_start(s);
    lemma_trimmed_end(trimmed_start(s));
}

proof fn lemma_trimmed_start_again(s: Seq<char>)
    ensures
        trimmed_start(trimmed_start(s)) == trimmed_start(s),
        words(trimmed_start(s)) == words(s),
{
    lemma_trimmed_start(s);
    assert(trimmed_start(trimmed_start(s)) == trimmed_start(s));
}

/// The value of a digit of base sixteen or less; 16 for any other character.
pub open spec fn digit_value(c: char) -> nat {
    if '0' <= c && c <= '9' {
        (c as u32 - 48) as nat
    } else if 'a' <= c && c <= 'f' {
        (c as u32 - 87) as nat
    } else if 'A' <= c && c <= 'F' {
        (c as u32 - 55) as nat
    } else {
        16
    }
}

/// Every character is a digit of the base.
pub open spec fn all_digits(s: Seq<char>, base: nat) -> bool {
    forall|i: int| 0 <= i < s.len() ==> digit_value(#[trigger] s[i]) < base
}

/// The number that a row of digits writes in the base.
pub open spec fn digits_value(s: Seq<char>, base: nat) -> nat
    decreases s.len(),
{
    if s.len() == 0 {
        0
    } else {
        digits_value(s.drop_last(), base) * base + digit_value(s.last())
    }
}

/// The number that `s` writes, where it is an optional `+` and then at least one digit, and the
/// number is at most `max`.
pub open spec fn unsigned_value(s: Seq<char>, base: nat, max: nat) -> Option<nat> {
    let d = if s.len() > 0 && s[0] == '+' {
        s.subrange(1, s.len() as int)
    } else {
        s
    };
    if d.len() > 0 && all_digits(d, base) && digits_value(d, base) <= max {
        Some(digits_value(d, base))
    } else {
        None
    }
}

proof fn lemma_digits_value_grows(s: Seq<char>, base: nat, k: int)
    requires
        base >= 1,
        0 <= k <= s.len(),
    ensures
        digits_value(s.subrange(0, k), base) <= digits_value(s, base),
    decreases s.len() - k,
{
    if k < s.len() {
        lemma_digits_value_grows(s, base, k + 1);
        let longer = s.subrange(0, k + 1);
        assert(longer.drop_last() =~= s.subrange(0, k));
        let v = digits_value(s.subrange(0, k), base);
        assert(v <= v * base) by (nonlinear_arith)
            requires
                base >= 1,
        ;
    } else {
        assert(s.subrange(0, k) =~= s);
    }
}

fn digit(c: char) -> (r: u32)
    ensures
        r == digit_value(c),
        r <= 16,
{
    if '0' <= c && c <= '9' {
        c as u32 - 48
    } else if 'a' <= c && c <= 'f' {
        c as u32 - 87
    } else if 'A' <= c && c <= 'F' {
        c as u32 - 55
    } else {
        16
    }
}

/// Reads a number without sign: what the integer types of the standard library parse from a
/// text in that base, up to `max`.
pub fn parse_unsigned(s: &[char], base: u32, max: u64) -> (r: Option<u64>)
    requires
        2 <= base <= 16,
    ensures
        r is Some <==> unsigned_value(s@, base as nat, max as nat) is Some,
        r is Some ==> r->0 == unsigned_value(s@, base as nat, max as nat)->0,
{
    let start: usize = if s.len() > 0 && s[0] == '+' {
        1
    } else {
        0
    };
    let d: &[char] = &s[start..s.len()];
    assert(start == 0 ==> d@ =~= s@);
    if d.len() == 0 {
        return None;
    }
    let mut v: u64 = 0;
    let mut i: usize = 0;
    while i < d.len()
        invariant
            2 <= base <= 16,
            i <= d@.len(),
            v <= max,
            v == digits_value(d@.subrange(0, i as int), base as nat),
            forall|j: int| 0 <= j < i ==> digit_value(#[trigger] d@[j]) < base as nat,
            d@ == (if s@.len() > 0 && s@[0] == '+' {
                s@.subrange(1, s@.len() as int)
            } else {
                s@
            }),
        decreases d@.len() - i,
    {
        let k: u32 = digit(d[i]);
        if k >= base {
            assert(!(digit_value(d@[i as int]) < base as nat));
            return None;
        }
        assert(v as u128 * base as u128 <= u64::MAX as u128 * 16) by (nonlinear_arith)
            requires
                v <= u64::MAX,
                base <= 16,
        ;
        let next: u128 = v as u128 * base as u128 + k as u128;
        proof {
            let longer = d@.subrange(0, i + 1);
            assert(longer.drop_last() =~= d@.subrange(0, i as int));
            assert(longer.last() == d@[i as int]);
            assert(next == digits_value(longer, base as nat));
            lemma_digits_value_grows(d@, base as nat, i + 1);
        }
        if next > max as u128 {
            return None;
        }
        v = next as u64;
        i += 1;
    }
    assert(d@.subrange(0, d@.len() as int) =~= d@);
    Some(v)
}

/// The characters of each string.
pub open spec fn texts(v: Seq<String>) -> Seq<Seq<char>> {
    v.map_values(|s: String| s@)
}

/// The parts with `c` between them.
pub open spec fn joined(parts: Seq<Seq<char>>, c: char) -> Seq<char>
    decreases parts.len(),
{
    if parts.len() == 0 {
        Seq::empty()
    } else if parts.len() == 1 {
        parts[0]
    } else {
        parts[0] + seq![c] + joined(parts.subrange(1, parts.len() as int), c)
    }
}

/// No part holds `c`.
pub open spec fn none_holds(parts: Seq<Seq<char>>, c: char) -> bool {
    forall|i: int, j: int| 0 <= i < parts.len() && 0 <= j < parts[i].len() ==> #[trigger] parts[i][j] != c
}

/// There is always a piece, and no piece holds the separator.
pub proof fn lemma_pieces(s: Seq<char>, c: char)
    ensures
        pieces(s, c).len() > 0,
        none_holds(pieces(s, c), c),
    decreases s.len(),
{
    lemma_first_index(s, c);
    let i = first_index(s, c);
    if i < s.len() {
        let rest = s.subrange(i + 1, s.len() as int);
        lemma_pieces(rest, c);
        let p = pieces(s, c);
        assert(p == seq![s.subrange(0, i)] + pieces(rest, c));
        assert forall|a: int, b: int| 0 <= a < p.len() && 0 <= b < p[a].len() implies #[trigger] p[a][b] != c by {
            if a > 0 {
                assert(p[a] == pieces(rest, c)[a - 1]);
                assert(pieces(rest, c)[a - 1][b] != c);
            }
        }
    }
}

/// The pieces joined again give the text.
pub proof fn lemma_joined_pieces(s: Seq<char>, c: char)
    ensures
        joined(pieces(s, c), c) == s,
    decreases s.len(),
{
    lemma_first_index(s, c);
    let i = first_index(s, c);
    if i < s.len() {
        let rest = s.subrange(i + 1, s.len() as int);
        lemma_joined_pieces(rest, c);
        lemma_pieces(rest, c);
        let p = pieces(s, c);
        assert(p.subrange(1, p.len() as int) =~= pieces(rest, c));
        assert(s =~= s.subrange(0, i) + seq![c] + rest);
    } else {
        assert(pieces(s, c) =~= seq![s]);
    }
}

/// The pieces of parts that were joined are the parts, where no part holds the separator.
pub proof fn lemma_pieces_joined(parts: Seq<Seq<char>>, c: char)
    requires
        parts.len() > 0,
        none_holds(parts, c),
    ensures
        pieces(joined(parts, c), c) == parts,
    decreases parts.len(),
{
    let s = joined(parts, c);
    let n = parts[0].len() as int;
    assert forall|j: int| 0 <= j < n implies s[j] != c by {
        assert(parts[0][j] != c);
    }
    if parts.len() == 1 {
        lemma_first_index_is(s, c, n);
        assert(parts =~= seq![s]);
    } else {
        let rest = parts.subrange(1, parts.len() as int);
        assert forall|a: int, b: int| 0 <= a < rest.len() && 0 <= b < rest[a].len() implies #[trigger] rest[a][b]
            != c by {
            assert(parts[a + 1][b] != c);
        }
        lemma_pieces_joined(rest, c);
        lemma_first_index_is(s, c, n);
        assert(s.subrange(0, n) =~= parts[0]);
        assert(s.subrange(n + 1, s.len() as int) =~= joined(rest, c));
        assert(parts =~= seq![parts[0]] + rest);
    }
}

/// Joining two lists of parts.
pub proof fn lemma_joined_concat(a: Seq<Seq<char>>, b: Seq<Seq<char>>, c: char)
    requires
        a.len() > 0,
        b.len() > 0,
    ensures
        joined(a + b, c) == joined(a, c) + seq![c] + joined(b, c),
    decreases a.len(),
{
    let ab = a + b;
    if a.len() == 1 {
        assert(ab.subrange(1, ab.len() as int) =~= b);
    } else {
        let rest = a.subrange(1, a.len() as int);
        lemma_joined_concat(rest, b, c);
        assert(ab.subrange(1, ab.len() as int) =~= rest + b);
        assert(joined(ab, c) =~= a[0] + seq![c] + (joined(rest, c) + seq![c] + joined(b, c)));
        assert(joined(a, c) + seq![c] + joined(b, c) =~= a[0] + seq![c] + (joined(rest, c) + seq![c]
            + joined(b, c)));
    }
}

/// The pieces of a text that holds a separator are the pieces before it and those behind it.
pub proof fn lemma_pieces_concat(a: Seq<char>, b: Seq<char>, c: char)
    ensures
        pieces(a + seq![c] + b, c) == pieces(a, c) + pieces(b, c),
{
    lemma_pieces(a, c);
    lemma_pieces(b, c);
    lemma_joined_pieces(a, c);
    lemma_joined_pieces(b, c);
    let both = pieces(a, c) + pieces(b, c);
    assert forall|i: int, j: int| 0 <= i < both.len() && 0 <= j < both[i].len() implies #[trigger] both[i][j]
        != c by {
        if i < pieces(a, c).len() {
            assert(pieces(a, c)[i][j] != c);
        } else {
            assert(pieces(b, c)[i - pieces(a, c).len()][j] != c);
        }
    }
    lemma_joined_concat(pieces(a, c), pieces(b, c), c);
    lemma_pieces_joined(both, c);
}

/// The digit of base sixteen with the value `n`, in small letters.
pub open spec fn hex_digit(n: int) -> char {
    if n < 10 {
        (48 + n) as u8 as char
    } else {
        (87 + n) as u8 as char
    }
}

/// The two digits of a byte.
pub open spec fn hex_byte(b: u8) -> Seq<char> {
    seq![hex_digit(b as int / 16), hex_digit(b as int % 16)]
}

/// Puts the two digits of a byte behind a string.
pub fn push_hex(s: &mut String, b: u8)
    ensures
        final(s)@ == old(s)@ + hex_byte(b),
{
    let (h, l): (u8, u8) = (b / 16, b % 16);
    let hc: u8 = if h < 10 {
        48 + h
    } else {
        87 + h
    };
    let lc: u8 = if l < 10 {
        48 + l
    } else {
        87 + l
    };
    s.push(hc as char);
    s.push(lc as char);
    assert(s@ =~= old(s)@ + hex_byte(b));
}

/// The characters of an optional string.
pub open spec fn optional(s: Option<String>) -> Option<Seq<char>> {
    match s {
        Some(t) => Some(t@),
        None => None,
    }
}

/// The characters of an optional text.
pub open spec fn optional_str(s: Option<&str>) -> Option<Seq<char>> {
    match s {
        Some(t) => Some(t@),
        None => None,
    }
}

/// A copy of an optional string.
pub fn copy_optional(s: &Option<String>) -> (r: Option<String>)
    ensures
        optional(r) == optional(*s),
{
    match s {
        Some(t) => Some(t.clone()),
        None => None,
    }
}

/// The character is a digit of base sixteen.
pub open spec fn is_hex_digit(c: char) -> bool {
    ('0' <= c && c <= '9') || ('a' <= c && c <= 'f') || ('A' <= c && c <= 'F')
}

/// Whether a character is a digit of base sixteen.
pub fn has_hex_digit(c: char) -> (r: bool)
    ensures
        r == is_hex_digit(c),
{
    ('0' <= c && c <= '9') || ('a' <= c && c <= 'f') || ('A' <= c && c <= 'F')
}

/// Every character is white space.
pub open spec fn all_white(s: Seq<char>) -> bool {
    forall|i: int| 0 <= i < s.len() ==> white_space(#[trigger] s[i])
}

/// No character is white space.
pub open spec fn none_white(s: Seq<char>) -> bool {
    forall|i: int| 0 <= i < s.len() ==> !white_space(#[trigger] s[i])
}

/// White space in front is taken off, as much as there is.
pub proof fn lemma_white_in_front(w: Seq<char>, s: Seq<char>)
    requires
        all_white(w),
    ensures
        trimmed_start(w + s) == trimmed_start(s),
        words(w + s) == words(s),
    decreases w.len(),
{
    if w.len() == 0 {
        assert(w + s =~= s);
    } else {
        let u = w.subrange(1, w.len() as int);
        assert((w + s).subrange(1, (w + s).len() as int) =~= u + s);
        assert((w + s)[0] == w[0]);
        assert forall|i: int| 0 <= i < u.len() implies white_space(#[trigger] u[i]) by {
            assert(u[i] == w[i + 1]);
        }
        lemma_white_in_front(u, s);
        assert(trimmed_start(w + s) == trimmed_start(s));
    }
}

/// What starts with a word has that word first, and behind it the words of the rest.
pub proof fn lemma_word_in_front(w: Seq<char>, rest: Seq<char>)
    requires
        w.len() > 0,
        none_white(w),
        rest.len() > 0 ==> white_space(rest[0]),
    ensures
        words(w + rest) == seq![w] + words(rest),
        trimmed_start(w + rest) == w + rest,
{
    let s = w + rest;
    assert(s[0] == w[0]);
    assert forall|j: int| 0 <= j < w.len() implies !white_space(s[j]) by {
        assert(s[j] == w[j]);
    }
    lemma_word_length_is(s, w.len() as int);
    assert(s.subrange(0, w.len() as int) =~= w);
    assert(s.subrange(w.len() as int, s.len() as int) =~= rest);
}

proof fn lemma_trimmed_start_pushed(s: Seq<char>, c: char)
    requires
        white_space(c),
    ensures
        trimmed_start(s).len() > 0 ==> trimmed_start(s.push(c)) == trimmed_start(s).push(c),
        trimmed_start(s).len() == 0 ==> trimmed_start(s.push(c)).len() == 0,
    decreases s.len(),
{
    let p = s.push(c);
    if s.len() == 0 {
        assert(p.subrange(1, 1) =~= Seq::<char>::empty());
        assert(trimmed_start(p.subrange(1, 1)).len() == 0);
    } else if white_space(s[0]) {
        let u = s.subrange(1, s.len() as int);
        assert(p.subrange(1, p.len() as int) =~= u.push(c));
        lemma_trimmed_start_pushed(u, c);
    }
}

proof fn lemma_words_pushed(s: Seq<char>, c: char)
    requires
        white_space(c),
    ensures
        words(s.push(c)) == words(s),
    decreases s.len(),
{
    let t = trimmed_start(s);
    lemma_trimmed_start(s);
    lemma_trimmed_start_pushed(s, c);
    if t.len() > 0 {
        let n = word_length(t);
        let p = t.push(c);
        lemma_word_length(t);
        assert forall|j: int| 0 <= j < n implies !white_space(p[j]) by {
            assert(p[j] == t[j]);
        }
        lemma_word_length_is(p, n);
        let rest = t.subrange(n, t.len() as int);
        assert(p.subrange(n, p.len() as int) =~= rest.push(c));
        assert(p.subrange(0, n) =~= t.subrange(0, n));
        lemma_words_pushed(rest, c);
    }
}

/// The words of a text are those of the text without the white space at its ends.
pub proof fn lemma_words_trimmed(s: Seq<char>)
    ensures
        words(trimmed(s)) == words(s),
{
    lemma_trimmed_start_again(s);
    lemma_words_trimmed_end(trimmed_start(s));
}

proof fn lemma_words_trimmed_end(s: Seq<char>)
    ensures
        words(trimmed_end(s)) == words(s),
    decreases s.len(),
{
    if s.len() > 0 && white_space(s.last()) {
        lemma_words_trimmed_end(s.drop_last());
        assert(s =~= s.drop_last().push(s.last()));
        lemma_words_pushed(s.drop_last(), s.last());
    }
}

/// Nothing is added.
pub proof fn lemma_trimmed_is_shorter(s: Seq<char>)
    ensures
        trimmed(s).len() <= s.len(),
{
    lemma_trimmed_start(s);
    lemma_trimmed_end(trimmed_start(s));
}

/// White space is taken off the end only as far as it goes.
pub proof fn lemma_trimmed_keeps(s: Seq<char>, k: int)
    requires
        0 <= k < s.len(),
        !white_space(s[0]),
        !white_space(s[k]),
    ensures
        trimmed(s).len() > k,
        forall|i: int| 0 <= i <= k ==> trimmed(s)[i] == s[i],
{
    lemma_trimmed_end_keeps(s, k);
}

proof fn lemma_trimmed_end_keeps(s: Seq<char>, k: int)
    requires
        0 <= k < s.len(),
        !white_space(s[k]),
    ensures
        trimmed_end(s).len() > k,
        forall|i: int| 0 <= i <= k ==> trimmed_end(s)[i] == s[i],
    decreases s.len(),
{
    if white_space(s.last()) {
        assert(k < s.len() - 1);
        assert(s.drop_last()[k] == s[k]);
        lemma_trimmed_end_keeps(s.drop_last(), k);
    }
    lemma_trimmed_end(s);
    let n = trimmed_end(s).len() as int;
    assert forall|i: int| 0 <= i <= k implies trimmed_end(s)[i] == s[i] by {
        assert(s.subrange(0, n)[i] == s[i]);
    }
}

/// Text without white space at its ends is left as it is, whatever white space stood in front of it.
pub proof fn lemma_bare_text(lead: Seq<char>, s: Seq<char>)
    requires
        all_white(lead),
        s.len() > 0,
        !white_space(s[0]),
        !white_space(s[s.len() - 1]),
    ensures
        trimmed(lead + s) == s,
        trimmed(s) == s,
{
    lemma_white_in_front(lead, s);
    lemma_trimmed_keeps(s, s.len() - 1);
    lemma_trimmed_is_shorter(s);
    assert(trimmed(s) =~= s);
    assert(trimmed_start(s) == s);
}

/// The digits of a number go from the highest to the lowest: one more digit behind a number makes the
/// number so many times as great as the base is, and that digit more. A digit below ten is one of 0 to
/// 9, above it one of a to f, in either case. A plus sign in front changes nothing; without a digit, with
/// a character that is none, or with a number above the greatest there is no number.
pub proof fn law_digits_make_numbers(s: Seq<char>, c: char, base: nat, max: nat)
    requires
        2 <= base <= 16,
    ensures
        ({
            let value = if '0' <= c && c <= '9' {
                c as int - 48
            } else if 'a' <= c && c <= 'f' {
                c as int - 97 + 10
            } else if 'A' <= c && c <= 'F' {
                c as int - 65 + 10
            } else {
                99
            };
            let before = unsigned_value(s, base, max);
            let after = unsigned_value(s.push(c), base, max);
            &&& value >= base ==> after is None || (s.len() == 0 && c == '+')
            &&& before is Some && value < base && before->0 * base + value <= max ==> after == Some(
                (before->0 * base + value) as nat,
            )
            &&& before is Some && value < base && before->0 * base + value > max ==> after is None
            &&& value < base && value <= max ==> unsigned_value(seq![c], base, max) == Some(
                value as nat,
            )
            &&& unsigned_value(Seq::empty(), base, max) is None
            &&& s.len() > 0 && s[0] != '+' ==> unsigned_value(seq!['+'] + s, base, max)
                == unsigned_value(s, base, max)
        }),
{
    let p = s.push(c);
    let one = seq![c];
    assert(one.drop_last() =~= Seq::<char>::empty());
    assert(digits_value(Seq::<char>::empty(), base) == 0);
    assert(one =~= Seq::<char>::empty().push(c));
    lemma_digit_behind(Seq::empty(), c, base);
    assert(0 * base == 0) by (nonlinear_arith);
    assert(digits_value(one, base) == digit_value(c));
    if s.len() > 0 && s[0] == '+' {
        let d = s.subrange(1, s.len() as int);
        let e = p.subrange(1, p.len() as int);
        assert(e =~= d.push(c));
        assert(e.drop_last() =~= d);
        assert(e.last() == c);
        lemma_digit_behind(d, c, base);
    } else {
        assert(p.drop_last() =~= s);
        if s.len() > 0 {
            assert(p[0] == s[0]);
        }
        lemma_digit_behind(s, c, base);
        if s.len() == 0 && c == '+' {
            assert(p.subrange(1, 1) =~= Seq::<char>::empty());
        }
    }
    assert((seq!['+'] + s).subrange(1, (s.len() + 1) as int) =~= s);
}

proof fn lemma_digit_behind(d: Seq<char>, c: char, base: nat)
    ensures
        all_digits(d.push(c), base) <==> all_digits(d, base) && digit_value(c) < base,
        digits_value(d.push(c), base) == digits_value(d, base) * base + digit_value(c),
{
    let e = d.push(c);
    assert(e.drop_last() =~= d);
    if all_digits(e, base) {
        assert forall|i: int| 0 <= i < d.len() implies digit_value(#[trigger] d[i]) < base by {
            assert(e[i] == d[i]);
        }
        assert(e[d.len() as int] == c);
    }
}

/// Of the ASCII characters, white space is the space, the tab, the line feed and the three characters
/// behind it, up to the carriage return, and no other.
pub proof fn law_white_space_in_ascii(c: char)
    requires
        c as u32 <= 0x7f,
    ensures
        white_space(c) <==> c == ' ' || c == '\t' || c == '\n' || c == '\r' || c as u32 == 11 || c
            as u32 == 12,
{
}

/// Trimming takes off all white space at the two ends, and nothing else: what stands between is as it
/// was.
pub proof fn law_trimming_takes_white_space_off(lead: Seq<char>, s: Seq<char>, trail: Seq<char>)
    requires
        all_white(lead),
        all_white(trail),
        s.len() > 0 ==> !white_space(s[0]) && !white_space(s[s.len() - 1]),
    ensures
        trimmed(lead + (s + trail)) == s,
{
    lemma_white_in_front(lead, s + trail);
    if s.len() > 0 {
        assert((s + trail)[0] == s[0]);
        assert(trimmed_start(s + trail) == s + trail);
        lemma_white_behind(s, trail);
    } else {
        assert(s + trail =~= trail);
        assert(trail + s =~= trail);
        lemma_white_in_front(trail, s);
        assert(trimmed_start(s) == s);
        assert(trimmed_start(trail) == s);
        assert(trimmed_end(s) == s);
    }
}

proof fn lemma_white_behind(s: Seq<char>, trail: Seq<char>)
    requires
        all_white(trail),
        s.len() > 0,
        !white_space(s[s.len() - 1]),
    ensures
        trimmed_end(s + trail) == s,
    decreases trail.len(),
{
    if trail.len() == 0 {
        assert(s + trail =~= s);
    } else {
        let fewer = trail.drop_last();
        assert((s + trail).drop_last() =~= s + fewer);
        assert((s + trail).last() == trail[trail.len() - 1]);
        assert forall|i: int| 0 <= i < fewer.len() implies white_space(#[trigger] fewer[i]) by {
            assert(fewer[i] == trail[i]);
        }
        lemma_white_behind(s, fewer);
    }
}

} // verus!
