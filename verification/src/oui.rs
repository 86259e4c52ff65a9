//! The makers of network devices, by the first three bytes of a hardware address.

use crate::text::{self, has_hex_digit, is_hex_digit};
use std::collections::HashMap;
use vstd::prelude::*;

verus! {

broadcast use {vstd::string::group_string_axioms, vstd::std_specs::hash::group_hash_axioms};

/// The character stands between the bytes of a prefix.
pub open spec fn is_separator(c: char) -> bool {
    c == '-' || c == ':'
}

/// The text is a prefix: three bytes of two digits each, with a dash or a colon between them.
pub open spec fn oui_shaped(s: Seq<char>) -> bool {
    &&& s.len() == 8
    &&& is_hex_digit(s[0]) && is_hex_digit(s[1]) && is_separator(s[2])
    &&& is_hex_digit(s[3]) && is_hex_digit(s[4]) && is_separator(s[5])
    &&& is_hex_digit(s[6]) && is_hex_digit(s[7])
}

/// The number that three bytes make, the first one highest.
pub open spec fn prefix_number(a: u8, b: u8, c: u8) -> u32 {
    (a * 0x1_0000 + b * 0x100 + c) as u32
}

/// The number of a prefix.
pub open spec fn oui_number(s: Seq<char>) -> u32 {
    prefix_number(
        text::unsigned_value(s.subrange(0, 2), 16, 255)->0 as u8,
        text::unsigned_value(s.subrange(3, 5), 16, 255)->0 as u8,
        text::unsigned_value(s.subrange(6, 8), 16, 255)->0 as u8,
    )
}

/// What stands before the first space of a line, and what behind it; none where there is no space.
pub open spec fn halves(line: Seq<char>) -> Option<(Seq<char>, Seq<char>)> {
    let i = text::first_index(line, ' ');
    if i < line.len() {
        Some((line.subrange(0, i), line.subrange(i + 1, line.len() as int)))
    } else {
        None
    }
}

/// How many characters the mark of an entry has with which the text starts; zero where it has none.
pub open spec fn mark_length(rest: Seq<char>) -> int {
    if "(hex)"@.is_prefix_of(rest) {
        5
    } else if "(base 16)"@.is_prefix_of(rest) {
        9
    } else {
        0
    }
}

/// The prefix of a line and what stands behind the mark of an entry, where the line has both.
pub open spec fn marked_part(line: Seq<char>) -> Option<(Seq<char>, Seq<char>)> {
    let l = text::trimmed(line);
    if l.len() == 0 || l[0] == '#' {
        None
    } else {
        match halves(l) {
            None => None,
            Some((oui, rest)) => {
                let o = text::trimmed(oui);
                let r = text::trimmed(rest);
                if oui_shaped(o) && mark_length(r) > 0 {
                    Some((o, r.subrange(mark_length(r), r.len() as int)))
                } else {
                    None
                }
            },
        }
    }
}

/// The entry of a line: the number of the prefix, and the maker, which stands behind the mark.
pub open spec fn entry_of(line: Seq<char>) -> Option<(u32, Seq<char>)> {
    match marked_part(line) {
        Some((o, r)) => {
            let maker = text::trimmed(r);
            if maker.len() > 0 {
                Some((oui_number(o), maker))
            } else {
                None
            }
        },
        None => None,
    }
}

/// The makers that the lines name. Of two lines with the same prefix the first counts.
pub open spec fn makers(lines: Seq<Seq<char>>) -> Map<u32, Seq<char>>
    decreases lines.len(),
{
    if lines.len() == 0 {
        Map::empty()
    } else {
        let before = makers(lines.drop_last());
        match entry_of(lines.last()) {
            Some((k, v)) => if before.contains_key(k) {
                before
            } else {
                before.insert(k, v)
            },
            None => before,
        }
    }
}

/// The maker of a device with the hardware address.
pub open spec fn maker_of(db: Map<u32, Seq<char>>, mac: Seq<u8>) -> Option<Seq<char>> {
    let key = prefix_number(mac[0], mac[1], mac[2]);
    if db.contains_key(key) {
        Some(db[key])
    } else {
        None
    }
}

fn separator(c: char) -> (r: bool)
    ensures
        r == is_separator(c),
{
    c == '-' || c == ':'
}

fn is_oui(s: &[char]) -> (r: bool)
    ensures
        r == oui_shaped(s@),
{
    s.len() == 8 && has_hex_digit(s[0]) && has_hex_digit(s[1]) && separator(s[2]) && has_hex_digit(
        s[3],
    ) && has_hex_digit(s[4]) && separator(s[5]) && has_hex_digit(s[6]) && has_hex_digit(s[7])
}

/// Whether a text is a prefix: three bytes of two digits each, with a dash or a colon between them.
pub fn is_oui_format(s: &str) -> (r: bool)
    ensures
        r == oui_shaped(s@),
{
    let c = text::chars_of(s);
    is_oui(c.as_slice())
}

/// Two digits of base sixteen write a byte.
proof fn lemma_two_digits(s: Seq<char>)
    requires
        s.len() == 2,
        is_hex_digit(s[0]),
        is_hex_digit(s[1]),
    ensures
        text::unsigned_value(s, 16, 255) is Some,
{
    let (h, l) = (text::digit_value(s[0]), text::digit_value(s[1]));
    assert(h < 16 && l < 16);
    assert(s.drop_last().drop_last() =~= Seq::<char>::empty());
    assert(s.drop_last().last() == s[0]);
    assert(text::digits_value(s.drop_last().drop_last(), 16) == 0);
    assert(text::digits_value(s.drop_last(), 16) == h);
    assert(text::digits_value(s, 16) == h * 16 + l);
}

fn byte_of(s: &[char]) -> (r: u8)
    requires
        s@.len() == 2,
        is_hex_digit(s@[0]),
        is_hex_digit(s@[1]),
    ensures
        r == text::unsigned_value(s@, 16, 255)->0 as u8,
{
    proof {
        lemma_two_digits(s@);
    }
    match text::parse_unsigned(s, 16, 255) {
        Some(n) => n as u8,
        None => 0,
    }
}

fn number_of(s: &[char]) -> (r: u32)
    requires
        oui_shaped(s@),
    ensures
        r == oui_number(s@),
{
    let a: u8 = byte_of(&s[0..2]);
    let b: u8 = byte_of(&s[3..5]);
    let c: u8 = byte_of(&s[6..8]);
    a as u32 * 0x1_0000 + b as u32 * 0x100 + c as u32
}

fn mark_of(p: &[char]) -> (r: usize)
    ensures
        r == mark_length(p@),
        r <= p@.len(),
{
    proof {
        reveal_strlit("(hex)");
        reveal_strlit("(base 16)");
    }
    if text::starts_with(p, "(hex)") {
        5
    } else if text::starts_with(p, "(base 16)") {
        9
    } else {
        0
    }
}

fn part_of(line: &[char]) -> (r: Option<(Vec<char>, Vec<char>)>)
    ensures
        match r {
            Some((o, p)) => marked_part(line@) == Some((o@, p@)),
            None => marked_part(line@) is None,
        },
{
    let l: &[char] = text::trim(line);
    if l.len() == 0 || l[0] == '#' {
        return None;
    }
    let i: usize = text::find_from(l, 0, ' ');
    assert(l@.subrange(0, l@.len() as int) =~= l@);
    if i >= l.len() {
        return None;
    }
    let o = text::trim(&l[0..i]);
    let p = text::trim(&l[i + 1..l.len()]);
    let n: usize = mark_of(p);
    if is_oui(o) && n > 0 {
        Some((text::copy_chars(o), text::copy_chars(&p[n..p.len()])))
    } else {
        None
    }
}

/// The makers of network devices, by the first three bytes of a hardware address.
pub struct OuiDb {
    map: HashMap<u32, String>,
}

impl View for OuiDb {
    type V = Map<u32, Seq<char>>;

    closed spec fn view(&self) -> Map<u32, Seq<char>> {
        self.map@.map_values(|s: String| s@)
    }
}

impl OuiDb {
    /// Reads the registry of prefixes, in which a line such as
    /// `3C-22-FB   (hex)        Apple, Inc.` names the maker of a prefix.
    pub fn new(registry: &str) -> (r: OuiDb)
        ensures
            r@ == makers(text::pieces(registry@, '\n')),
    {
        let c = text::chars_of(registry);
        let lines = text::split(c.as_slice(), '\n');
        let ghost all = text::pieces(registry@, '\n');
        let mut db = OuiDb { map: HashMap::new() };
        let mut i: usize = 0;
        assert(db@ =~= makers(all.subrange(0, 0)));
        while i < lines.len()
            invariant
                i <= lines@.len(),
                lines@.len() == all.len(),
                all == text::pieces(registry@, '\n'),
                forall|k: int| 0 <= k < lines@.len() ==> (#[trigger] lines@[k])@ == all[k],
                db@ == makers(all.subrange(0, i as int)),
            decreases lines@.len() - i,
        {
            proof {
                let longer = all.subrange(0, i + 1);
                assert(longer.drop_last() =~= all.subrange(0, i as int));
                assert(longer.last() == lines@[i as int]@);
            }
            match part_of(lines[i].as_slice()) {
                Some((o, p)) => {
                    let maker = text::trim(p.as_slice());
                    if maker.len() > 0 {
                        let ghost was = db@;
                        let key: u32 = number_of(o.as_slice());
                        if !db.map.contains_key(&key) {
                            let name = text::string_of(maker);
                            db.map.insert(key, name);
                            assert(db@ =~= was.insert(key, maker@));
                        }
                    }
                },
                None => {},
            }
            i += 1;
        }
        assert(all.subrange(0, all.len() as int) =~= all);
        db
    }

    /// The maker of a device with the hardware address; none where the prefix is not known.
    pub fn lookup(&self, mac: &[u8; 6]) -> (r: Option<&str>)
        ensures
            match r {
                Some(s) => maker_of(self@, mac@) == Some(s@),
                None => maker_of(self@, mac@) is None,
            },
    {
        let key: u32 = mac[0] as u32 * 0x1_0000 + mac[1] as u32 * 0x100 + mac[2] as u32;
        match self.map.get(&key) {
            Some(s) => Some(s.as_str()),
            None => None,
        }
    }

    /// How many prefixes are known.
    pub fn len(&self) -> (r: usize)
        ensures
            r == self@.dom().len(),
    {
        assert(self@.dom() =~= self.map@.dom());
        self.map.len()
    }

    /// Whether no prefix is known.
    pub fn is_empty(&self) -> (r: bool)
        ensures
            r == (self@.dom().len() == 0),
    {
        self.len() == 0
    }
}

/// Two prefixes never share a number.
pub proof fn law_prefixes_are_told_apart(a: (u8, u8, u8), b: (u8, u8, u8))
    ensures
        prefix_number(a.0, a.1, a.2) == prefix_number(b.0, b.1, b.2) <==> a == b,
{
}

/// Only the first three bytes of an address count: addresses that share them have the same maker.
pub proof fn law_maker_goes_by_prefix(db: Map<u32, Seq<char>>, a: Seq<u8>, b: Seq<u8>)
    requires
        a.len() == 6,
        b.len() == 6,
        a.subrange(0, 3) == b.subrange(0, 3),
    ensures
        maker_of(db, a) == maker_of(db, b),
{
    assert(a.subrange(0, 3)[0] == a[0] && a.subrange(0, 3)[1] == a[1] && a.subrange(0, 3)[2]
        == a[2]);
    assert(b.subrange(0, 3)[0] == b[0] && b.subrange(0, 3)[1] == b[1] && b.subrange(0, 3)[2]
        == b[2]);
}

/// A maker that a registry gives has a name that is not empty and has no white space at its ends.
pub proof fn law_names_are_trimmed(lines: Seq<Seq<char>>, mac: Seq<u8>)
    requires
        maker_of(makers(lines), mac) is Some,
    ensures
        ({
            let name = maker_of(makers(lines), mac)->0;
            name.len() > 0 && !text::white_space(name[0]) && !text::white_space(name.last())
        }),
    decreases lines.len(),
{
    if lines.len() > 0 {
        if maker_of(makers(lines.drop_last()), mac) is Some {
            law_names_are_trimmed(lines.drop_last(), mac);
        } else {
            let (_, behind) = marked_part(lines.last())->0;
            text::lemma_trimmed_ends(behind);
        }
    }
}

/// Of the lines with one prefix the first counts, whatever stands behind it.
pub proof fn law_first_line_counts(lines: Seq<Seq<char>>, i: int, key: u32, maker: Seq<char>)
    requires
        0 <= i < lines.len(),
        entry_of(lines[i]) == Some((key, maker)),
        forall|j: int|
            0 <= j < i ==> match entry_of(#[trigger] lines[j]) {
                Some((k, _)) => k != key,
                None => true,
            },
    ensures
        makers(lines).contains_key(key),
        makers(lines)[key] == maker,
    decreases lines.len(),
{
    let shorter = lines.drop_last();
    if i < lines.len() - 1 {
        assert(shorter[i] == lines[i]);
        assert forall|j: int| 0 <= j < i implies match entry_of(#[trigger] shorter[j]) {
            Some((k, _)) => k != key,
            None => true,
        } by {
            assert(shorter[j] == lines[j]);
        }
        law_first_line_counts(shorter, i, key, maker);
    } else {
        lemma_only_named(shorter, key);
    }
}

/// A prefix that no line names has no maker.
proof fn lemma_only_named(lines: Seq<Seq<char>>, key: u32)
    requires
        forall|j: int|
            0 <= j < lines.len() ==> match entry_of(#[trigger] lines[j]) {
                Some((k, _)) => k != key,
                None => true,
            },
    ensures
        !makers(lines).contains_key(key),
    decreases lines.len(),
{
    if lines.len() > 0 {
        let shorter = lines.drop_last();
        assert forall|j: int| 0 <= j < shorter.len() implies match entry_of(#[trigger] shorter[j]) {
            Some((k, _)) => k != key,
            None => true,
        } by {
            assert(shorter[j] == lines[j]);
        }
        assert(entry_of(lines[lines.len() - 1]) == entry_of(lines.last()));
        lemma_only_named(shorter, key);
    }
}

/// The value of a digit of base sixteen, in either case; none for any other character.
pub open spec fn nibble(c: char) -> Option<int> {
    if '0' <= c && c <= '9' {
        Some(c as int - 48)
    } else if 'a' <= c && c <= 'f' {
        Some(c as int - 97 + 10)
    } else if 'A' <= c && c <= 'F' {
        Some(c as int - 65 + 10)
    } else {
        None
    }
}

/// The text writes the three bytes, two digits each, with a dash or a colon between them.
pub open spec fn writes_prefix(s: Seq<char>, a: u8, b: u8, c: u8) -> bool {
    &&& s.len() == 8
    &&& s[2] == '-' || s[2] == ':'
    &&& s[5] == '-' || s[5] == ':'
    &&& nibble(s[0]) is Some && nibble(s[1]) is Some && nibble(s[0])->0 * 16 + nibble(s[1])->0 == a
    &&& nibble(s[3]) is Some && nibble(s[4]) is Some && nibble(s[3])->0 * 16 + nibble(s[4])->0 == b
    &&& nibble(s[6]) is Some && nibble(s[7]) is Some && nibble(s[6])->0 * 16 + nibble(s[7])->0 == c
}

proof fn lemma_byte_of_digits(s: Seq<char>, n: u8)
    requires
        s.len() == 2,
        nibble(s[0]) is Some,
        nibble(s[1]) is Some,
        nibble(s[0])->0 * 16 + nibble(s[1])->0 == n,
    ensures
        text::unsigned_value(s, 16, 255) == Some(n as nat),
{
    let one = seq![s[0]];
    assert(s =~= one.push(s[1]));
    text::law_digits_make_numbers(Seq::empty(), s[0], 16, 255);
    text::law_digits_make_numbers(one, s[1], 16, 255);
}

/// A line of the registry gives a prefix its maker: three bytes in digits of base sixteen, a space, more
/// white space, the mark `(hex)` or `(base 16)`, white space, and the name, as it stands there.
pub proof fn law_line_names_the_maker(
    prefix: Seq<char>,
    a: u8,
    b: u8,
    c: u8,
    gap: Seq<char>,
    mark: Seq<char>,
    space: Seq<char>,
    name: Seq<char>,
)
    requires
        writes_prefix(prefix, a, b, c),
        text::all_white(gap),
        text::all_white(space),
        mark == "(hex)"@ || mark == "(base 16)"@,
        name.len() > 0,
        !text::white_space(name[0]),
        !text::white_space(name[name.len() - 1]),
    ensures
        entry_of(prefix + (seq![' '] + (gap + (mark + (space + name))))) == Some(
            ((a * 65536 + b * 256 + c) as u32, name),
        ),
{
    reveal_strlit("(hex)");
    reveal_strlit("(base 16)");
    let part = space + name;
    let marked = mark + part;
    let rest = gap + marked;
    let line = prefix + (seq![' '] + rest);
    assert(part[part.len() - 1] == name[name.len() - 1]);
    assert(marked[marked.len() - 1] == name[name.len() - 1]);
    assert(marked[0] == '(');
    assert(line[line.len() - 1] == name[name.len() - 1]);
    assert(line[0] == prefix[0]);
    text::lemma_bare_text(Seq::empty(), line);
    assert forall|j: int| 0 <= j < 8 implies line[j] != ' ' by {
        assert(line[j] == prefix[j]);
        assert(prefix[0] != ' ' && prefix[1] != ' ' && prefix[2] != ' ' && prefix[3] != ' '
            && prefix[4] != ' ' && prefix[5] != ' ' && prefix[6] != ' ' && prefix[7] != ' ');
    }
    text::lemma_first_index_is(line, ' ', 8);
    assert(line.subrange(0, 8) =~= prefix);
    assert(line.subrange(9, line.len() as int) =~= rest);
    text::lemma_bare_text(Seq::empty(), prefix);
    text::lemma_bare_text(gap, marked);
    assert(marked.subrange(0, mark.len() as int) =~= mark);
    assert(marked[1] == mark[1]);
    if mark == "(base 16)"@ && "(hex)"@.is_prefix_of(marked) {
        assert(marked.subrange(0, 5)[1] == 'h');
        assert(mark[1] == 'b');
    }
    assert(marked.subrange(mark.len() as int, marked.len() as int) =~= part);
    text::lemma_bare_text(space, name);
    lemma_byte_of_digits(prefix.subrange(0, 2), a);
    lemma_byte_of_digits(prefix.subrange(3, 5), b);
    lemma_byte_of_digits(prefix.subrange(6, 8), c);
}

/// The maker of a device is the one that the registry gives the first three bytes of its address.
pub proof fn law_device_has_the_maker_of_its_prefix(db: Map<u32, Seq<char>>, mac: Seq<u8>)
    requires
        mac.len() == 6,
    ensures
        ({
            let key = (mac[0] * 65536 + mac[1] * 256 + mac[2]) as u32;
            &&& maker_of(db, mac) is Some <==> db.contains_key(key)
            &&& db.contains_key(key) ==> maker_of(db, mac) == Some(db[key])
        }),
{
}

} // verus!
