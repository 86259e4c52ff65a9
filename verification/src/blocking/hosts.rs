//! Blocklists in the format of a hosts file.

use crate::blocking::domain_set::{self, members};
use crate::text;
use vstd::prelude::*;

verus! {

broadcast use vstd::string::group_string_axioms;

/// The least number of domains that a fetched list must hold to be taken.
pub const MIN_DOMAINS: usize = 1000;

/// A name that hosts files give to the machine itself or to a network. The names of the machine
/// count in whatever case they are written, the others only as they stand here.
pub open spec fn is_local_name(h: Seq<char>) -> bool {
    let l = text::lowercase(h);
    ||| l == "localhost"@
    ||| l == "localhost.localdomain"@
    ||| h == "broadcasthost"@
    ||| h == "255.255.255.255"@
    ||| h == "::1"@
    ||| "local"@.is_prefix_of(h)
}

/// The domain that a line blocks, in lowercase. A line blocks the second of its words where the
/// first is 0.0.0.0 or 127.0.0.1 and the second is no local name; comments block nothing.
pub open spec fn blocked_by_line(line: Seq<char>) -> Option<Seq<char>> {
    let l = text::trimmed(line);
    let w = text::words(l);
    if l.len() == 0 || l[0] == '#' || w.len() < 2 {
        None
    } else if w[0] != "0.0.0.0"@ && w[0] != "127.0.0.1"@ {
        None
    } else if is_local_name(w[1]) {
        None
    } else {
        Some(text::lowercase(w[1]))
    }
}

/// The domains that the lines block, each once, in the order in which they first occur.
pub open spec fn blocked_by_lines(lines: Seq<Seq<char>>) -> Seq<Seq<char>>
    decreases lines.len(),
{
    if lines.len() == 0 {
        Seq::empty()
    } else {
        let before = blocked_by_lines(lines.drop_last());
        match blocked_by_line(lines.last()) {
            Some(d) => if before.contains(d) {
                before
            } else {
                before.push(d)
            },
            None => before,
        }
    }
}

/// The domains that a hosts file blocks.
pub open spec fn blocked_by_file(content: Seq<char>) -> Seq<Seq<char>> {
    blocked_by_lines(text::pieces(content, '\n'))
}

/// Whether a name, of which the lowercase form is given too, is a local one.
fn local_name(h: &[char], lower: &str) -> (r: bool)
    requires
        lower@ == text::lowercase(h@),
    ensures
        r == is_local_name(h@),
{
    text::same_text(lower, "localhost") || text::same_text(lower, "localhost.localdomain")
        || text::is_text(h, "broadcasthost") || text::is_text(h, "255.255.255.255")
        || text::is_text(h, "::1") || text::starts_with(h, "local")
}

/// The text `d` is the text `h` with the letters A to Z in lowercase: of the same length, and
/// otherwise the same character by character.
pub open spec fn lowered(h: Seq<char>, d: Seq<char>) -> bool {
    &&& d.len() == h.len()
    &&& forall|i: int|
        0 <= i < h.len() ==> (if 'A' <= h[i] && h[i] <= 'Z' {
            (#[trigger] d[i]) as int == h[i] as int + 32
        } else {
            d[i] == h[i]
        })
}

/// The domain is the second word of the line in lowercase; where that word is ASCII, letter by letter.
pub open spec fn is_listed(line: Seq<char>, d: Seq<char>) -> bool {
    let w = text::words(text::trimmed(line));
    w.len() >= 2 && d == text::lowercase(w[1]) && (text::all_ascii(w[1]) ==> lowered(w[1], d))
}

/// The domain that a line blocks.
fn read_line(line: &[char]) -> (r: Option<String>)
    ensures
        match r {
            Some(d) => blocked_by_line(line@) == Some(d@),
            None => blocked_by_line(line@) is None,
        },
        r matches Some(d) ==> is_listed(line@, d@),
{
    let l: &[char] = text::trim(line);
    if l.len() == 0 || l[0] == '#' {
        return None;
    }
    let w = text::split_words(l);
    if w.len() < 2 {
        return None;
    }
    if !text::is_text(w[0].as_slice(), "0.0.0.0") && !text::is_text(w[0].as_slice(), "127.0.0.1") {
        return None;
    }
    let d = text::string_of(w[1].as_slice());
    let lower = text::to_lowercase(d.as_str());
    if local_name(w[1].as_slice(), lower.as_str()) {
        return None;
    }
    Some(lower)
}

/// Reads a hosts file: the domains that it blocks, each once.
pub fn parse_hosts_file(content: &str) -> (r: Vec<String>)
    ensures
        text::texts(r@) == blocked_by_file(content@),
        // A domain stands in the file as the second word of a line, letters in lowercase.
        forall|k: int|
            0 <= k < r@.len() ==> exists|i: int|
                0 <= i < text::pieces(content@, '\n').len() && is_listed(
                    #[trigger] text::pieces(content@, '\n')[i],
                    (#[trigger] r@[k])@,
                ),
{
    let c = text::chars_of(content);
    let lines = text::split(c.as_slice(), '\n');
    let ghost all = text::pieces(content@, '\n');
    let mut out: Vec<String> = Vec::new();
    let mut seen = domain_set::new_set();
    let mut i: usize = 0;
    assert(text::texts(out@) =~= Seq::empty());
    while i < lines.len()
        invariant
            i <= lines@.len(),
            lines@.len() == all.len(),
            all == text::pieces(content@, '\n'),
            forall|k: int| 0 <= k < lines@.len() ==> (#[trigger] lines@[k])@ == all[k],
            text::texts(out@) == blocked_by_lines(all.subrange(0, i as int)),
            forall|k: int|
                0 <= k < out@.len() ==> exists|j: int|
                    0 <= j < all.len() && is_listed(#[trigger] all[j], (#[trigger] out@[k])@),
            forall|d: Seq<char>| #[trigger]
                members(seen).contains(d) <==> text::texts(out@).contains(d),
        decreases lines@.len() - i,
    {
        proof {
            let longer = all.subrange(0, i + 1);
            assert(longer.drop_last() =~= all.subrange(0, i as int));
            assert(longer.last() == lines@[i as int]@);
        }
        match read_line(lines[i].as_slice()) {
            Some(d) => {
                let ghost before = text::texts(out@);
                let ghost had = members(seen);
                if domain_set::insert(&mut seen, d.clone()) {
                    let ghost new = d@;
                    out.push(d);
                    proof {
                        assert(text::texts(out@) =~= before.push(new));
                        assert forall|x: Seq<char>| #[trigger] members(seen).contains(x)
                            <==> text::texts(out@).contains(x) by {
                            assert(had.contains(x) <==> before.contains(x));
                            if before.contains(x) {
                                let j = choose|j: int| 0 <= j < before.len() && before[j] == x;
                                assert(before.push(new)[j] == x);
                            }
                            if x == new {
                                assert(before.push(new)[before.len() as int] == x);
                            }
                            if before.push(new).contains(x) && x != new {
                                let j = choose|j: int|
                                    0 <= j < before.push(new).len() && before.push(new)[j] == x;
                                assert(before[j] == x);
                            }
                        }
                    }
                } else {
                    assert(members(seen) =~= had);
                }
            },
            None => {},
        }
        i += 1;
    }
    assert(all.subrange(0, all.len() as int) =~= all);
    out
}

/// The domains of a fetched list; where there are too few of them, how many there were. A list
/// with fewer domains is taken for a failed download.
pub fn domains_to_import(content: &str) -> (r: Result<Vec<String>, usize>)
    ensures
        match r {
            Ok(v) => blocked_by_file(content@).len() >= 1000 && text::texts(v@)
                == blocked_by_file(content@),
            Err(n) => n == blocked_by_file(content@).len() && n < 1000,
        },
{
    let domains = parse_hosts_file(content);
    assert(text::texts(domains@).len() == domains@.len());
    if domains.len() < MIN_DOMAINS {
        Err(domains.len())
    } else {
        Ok(domains)
    }
}

proof fn lemma_no_duplicates(lines: Seq<Seq<char>>)
    ensures
        blocked_by_lines(lines).no_duplicates(),
        forall|d: Seq<char>| #[trigger]
            blocked_by_lines(lines).contains(d) <==> exists|i: int|
                0 <= i < lines.len() && blocked_by_line(#[trigger] lines[i]) == Some(d),
    decreases lines.len(),
{
    if lines.len() > 0 {
        let shorter = lines.drop_last();
        lemma_no_duplicates(shorter);
        let before = blocked_by_lines(shorter);
        let now = blocked_by_lines(lines);
        assert forall|d: Seq<char>| #[trigger] now.contains(d) <==> exists|i: int|
            0 <= i < lines.len() && blocked_by_line(#[trigger] lines[i]) == Some(d) by {
            if now.contains(d) {
                let j = choose|j: int| 0 <= j < now.len() && now[j] == d;
                if j < before.len() {
                    assert(before[j] == d);
                    assert(before.contains(d));
                    let i = choose|i: int|
                        0 <= i < shorter.len() && blocked_by_line(#[trigger] shorter[i]) == Some(d);
                    assert(lines[i] == shorter[i]);
                } else {
                    assert(blocked_by_line(lines[lines.len() - 1]) == Some(d));
                }
            }
            if exists|i: int| 0 <= i < lines.len() && blocked_by_line(#[trigger] lines[i]) == Some(d) {
                let i = choose|i: int|
                    0 <= i < lines.len() && blocked_by_line(#[trigger] lines[i]) == Some(d);
                if i < shorter.len() {
                    assert(shorter[i] == lines[i]);
                    assert(before.contains(d));
                    let j = choose|j: int| 0 <= j < before.len() && before[j] == d;
                    assert(now[j] == d);
                } else if before.contains(d) {
                    let j = choose|j: int| 0 <= j < before.len() && before[j] == d;
                    assert(now[j] == d);
                } else {
                    assert(now[before.len() as int] == d);
                }
            }
        }
        assert forall|a: int, b: int| 0 <= a < b < now.len() implies now[a] != now[b] by {
            if b == before.len() {
                if now[a] == now[b] {
                    assert(before[a] == now[b]);
                    assert(before.contains(now[b]));
                }
            }
        }
    }
}

/// A hosts file blocks each domain once, and it blocks just the domains that one of its lines
/// blocks.
pub proof fn law_hosts_file_blocks_each_domain_once(content: Seq<char>)
    ensures
        blocked_by_file(content).no_duplicates(),
        forall|d: Seq<char>| #[trigger]
            blocked_by_file(content).contains(d) <==> exists|i: int|
                0 <= i < text::pieces(content, '\n').len() && blocked_by_line(
                    #[trigger] text::pieces(content, '\n')[i],
                ) == Some(d),
{
    lemma_no_duplicates(text::pieces(content, '\n'));
}

/// A line of a hosts file in its parts: an address, a gap of white space, a name, and what follows
/// the name behind more white space, if anything. White space may stand in front.
pub open spec fn entry_line(
    lead: Seq<char>,
    ip: Seq<char>,
    gap: Seq<char>,
    name: Seq<char>,
    rest: Seq<char>,
) -> Seq<char> {
    lead + (ip + (gap + (name + rest)))
}

/// The parts are parts of a line: the gaps are white space, the words are not.
pub open spec fn are_parts(
    lead: Seq<char>,
    ip: Seq<char>,
    gap: Seq<char>,
    name: Seq<char>,
    rest: Seq<char>,
) -> bool {
    &&& text::all_white(lead) && text::all_white(gap) && gap.len() > 0
    &&& text::none_white(ip) && ip.len() > 0
    &&& text::none_white(name) && name.len() > 0
    &&& rest.len() > 0 ==> text::white_space(rest[0])
}

proof fn lemma_parts(
    lead: Seq<char>,
    ip: Seq<char>,
    gap: Seq<char>,
    name: Seq<char>,
    rest: Seq<char>,
)
    requires
        are_parts(lead, ip, gap, name, rest),
    ensures
        ({
            let l = text::trimmed(entry_line(lead, ip, gap, name, rest));
            let w = text::words(l);
            l.len() > 0 && l[0] == ip[0] && w.len() >= 2 && w[0] == ip && w[1] == name
        }),
{
    let tail = gap + (name + rest);
    let line = entry_line(lead, ip, gap, name, rest);
    assert(tail[0] == gap[0]);
    text::lemma_white_in_front(lead, ip + tail);
    text::lemma_word_in_front(ip, tail);
    text::lemma_white_in_front(gap, name + rest);
    text::lemma_word_in_front(name, rest);
    text::lemma_words_trimmed(line);
    assert(text::words(line) == seq![ip] + (seq![name] + text::words(rest)));
    assert((ip + tail)[0] == ip[0]);
    text::lemma_trimmed_keeps(ip + tail, 0);
    assert(text::trimmed_start(ip + tail) == ip + tail);
    assert(text::trimmed(line) == text::trimmed(ip + tail));
}

/// A line that gives the address 0.0.0.0 or 127.0.0.1 to a name blocks exactly that name, in
/// lowercase and otherwise as it stands, whatever follows it on the line: unless the name is one of
/// the machine itself (`localhost` or `localhost.localdomain`, in any case), `broadcasthost`,
/// 255.255.255.255 or ::1, or starts with `local`.
pub proof fn law_listed_name_is_blocked(
    lead: Seq<char>,
    ip: Seq<char>,
    gap: Seq<char>,
    name: Seq<char>,
    rest: Seq<char>,
)
    requires
        are_parts(lead, ip, gap, name, rest),
        ip == seq!['0', '.', '0', '.', '0', '.', '0'] || ip == seq![
            '1',
            '2',
            '7',
            '.',
            '0',
            '.',
            '0',
            '.',
            '1',
        ],
    ensures
        ({
            let local = text::lowercase(name) == "localhost"@ || text::lowercase(name)
                == "localhost.localdomain"@ || name == "broadcasthost"@ || name
                == "255.255.255.255"@ || name == "::1"@ || "local"@.is_prefix_of(name);
            let blocked = blocked_by_line(entry_line(lead, ip, gap, name, rest));
            &&& local ==> blocked is None
            &&& !local ==> blocked == Some(text::lowercase(name))
        }),
{
    lemma_parts(lead, ip, gap, name, rest);
    reveal_strlit("0.0.0.0");
    reveal_strlit("127.0.0.1");
    assert("0.0.0.0"@ =~= seq!['0', '.', '0', '.', '0', '.', '0']);
    assert("127.0.0.1"@ =~= seq!['1', '2', '7', '.', '0', '.', '0', '.', '1']);
}

/// A line that gives another address to a name blocks nothing, and neither does a comment.
pub proof fn law_other_lines_block_nothing(
    lead: Seq<char>,
    ip: Seq<char>,
    gap: Seq<char>,
    name: Seq<char>,
    rest: Seq<char>,
)
    requires
        are_parts(lead, ip, gap, name, rest),
        ip[0] == '#' || (ip != seq!['0', '.', '0', '.', '0', '.', '0'] && ip != seq![
            '1',
            '2',
            '7',
            '.',
            '0',
            '.',
            '0',
            '.',
            '1',
        ]),
    ensures
        blocked_by_line(entry_line(lead, ip, gap, name, rest)) is None,
{
    lemma_parts(lead, ip, gap, name, rest);
    reveal_strlit("0.0.0.0");
    reveal_strlit("127.0.0.1");
    assert("0.0.0.0"@ =~= seq!['0', '.', '0', '.', '0', '.', '0']);
    assert("127.0.0.1"@ =~= seq!['1', '2', '7', '.', '0', '.', '0', '.', '1']);
}

/// A file is read line by line: the domains of its first lines come first, and further lines only
/// add to them.
pub proof fn law_domains_come_in_the_order_of_lines(lines: Seq<Seq<char>>, n: int)
    requires
        0 <= n <= lines.len(),
    ensures
        blocked_by_lines(lines.subrange(0, n)).is_prefix_of(blocked_by_lines(lines)),
    decreases lines.len() - n,
{
    assert(lines.subrange(0, lines.len() as int) =~= lines);
    if n < lines.len() {
        law_domains_come_in_the_order_of_lines(lines, n + 1);
        let longer = lines.subrange(0, n + 1);
        assert(longer.drop_last() =~= lines.subrange(0, n));
        assert(blocked_by_lines(lines.subrange(0, n)).is_prefix_of(blocked_by_lines(longer)));
    }
}

/// A list is taken only where it holds at least a thousand domains; it is taken as it is.
pub proof fn law_short_lists_are_not_taken(content: &str, r: Result<Vec<String>, usize>)
    requires
        domains_to_import.ensures((content,), r),
    ensures
        r is Ok <==> blocked_by_file(content@).len() >= 1000,
        r is Ok ==> text::texts(r->Ok_0@) == blocked_by_file(content@),
{
}

} // verus!
