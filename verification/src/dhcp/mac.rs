//! Hardware addresses.

use crate::text::{self, hex_byte, hex_digit, push_hex};
use vstd::prelude::*;

verus! {

broadcast use vstd::string::group_string_axioms;

/// A hardware address of six bytes.
#[derive(Clone, Copy, Debug, PartialEq, Eq, Structural, Hash)]
pub struct MacAddr(pub u8, pub u8, pub u8, pub u8, pub u8, pub u8);

impl MacAddr {
    /// The address as a number, which stands for it in a table.
    pub open spec fn number(&self) -> u64 {
        (self.0 * 0x100_0000_0000 + self.1 * 0x1_0000_0000 + self.2 * 0x100_0000 + self.3 * 0x1_0000
            + self.4 * 0x100 + self.5) as u64
    }

    /// The address as a number.
    pub fn key(&self) -> (r: u64)
        ensures
            r == self.number(),
    {
        self.0 as u64 * 0x100_0000_0000 + self.1 as u64 * 0x1_0000_0000 + self.2 as u64
            * 0x100_0000 + self.3 as u64 * 0x1_0000 + self.4 as u64 * 0x100 + self.5 as u64
    }

    /// The bytes in order.
    pub open spec fn bytes(&self) -> Seq<u8> {
        seq![self.0, self.1, self.2, self.3, self.4, self.5]
    }
}

/// Different addresses have different numbers.
pub proof fn lemma_number_injective(a: MacAddr, b: MacAddr)
    requires
        a.number() == b.number(),
    ensures
        a == b,
{
    let (a5, b5) = (a.5 as int, b.5 as int);
    let (a4, b4) = (a.4 * 0x100 + a5, b.4 * 0x100 + b5);
    let (a3, b3) = (a.3 * 0x1_0000 + a4, b.3 * 0x1_0000 + b4);
    let (a2, b2) = (a.2 * 0x100_0000 + a3, b.2 * 0x100_0000 + b3);
    let (a1, b1) = (a.1 * 0x1_0000_0000 + a2, b.1 * 0x1_0000_0000 + b2);
    lemma_leading_digit(a.0 as int, a1, b.0 as int, b1, 0x100_0000_0000);
    lemma_leading_digit(a.1 as int, a2, b.1 as int, b2, 0x1_0000_0000);
    lemma_leading_digit(a.2 as int, a3, b.2 as int, b3, 0x100_0000);
    lemma_leading_digit(a.3 as int, a4, b.3 as int, b4, 0x1_0000);
    lemma_leading_digit(a.4 as int, a5, b.4 as int, b5, 0x100);
}

proof fn lemma_leading_digit(h1: int, l1: int, h2: int, l2: int, m: int)
    by (nonlinear_arith)
    requires
        0 <= l1 < m,
        0 <= l2 < m,
        h1 * m + l1 == h2 * m + l2,
    ensures
        h1 == h2,
        l1 == l2,
{
}

/// The address written as six bytes in base sixteen with colons between them.
pub open spec fn mac_text(m: MacAddr) -> Seq<char> {
    hex_byte(m.0) + (seq![':'] + (hex_byte(m.1) + (seq![':'] + (hex_byte(m.2) + (seq![':'] + (
    hex_byte(m.3) + (seq![':'] + (hex_byte(m.4) + (seq![':'] + hex_byte(m.5))))))))))
}

/// The bytes that those pieces write which write a byte in base sixteen.
pub open spec fn hex_bytes(parts: Seq<Seq<char>>) -> Seq<u8>
    decreases parts.len(),
{
    if parts.len() == 0 {
        Seq::empty()
    } else {
        let before = hex_bytes(parts.drop_last());
        match text::unsigned_value(parts.last(), 16, 255) {
            Some(n) => before.push(n as u8),
            None => before,
        }
    }
}

/// The address that a text writes: the pieces between its colons must write six bytes, not all of
/// them zero. Pieces that write no byte are passed over.
pub open spec fn mac_of_text(s: Seq<char>) -> Option<MacAddr> {
    let v = hex_bytes(text::pieces(s, ':'));
    if v.len() == 6 {
        let m = MacAddr(v[0], v[1], v[2], v[3], v[4], v[5]);
        if m == MacAddr(0, 0, 0, 0, 0, 0) {
            None
        } else {
            Some(m)
        }
    } else {
        None
    }
}

impl MacAddr {
    /// The address written as six bytes in base sixteen with colons between them.
    pub fn to_text(&self) -> (r: String)
        ensures
            r@ == mac_text(*self),
    {
        let mut s = String::new();
        push_hex(&mut s, self.0);
        s.push(':');
        push_hex(&mut s, self.1);
        s.push(':');
        push_hex(&mut s, self.2);
        s.push(':');
        push_hex(&mut s, self.3);
        s.push(':');
        push_hex(&mut s, self.4);
        s.push(':');
        push_hex(&mut s, self.5);
        assert(s@ =~= mac_text(*self));
        s
    }

    /// Reads an address; none where the text writes no address, or the one with all bytes zero.
    pub fn from_text(s: &str) -> (r: Option<MacAddr>)
        ensures
            r == mac_of_text(s@),
    {
        let c = text::chars_of(s);
        let parts = text::split(c.as_slice(), ':');
        let ghost all = text::pieces(s@, ':');
        let mut v: Vec<u8> = Vec::new();
        let mut i: usize = 0;
        while i < parts.len()
            invariant
                i <= parts@.len(),
                parts@.len() == all.len(),
                forall|k: int| 0 <= k < parts@.len() ==> (#[trigger] parts@[k])@ == all[k],
                v@ == hex_bytes(all.subrange(0, i as int)),
            decreases parts@.len() - i,
        {
            proof {
                let longer = all.subrange(0, i + 1);
                assert(longer.drop_last() =~= all.subrange(0, i as int));
                assert(longer.last() == parts@[i as int]@);
            }
            match text::parse_unsigned(parts[i].as_slice(), 16, 255) {
                Some(n) => {
                    v.push(n as u8);
                },
                None => {},
            }
            i += 1;
        }
        assert(all.subrange(0, all.len() as int) =~= all);
        if v.len() == 6 {
            let m = MacAddr(v[0], v[1], v[2], v[3], v[4], v[5]);
            if m == MacAddr(0, 0, 0, 0, 0, 0) {
                None
            } else {
                Some(m)
            }
        } else {
            None
        }
    }
}

proof fn lemma_hex_byte(b: u8)
    ensures
        text::unsigned_value(hex_byte(b), 16, 255) == Some(b as nat),
        forall|i: int| 0 <= i < 2 ==> hex_byte(b)[i] != ':',
{
    let s = hex_byte(b);
    let (h, l) = (b as int / 16, b as int % 16);
    assert(text::digit_value(hex_digit(h)) == h);
    assert(text::digit_value(hex_digit(l)) == l);
    assert(s.drop_last() =~= seq![hex_digit(h)]);
    assert(s.drop_last().drop_last() =~= Seq::<char>::empty());
    assert(text::digits_value(s.drop_last().drop_last(), 16) == 0);
    assert(text::digits_value(s.drop_last(), 16) == h);
    assert(text::digits_value(s, 16) == h * 16 + l);
}

proof fn lemma_first_piece(b: u8, rest: Seq<char>)
    ensures
        text::pieces(hex_byte(b) + (seq![':'] + rest), ':') == seq![hex_byte(b)] + text::pieces(
            rest,
            ':',
        ),
{
    let s = hex_byte(b) + (seq![':'] + rest);
    lemma_hex_byte(b);
    text::lemma_first_index_is(s, ':', 2);
    assert(s.subrange(0, 2) =~= hex_byte(b));
    assert(s.subrange(3, s.len() as int) =~= rest);
}

proof fn lemma_last_piece(b: u8)
    ensures
        text::pieces(hex_byte(b), ':') == seq![hex_byte(b)],
{
    lemma_hex_byte(b);
    text::lemma_first_index_is(hex_byte(b), ':', 2);
}

/// An address that is not all zero is read back from its text.
pub proof fn law_mac_round_trip(m: MacAddr)
    requires
        m != MacAddr(0, 0, 0, 0, 0, 0),
    ensures
        mac_of_text(mac_text(m)) == Some(m),
{
    let t5 = hex_byte(m.5);
    let t4 = hex_byte(m.4) + (seq![':'] + t5);
    let t3 = hex_byte(m.3) + (seq![':'] + t4);
    let t2 = hex_byte(m.2) + (seq![':'] + t3);
    let t1 = hex_byte(m.1) + (seq![':'] + t2);
    lemma_last_piece(m.5);
    lemma_first_piece(m.4, t5);
    lemma_first_piece(m.3, t4);
    lemma_first_piece(m.2, t3);
    lemma_first_piece(m.1, t2);
    lemma_first_piece(m.0, t1);
    let parts = text::pieces(mac_text(m), ':');
    let want = seq![
        hex_byte(m.0),
        hex_byte(m.1),
        hex_byte(m.2),
        hex_byte(m.3),
        hex_byte(m.4),
        hex_byte(m.5),
    ];
    assert(parts =~= want);
    lemma_hex_byte(m.0);
    lemma_hex_byte(m.1);
    lemma_hex_byte(m.2);
    lemma_hex_byte(m.3);
    lemma_hex_byte(m.4);
    lemma_hex_byte(m.5);
    let p5 = want.drop_last();
    let p4 = p5.drop_last();
    let p3 = p4.drop_last();
    let p2 = p3.drop_last();
    let p1 = p2.drop_last();
    assert(p1.drop_last() =~= Seq::<Seq<char>>::empty());
    assert(hex_bytes(p1.drop_last()) =~= Seq::<u8>::empty());
    assert(p1.last() == hex_byte(m.0));
    assert(hex_bytes(p1) =~= seq![m.0]);
    assert(hex_bytes(p2) =~= seq![m.0, m.1]);
    assert(hex_bytes(p3) =~= seq![m.0, m.1, m.2]);
    assert(hex_bytes(p4) =~= seq![m.0, m.1, m.2, m.3]);
    assert(hex_bytes(p5) =~= seq![m.0, m.1, m.2, m.3, m.4]);
    assert(hex_bytes(want) =~= seq![m.0, m.1, m.2, m.3, m.4, m.5]);
}

/// The character is the digit of base sixteen with the value `n`, in small letters.
pub open spec fn writes_digit(c: char, n: int) -> bool {
    ||| '0' <= c && c <= '9' && c as int - 48 == n
    ||| 'a' <= c && c <= 'f' && c as int - 97 + 10 == n
}

/// The text of an address has seventeen characters: the two digits of each byte, the higher first,
/// with a colon between one byte and the next.
pub proof fn law_mac_text_shows_every_byte(m: MacAddr, i: int)
    requires
        0 <= i < 6,
    ensures
        mac_text(m).len() == 17,
        i < 5 ==> mac_text(m)[3 * i + 2] == ':',
        exists|h: int, l: int|
            {
                &&& 0 <= h < 16 && 0 <= l < 16
                &&& #[trigger] writes_digit(mac_text(m)[3 * i], h)
                &&& #[trigger] writes_digit(mac_text(m)[3 * i + 1], l)
                &&& h * 16 + l == (if i == 0 {
                    m.0
                } else if i == 1 {
                    m.1
                } else if i == 2 {
                    m.2
                } else if i == 3 {
                    m.3
                } else if i == 4 {
                    m.4
                } else {
                    m.5
                })
            },
{
    let b = m.bytes()[i];
    let t = mac_text(m);
    assert(t[3 * i] == hex_byte(b)[0]);
    assert(t[3 * i + 1] == hex_byte(b)[1]);
    assert(writes_digit(t[3 * i], b as int / 16));
    assert(writes_digit(t[3 * i + 1], b as int % 16));
}

/// Two addresses with the same number are the same.
pub proof fn law_numbers_tell_addresses_apart(a: MacAddr, b: MacAddr)
    ensures
        a.number() == b.number() <==> a == b,
{
    if a.number() == b.number() {
        lemma_number_injective(a, b);
    }
}

/// An address is read from six bytes in digits of base sixteen, in either case, with colons between
/// them, whatever the number of their digits; the address of zeros is none.
pub proof fn law_mac_is_read_from_its_bytes(parts: Seq<Seq<char>>, m: MacAddr)
    requires
        parts.len() == 6,
        m != MacAddr(0, 0, 0, 0, 0, 0),
        text::unsigned_value(parts[0], 16, 255) == Some(m.0 as nat),
        text::unsigned_value(parts[1], 16, 255) == Some(m.1 as nat),
        text::unsigned_value(parts[2], 16, 255) == Some(m.2 as nat),
        text::unsigned_value(parts[3], 16, 255) == Some(m.3 as nat),
        text::unsigned_value(parts[4], 16, 255) == Some(m.4 as nat),
        text::unsigned_value(parts[5], 16, 255) == Some(m.5 as nat),
        text::none_holds(parts, ':'),
    ensures
        mac_of_text(text::joined(parts, ':')) == Some(m),
{
    text::lemma_pieces_joined(parts, ':');
    let p5 = parts.drop_last();
    let p4 = p5.drop_last();
    let p3 = p4.drop_last();
    let p2 = p3.drop_last();
    let p1 = p2.drop_last();
    assert(p1.drop_last() =~= Seq::<Seq<char>>::empty());
    assert(hex_bytes(p1.drop_last()) =~= Seq::<u8>::empty());
    assert(p1.last() == parts[0] && p2.last() == parts[1] && p3.last() == parts[2]);
    assert(p4.last() == parts[3] && p5.last() == parts[4] && parts.last() == parts[5]);
    assert(hex_bytes(p1) =~= seq![m.0]);
    assert(hex_bytes(p2) =~= seq![m.0, m.1]);
    assert(hex_bytes(p3) =~= seq![m.0, m.1, m.2]);
    assert(hex_bytes(p4) =~= seq![m.0, m.1, m.2, m.3]);
    assert(hex_bytes(p5) =~= seq![m.0, m.1, m.2, m.3, m.4]);
    assert(hex_bytes(parts) =~= seq![m.0, m.1, m.2, m.3, m.4, m.5]);
}

} // verus!
