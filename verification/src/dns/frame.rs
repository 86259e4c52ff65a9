//! Messages on a stream: two bytes of length, then the message.

use vstd::prelude::*;

verus! {

/// The longest message that is read from a stream.
pub const MAX_DNS_SIZE: usize = 4096;

/// A message with its length in front. The length has 16 bits.
pub open spec fn framed(message: Seq<u8>) -> Seq<u8> {
    seq![((message.len() / 256) % 256) as u8, (message.len() % 256) as u8] + message
}

/// The number that two bytes make, the high one first.
pub open spec fn pair(high: u8, low: u8) -> int {
    high * 256 + low
}

/// Puts the length in front of a message.
pub fn frame(message: &[u8]) -> (r: Vec<u8>)
    ensures
        r@ == framed(message@),
{
    let n: usize = message.len();
    let mut out: Vec<u8> = Vec::new();
    out.push(((n / 256) % 256) as u8);
    out.push((n % 256) as u8);
    let mut i: usize = 0;
    while i < n
        invariant
            n == message@.len(),
            i <= n,
            out@ == framed(message@).subrange(0, 2 + i),
        decreases n - i,
    {
        out.push(message[i]);
        i += 1;
        assert(out@ =~= framed(message@).subrange(0, 2 + i));
    }
    assert(framed(message@).subrange(0, 2 + n) =~= framed(message@));
    out
}

/// The length that the first two bytes of a frame give.
pub fn length_of(high: u8, low: u8) -> (r: usize)
    ensures
        r == pair(high, low),
{
    high as usize * 256 + low as usize
}

/// The length that the first two bytes of a frame give; none where it is zero or too great.
pub fn checked_length(high: u8, low: u8) -> (r: Option<usize>)
    ensures
        r == (if 0 < pair(high, low) <= 4096 {
            Some(pair(high, low) as usize)
        } else {
            None
        }),
{
    let n: usize = length_of(high, low);
    if n == 0 || n > MAX_DNS_SIZE {
        None
    } else {
        Some(n)
    }
}

/// A framed message is read back: the first two bytes give its length, and the rest is the message.
pub proof fn law_frame_is_read_back(message: Seq<u8>)
    requires
        message.len() < 0x1_0000,
    ensures
        framed(message).len() == message.len() + 2,
        pair(framed(message)[0], framed(message)[1]) == message.len(),
        framed(message).subrange(2, framed(message).len() as int) == message,
{
    assert(framed(message).subrange(2, framed(message).len() as int) =~= message);
}

/// Two bytes make the number whose digits of base 256 they are, and a frame starts with the two digits
/// of its length.
pub proof fn law_length_comes_first(message: Seq<u8>, high: u8, low: u8)
    ensures
        pair(high, low) / 256 == high,
        pair(high, low) % 256 == low,
        framed(message)[1] == message.len() % 256,
        framed(message)[0] == message.len() / 256 % 256,
        forall|i: int| 0 <= i < message.len() ==> framed(message)[i + 2] == message[i],
{
}

/// A length is taken from its two bytes, the higher first, where it is above zero and at most 4096.
pub proof fn law_lengths_are_checked(high: u8, low: u8, r: Option<usize>)
    requires
        checked_length.ensures((high, low), r),
    ensures
        r is Some <==> 0 < high * 256 + low <= 4096,
        r is Some ==> r->0 == high * 256 + low,
        MAX_DNS_SIZE == 4096,
{
}

} // verus!
