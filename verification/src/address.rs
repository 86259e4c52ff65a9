//! Network addresses as plain numbers.

use vstd::prelude::*;

verus! {

/// An internet address. The number is the address read in network byte order, so that
/// `127.0.0.1` is `V4(0x7f00_0001)`.
#[derive(Clone, Copy, Debug, PartialEq, Eq, Structural, Hash)]
pub enum IpAddr {
    V4(u32),
    V6(u128),
}

/// An internet address and a port.
#[derive(Clone, Copy, Debug, PartialEq, Eq, Structural, Hash)]
pub struct SocketAddr {
    pub ip: IpAddr,
    pub port: u16,
}

/// The number of the IPv4 address written `a.b.c.d`.
pub open spec fn ipv4_number(a: u8, b: u8, c: u8, d: u8) -> int {
    a * 0x100_0000 + b * 0x1_0000 + c * 0x100 + d
}

/// The IPv4 address written `a.b.c.d`.
pub fn ipv4(a: u8, b: u8, c: u8, d: u8) -> (r: u32)
    ensures
        r == ipv4_number(a, b, c, d),
{
    a as u32 * 0x100_0000 + b as u32 * 0x1_0000 + c as u32 * 0x100 + d as u32
}

/// Four bytes make the number whose digits of base 256 they are, the first one highest.
pub proof fn law_bytes_are_the_digits_of_an_address(a: u8, b: u8, c: u8, d: u8)
    ensures
        ipv4_number(a, b, c, d) / 16_777_216 == a,
        ipv4_number(a, b, c, d) / 65_536 % 256 == b,
        ipv4_number(a, b, c, d) / 256 % 256 == c,
        ipv4_number(a, b, c, d) % 256 == d,
{
}

} // verus!
