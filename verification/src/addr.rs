//! IPv4 addresses.

use vstd::prelude::*;
use crate::number;
use crate::text;

verus! {

/// An IPv4 address: four octets, the most significant first.
#[derive(Debug, Clone, Copy, PartialEq, Eq, Structural)]
pub struct Ipv4Addr {
    pub a: u8,
    pub b: u8,
    pub c: u8,
    pub d: u8,
}

/// The address in dotted decimal notation that `s` is: four octets, each of at
/// most three digits, without a leading zero, and at most 255.
pub open spec fn ipv4(s: Seq<char>) -> Option<Ipv4Addr> {
    let parts = text::split(s, '.');
    if parts.len() == 4 {
        match (octet(parts[0]), octet(parts[1]), octet(parts[2]), octet(parts[3])) {
            (Some(a), Some(b), Some(c), Some(d)) => Some(Ipv4Addr { a, b, c, d }),
            _ => None,
        }
    } else {
        None
    }
}

/// The octet that `s` writes in decimal.
pub open spec fn octet(s: Seq<char>) -> Option<u8> {
    if number::all_digits(s) && (s[0] == '0' ==> s.len() == 1) && number::decimal_value(s) <= 255 {
        Some(number::decimal_value(s) as u8)
    } else {
        None
    }
}

impl Ipv4Addr {
    /// The address `a.b.c.d`.
    pub fn new(a: u8, b: u8, c: u8, d: u8) -> (r: Self)
        ensures
            r == (Ipv4Addr { a, b, c, d }),
    {
        Ipv4Addr { a, b, c, d }
    }

    /// The octets, in order.
    pub open spec fn bytes(self) -> Seq<u8> {
        seq![self.a, self.b, self.c, self.d]
    }

    /// The four octets, in order.
    pub fn octets(&self) -> (r: [u8; 4])
        ensures
            r@ == self.bytes(),
    {
        [self.a, self.b, self.c, self.d]
    }
}

/// Read one octet.
fn parse_octet(s: &[char]) -> (r: Option<u8>)
    ensures
        r == octet(s@),
{
    if s.len() == 0 || s[0] == '+' || (s[0] == '0' && s.len() != 1) {
        return None;
    }
    match number::parse_number(s, 255) {
        Some(n) => Some(n as u8),
        None => None,
    }
}

/// Read an address in dotted decimal notation.
pub fn parse_ipv4(s: &[char]) -> (r: Option<Ipv4Addr>)
    ensures
        r == ipv4(s@),
{
    let parts = text::split_at_char(s, '.');
    assert(parts@.len() == text::views(parts@).len());
    if parts.len() != 4 {
        return None;
    }
    assert forall|i: int| 0 <= i < 4 implies parts@[i]@ == #[trigger] text::split(s@, '.')[i] by {
        assert(text::views(parts@)[i] == parts@[i]@);
    }
    match (
        parse_octet(parts[0]),
        parse_octet(parts[1]),
        parse_octet(parts[2]),
        parse_octet(parts[3]),
    ) {
        (Some(a), Some(b), Some(c), Some(d)) => Some(Ipv4Addr { a, b, c, d }),
        _ => None,
    }
}

} // verus!
