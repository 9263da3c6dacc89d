//! IPv4 addresses in the two forms the guard works with.
//!
//! [`Ipv4Addr`] is the form an operator reads and writes; [`BeIpv4Addr`] is the
//! 32-bit word found in a packet header, and the key of every table.

use vstd::prelude::*;
use vstd::arithmetic::div_mod::lemma_fundamental_div_mod_converse;
use vstd::std_specs::convert::FromSpecImpl;

verus! {

/// An IPv4 address as its four octets, in the order they are written:
/// `Ipv4Addr(10, 0, 0, 1)` is `10.0.0.1`.
#[derive(Clone, Copy, Debug, PartialEq, Eq, Hash, Structural)]
pub struct Ipv4Addr(pub u8, pub u8, pub u8, pub u8);

/// Big-endian representation of an IPv4 address.
///
/// The word is the one obtained by loading the four address bytes of a packet
/// header as they lie in memory on a little-endian machine: the first octet of
/// the address is the least significant byte. The value is an identity, not a
/// number to compute with.
#[derive(Clone, Copy, Debug, Hash, Eq, PartialEq, Structural)]
pub struct BeIpv4Addr(pub u32);

impl BeIpv4Addr {
    /// The address that this word stands for.
    pub open spec fn spec_to_ip(self) -> Ipv4Addr {
        Ipv4Addr(
            (self.0 % 0x100) as u8,
            (self.0 / 0x100 % 0x100) as u8,
            (self.0 / 0x1_0000 % 0x100) as u8,
            (self.0 / 0x100_0000) as u8,
        )
    }

    /// The word that stands for `ip`.
    pub open spec fn spec_from_ip(ip: Ipv4Addr) -> BeIpv4Addr {
        BeIpv4Addr((ip.0 + ip.1 * 0x100 + ip.2 * 0x1_0000 + ip.3 * 0x100_0000) as u32)
    }

    /// Conversion from `BeIpv4Addr` to the readable form.
    #[verifier::when_used_as_spec(spec_to_ip)]
    pub fn to_ip(self) -> (ip: Ipv4Addr)
        ensures
            ip == self.spec_to_ip(),
            BeIpv4Addr::spec_from_ip(ip) == self,
    {
        let word: u32 = self.0;
        Ipv4Addr(
            (word % 0x100) as u8,
            (word / 0x100 % 0x100) as u8,
            (word / 0x1_0000 % 0x100) as u8,
            (word / 0x100_0000) as u8,
        )
    }
}

/// Conversion from the raw header word.
impl From<u32> for BeIpv4Addr {
    fn from(be: u32) -> (addr: Self) {
        Self(be)
    }
}

impl FromSpecImpl<u32> for BeIpv4Addr {
    open spec fn obeys_from_spec() -> bool {
        true
    }

    open spec fn from_spec(be: u32) -> Self {
        BeIpv4Addr(be)
    }
}

/// Conversion from the readable form.
impl From<Ipv4Addr> for BeIpv4Addr {
    fn from(ip: Ipv4Addr) -> (addr: Self) {
        let a: u32 = ip.0 as u32;
        let b: u32 = ip.1 as u32;
        let c: u32 = ip.2 as u32;
        let d: u32 = ip.3 as u32;
        Self(a + b * 0x100 + c * 0x1_0000 + d * 0x100_0000)
    }
}

impl FromSpecImpl<Ipv4Addr> for BeIpv4Addr {
    open spec fn obeys_from_spec() -> bool {
        true
    }

    open spec fn from_spec(ip: Ipv4Addr) -> Self {
        BeIpv4Addr::spec_from_ip(ip)
    }
}

/// Converting a header word to the readable form and back gives the same word,
/// for every 32-bit value.
pub proof fn lemma_word_round_trip(v: u32)
    ensures
        BeIpv4Addr::spec_from_ip(BeIpv4Addr(v).spec_to_ip()) == BeIpv4Addr(v),
{
}

/// Converting a readable address to a header word and back gives the same
/// address, for every four octets.
pub proof fn lemma_ip_round_trip(ip: Ipv4Addr)
    ensures
        BeIpv4Addr::spec_from_ip(ip).spec_to_ip() == ip,
{
    let a = ip.0 as int;
    let b = ip.1 as int;
    let c = ip.2 as int;
    let d = ip.3 as int;
    let word = a + b * 0x100 + c * 0x1_0000 + d * 0x100_0000;
    lemma_fundamental_div_mod_converse(word, 0x100, b + c * 0x100 + d * 0x1_0000, a);
    lemma_fundamental_div_mod_converse(b + c * 0x100 + d * 0x1_0000, 0x100, c + d * 0x100, b);
    lemma_fundamental_div_mod_converse(word, 0x1_0000, c + d * 0x100, a + b * 0x100);
    lemma_fundamental_div_mod_converse(c + d * 0x100, 0x100, d, c);
    lemma_fundamental_div_mod_converse(word, 0x100_0000, d, a + b * 0x100 + c * 0x1_0000);
}

/// Two words that stand for the same address are the same word, and two
/// addresses with the same word are the same address.
pub proof fn lemma_conversion_injective(v: BeIpv4Addr, w: BeIpv4Addr, p: Ipv4Addr, q: Ipv4Addr)
    ensures
        v.spec_to_ip() == w.spec_to_ip() ==> v == w,
        BeIpv4Addr::spec_from_ip(p) == BeIpv4Addr::spec_from_ip(q) ==> p == q,
{
    lemma_word_round_trip(v.0);
    lemma_word_round_trip(w.0);
    lemma_ip_round_trip(p);
    lemma_ip_round_trip(q);
}

} // verus!
