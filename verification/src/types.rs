//! The data model: IP addresses, network prefixes, AS records, and the
//! resolved-info value that a query returns.

use vstd::prelude::*;

verus! {

/// An IP address: the family flag and the address bits.
///
/// IPv4 addresses occupy the low 32 bits; for them `bits < 2^32` holds.
#[derive(Clone, Copy, Debug, PartialEq, Eq, Structural)]
pub struct IpAddress {
    pub v6: bool,
    pub bits: u128,
}

impl IpAddress {
    /// An IPv4 address has no bits above the low 32.
    pub open spec fn wf(self) -> bool {
        !self.v6 ==> self.bits < 0x1_0000_0000
    }

    /// An IPv4 address from its four dotted-quad octets.
    pub fn v4(a: u8, b: u8, c: u8, d: u8) -> (r: IpAddress)
        ensures
            !r.v6,
            r.bits == a * 0x100_0000 + b * 0x1_0000 + c * 0x100 + d,
            r.wf(),
    {
        IpAddress {
            v6: false,
            bits: (a as u128) * 0x100_0000 + (b as u128) * 0x1_0000 + (c as u128) * 0x100
                + (d as u128),
        }
    }

    /// An IPv4 address from its 32-bit value.
    pub fn from_v4_bits(bits: u32) -> (r: IpAddress)
        ensures
            r == (IpAddress { v6: false, bits: bits as u128 }),
            r.wf(),
    {
        IpAddress { v6: false, bits: bits as u128 }
    }

    /// An IPv6 address from its 128-bit value.
    pub fn from_v6_bits(bits: u128) -> (r: IpAddress)
        ensures
            r == (IpAddress { v6: true, bits }),
            r.wf(),
    {
        IpAddress { v6: true, bits }
    }

    /// An IPv6 address from its eight 16-bit groups, highest first.
    pub fn v6_groups(g: [u16; 8]) -> (r: IpAddress)
        ensures
            r.v6,
            r.bits == g[0] * 0x1_0000_0000_0000_0000_0000_0000_0000
                + g[1] * 0x1_0000_0000_0000_0000_0000_0000
                + g[2] * 0x1_0000_0000_0000_0000_0000
                + g[3] * 0x1_0000_0000_0000_0000
                + g[4] * 0x1_0000_0000_0000
                + g[5] * 0x1_0000_0000
                + g[6] * 0x1_0000
                + g[7],
            r.wf(),
    {
        let mut bits: u128 = 0;
        bits = bits * 0x1_0000 + (g[0] as u128);
        bits = bits * 0x1_0000 + (g[1] as u128);
        bits = bits * 0x1_0000 + (g[2] as u128);
        bits = bits * 0x1_0000 + (g[3] as u128);
        bits = bits * 0x1_0000 + (g[4] as u128);
        bits = bits * 0x1_0000 + (g[5] as u128);
        bits = bits * 0x1_0000 + (g[6] as u128);
        bits = bits * 0x1_0000 + (g[7] as u128);
        IpAddress { v6: true, bits }
    }
}

/// A network prefix in one address family: the (possibly unmasked) address
/// bits and the prefix length.
#[derive(Clone, Copy, Debug, PartialEq, Eq, Structural)]
pub struct Network {
    pub v6: bool,
    pub bits: u128,
    pub plen: u8,
}

impl Network {
    /// The address width of the family.
    pub open spec fn width(self) -> int {
        if self.v6 {
            128
        } else {
            32
        }
    }

    /// The prefix length fits the family and an IPv4 prefix has no bits above
    /// the low 32.
    pub open spec fn wf(self) -> bool {
        self.plen <= self.width() && (!self.v6 ==> self.bits < 0x1_0000_0000)
    }
}

/// The mathematical content of an AS record.
pub ghost struct AsRecView {
    pub id: u32,
    pub name: Seq<char>,
    pub cc: Seq<char>,
}

/// One registered autonomous system: its number, name, and country code.
#[derive(Debug, PartialEq, Eq)]
pub struct AsRecord {
    pub id: u32,
    pub name: String,
    pub cc: String,
}

impl View for AsRecord {
    type V = AsRecView;

    open spec fn view(&self) -> AsRecView {
        AsRecView { id: self.id, name: self.name@, cc: self.cc@ }
    }
}

impl Clone for AsRecord {
    fn clone(&self) -> (r: Self)
        ensures
            r == *self,
    {
        AsRecord { id: self.id, name: self.name.clone(), cc: self.cc.clone() }
    }
}

/// The record that stands in for an AS number with no registry entry.
pub open spec fn sentinel_view() -> AsRecView {
    AsRecView { id: 0, name: "Unknown"@, cc: "XX"@ }
}

/// Builds the sentinel record: `{id: 0, "Unknown", "XX"}`.
pub fn sentinel_record() -> (r: AsRecord)
    ensures
        r@ == sentinel_view(),
{
    AsRecord { id: 0, name: "Unknown".to_owned(), cc: "XX".to_owned() }
}

/// The mathematical content of a parsed range.
pub ghost struct RangeView {
    pub net: Network,
    pub owner: AsRecView,
}

/// One parsed range: a network prefix and the record of the AS announcing it.
#[derive(Debug)]
pub struct RangeEntry {
    pub net: Network,
    pub owner: AsRecord,
}

impl View for RangeEntry {
    type V = RangeView;

    open spec fn view(&self) -> RangeView {
        RangeView { net: self.net, owner: self.owner@ }
    }
}

impl Clone for RangeEntry {
    fn clone(&self) -> (r: Self)
        ensures
            r@ == self@,
    {
        RangeEntry { net: self.net, owner: self.owner.clone() }
    }
}

/// A query answer: the queried address, the matched network, and the owning
/// AS record.
#[derive(Debug, PartialEq, Eq)]
pub struct IpInfo {
    pub ip: Option<IpAddress>,
    pub net: Network,
    pub asn: AsRecord,
}

impl Clone for IpInfo {
    fn clone(&self) -> (r: Self)
        ensures
            r.ip == self.ip,
            r.net == self.net,
            r.asn@ == self.asn@,
    {
        IpInfo { ip: self.ip, net: self.net, asn: self.asn.clone() }
    }
}

} // verus!
