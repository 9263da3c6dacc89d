//! The per-packet classifier: count the packet by source and by destination,
//! then pass it or drop it by the blocklist.

use crate::addr::{BeIpv4Addr, Ipv4Addr};
use crate::table::{Table, CAPACITY};
use vstd::prelude::*;

verus! {

/// Length of an Ethernet header: two hardware addresses and the EtherType.
pub const ETHERNET_HEADER_LEN: usize = 14;

/// Length of an IPv4 header without options.
pub const IPV4_HEADER_LEN: usize = 20;

/// Where the EtherType lies in a frame.
pub const ETHER_TYPE_OFFSET: usize = 12;

/// Where the source address lies in a frame.
pub const SOURCE_OFFSET: usize = 26;

/// Where the destination address lies in a frame.
pub const DESTINATION_OFFSET: usize = 30;

/// What becomes of a packet.
#[derive(Clone, Copy, Debug, PartialEq, Eq, Structural)]
pub enum Verdict {
    /// The packet goes on.
    Pass,
    /// The packet is discarded.
    Drop,
}

/// The three tables that the classifier and the executor share.
pub struct Tables {
    /// Count of packets by source address.
    pub src_packets: Table<u32>,
    /// Count of packets by destination address.
    pub dst_packets: Table<u32>,
    /// Source addresses whose packets are dropped.
    pub src_block: Table<bool>,
}

impl Tables {
    /// An address without an entry reads as a count of 0 in both counter
    /// tables and as not blocked in the blocklist.
    pub open spec fn has_defaults(&self) -> bool {
        &&& self.src_packets.default_value() == 0
        &&& self.dst_packets.default_value() == 0
        &&& self.src_block.default_value() == false
    }

    /// Whether the three tables read absent addresses as 0, 0 and `false`.
    pub fn defaults_in_place(&self) -> (held: bool)
        ensures
            held == self.has_defaults(),
    {
        self.src_packets.absent_value() == 0 && self.dst_packets.absent_value() == 0
            && !self.src_block.absent_value()
    }

    /// Three empty tables: counters read 0 and the blocklist reads `false`
    /// for every address.
    pub fn new() -> (tables: Self)
        ensures
            tables.has_defaults(),
            tables.src_packets@ == Map::<BeIpv4Addr, u32>::empty(),
            tables.dst_packets@ == Map::<BeIpv4Addr, u32>::empty(),
            tables.src_block@ == Map::<BeIpv4Addr, bool>::empty(),
            tables.src_packets.order() == Seq::<BeIpv4Addr>::empty(),
            tables.dst_packets.order() == Seq::<BeIpv4Addr>::empty(),
            tables.src_block.order() == Seq::<BeIpv4Addr>::empty(),
    {
        Tables {
            src_packets: Table::new(0),
            dst_packets: Table::new(0),
            src_block: Table::new(false),
        }
    }
}

/// The address whose four octets lie at `at` in `packet`, as a table key.
pub open spec fn address_at(packet: Seq<u8>, at: int) -> BeIpv4Addr {
    BeIpv4Addr::spec_from_ip(Ipv4Addr(packet[at], packet[at + 1], packet[at + 2], packet[at + 3]))
}

/// A frame carries an IPv4 header when its EtherType is 0x0800 and a whole
/// header without options follows the Ethernet header.
pub open spec fn has_ipv4_header(packet: Seq<u8>) -> bool {
    &&& packet.len() >= ETHERNET_HEADER_LEN + IPV4_HEADER_LEN
    &&& packet[ETHER_TYPE_OFFSET as int] == 0x08
    &&& packet[ETHER_TYPE_OFFSET + 1] == 0x00
}

/// Source and destination of a frame, if it carries an IPv4 header.
pub open spec fn endpoints(packet: Seq<u8>) -> Option<(BeIpv4Addr, BeIpv4Addr)> {
    if has_ipv4_header(packet) {
        Some((address_at(packet, SOURCE_OFFSET as int), address_at(packet, DESTINATION_OFFSET as int)))
    } else {
        None
    }
}

/// The address whose four octets lie at `at` in `packet`, as a table key.
fn read_address(packet: &[u8], at: usize) -> (key: BeIpv4Addr)
    requires
        at + 4 <= packet@.len(),
    ensures
        key == address_at(packet@, at as int),
{
    BeIpv4Addr::from(Ipv4Addr(packet[at], packet[at + 1], packet[at + 2], packet[at + 3]))
}

/// Source and destination of a frame, if it carries an IPv4 header.
pub fn ipv4_endpoints(packet: &[u8]) -> (found: Option<(BeIpv4Addr, BeIpv4Addr)>)
    ensures
        found == endpoints(packet@),
{
    if packet.len() < ETHERNET_HEADER_LEN + IPV4_HEADER_LEN {
        return None;
    }
    if packet[ETHER_TYPE_OFFSET] != 0x08 || packet[ETHER_TYPE_OFFSET + 1] != 0x00 {
        return None;
    }
    Some((read_address(packet, SOURCE_OFFSET), read_address(packet, DESTINATION_OFFSET)))
}

/// A count one higher, or the same count where it is already the largest.
pub open spec fn spec_saturating_increment(count: u32) -> u32 {
    if count == u32::MAX {
        count
    } else {
        (count + 1) as u32
    }
}

/// A count one higher, or the same count where it is already the largest.
#[verifier::when_used_as_spec(spec_saturating_increment)]
pub fn saturating_increment(count: u32) -> (next: u32)
    ensures
        next == spec_saturating_increment(count),
{
    count.saturating_add(1)
}

/// How a counter table changes when one packet is counted for `key`: the
/// count of `key` rises by one, saturating; in a full table a key without an
/// entry is not counted and the table stays as it is.
pub open spec fn counted(before: Table<u32>, key: BeIpv4Addr, after: Table<u32>) -> bool {
    before.stored(key, spec_saturating_increment(before.spec_get(key)), after)
}

/// What `process` does with one packet: the tables after it and the verdict.
pub open spec fn processed(before: Tables, packet: Seq<u8>, after: Tables, verdict: Verdict) -> bool {
    match endpoints(packet) {
        None => verdict == Verdict::Pass && after == before,
        Some((src, dst)) => {
            &&& counted(before.src_packets, src, after.src_packets)
            &&& counted(before.dst_packets, dst, after.dst_packets)
            &&& after.src_block == before.src_block
            &&& verdict == if before.src_block.spec_get(src) {
                Verdict::Drop
            } else {
                Verdict::Pass
            }
        },
    }
}

/// Classifies one received frame.
///
/// A frame without an IPv4 header passes and touches no table. Any other
/// frame is counted once by its source and once by its destination, and is
/// then dropped if its source is blocked. A source or a destination without
/// a counter counts from 0, and a source without a flag is not blocked.
pub fn process(packet: &[u8], tables: &mut Tables) -> (verdict: Verdict)
    requires
        old(tables).has_defaults(),
    ensures
        processed(*old(tables), packet@, *final(tables), verdict),
        final(tables).has_defaults(),
{
    let (src, dst) = match ipv4_endpoints(packet) {
        Some(pair) => pair,
        None => {
            return Verdict::Pass;
        },
    };
    let count: u32 = tables.src_packets.get(src);
    let _ = tables.src_packets.set(src, saturating_increment(count));
    let count: u32 = tables.dst_packets.get(dst);
    let _ = tables.dst_packets.set(dst, saturating_increment(count));
    if tables.src_block.get(src) {
        Verdict::Drop
    } else {
        Verdict::Pass
    }
}

/// A packet without an IPv4 header passes and leaves every table as it was.
pub proof fn lemma_fail_open(before: Tables, packet: Seq<u8>, after: Tables, verdict: Verdict)
    requires
        processed(before, packet, after, verdict),
        !has_ipv4_header(packet),
    ensures
        verdict == Verdict::Pass,
        after == before,
{
}

/// A packet from a blocked source is dropped, and it is counted all the same:
/// where the source has a counter or the table has room for one, the count
/// read for the source afterwards is one higher than before (or stays at the
/// largest value), counting from 0 for a source without a counter.
pub proof fn lemma_count_before_block(
    before: Tables,
    packet: Seq<u8>,
    after: Tables,
    verdict: Verdict,
    src: BeIpv4Addr,
    dst: BeIpv4Addr,
)
    requires
        before.has_defaults(),
        processed(before, packet, after, verdict),
        endpoints(packet) == Some((src, dst)),
        before.src_block@.contains_key(src) && before.src_block@[src],
        before.src_packets.admits(src),
    ensures
        verdict == Verdict::Drop,
        after.src_packets@.contains_key(src),
        before.src_packets@.contains_key(src) ==> after.src_packets@[src]
            == spec_saturating_increment(before.src_packets@[src]),
        !before.src_packets@.contains_key(src) ==> after.src_packets@[src] == 1,
        counted(before.dst_packets, dst, after.dst_packets),
{
}

/// An address that was never stored reads as 0 and as not blocked: the first
/// packet of a source and of a destination leaves each with a count of 1
/// where its table has room, and a packet whose source has no flag passes.
pub proof fn lemma_absent_reads_default(
    before: Tables,
    packet: Seq<u8>,
    after: Tables,
    verdict: Verdict,
    src: BeIpv4Addr,
    dst: BeIpv4Addr,
)
    requires
        before.has_defaults(),
        processed(before, packet, after, verdict),
        endpoints(packet) == Some((src, dst)),
    ensures
        !before.src_packets@.contains_key(src) && before.src_packets.order().len() < CAPACITY
            ==> after.src_packets@.contains_key(src) && after.src_packets@[src] == 1,
        !before.dst_packets@.contains_key(dst) && before.dst_packets.order().len() < CAPACITY
            ==> after.dst_packets@.contains_key(dst) && after.dst_packets@[dst] == 1,
        !before.src_block@.contains_key(src) ==> verdict == Verdict::Pass,
        after.has_defaults(),
{
}

} // verus!
