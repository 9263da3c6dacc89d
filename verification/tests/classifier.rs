use ipguard::addr::{BeIpv4Addr, Ipv4Addr};
use ipguard::classifier::{ipv4_endpoints, process, saturating_increment, Tables, Verdict};
use ipguard::table::Table;

fn frame(src: [u8; 4], dst: [u8; 4]) -> Vec<u8> {
    let mut bytes = vec![0u8; 34];
    bytes[12] = 0x08;
    bytes[13] = 0x00;
    bytes[14] = 0x45;
    bytes[26..30].copy_from_slice(&src);
    bytes[30..34].copy_from_slice(&dst);
    bytes
}

fn key(a: u8, b: u8, c: u8, d: u8) -> BeIpv4Addr {
    BeIpv4Addr::from(Ipv4Addr(a, b, c, d))
}

fn untouched(tables: &Tables) -> bool {
    tables.src_packets.len() == 0 && tables.dst_packets.len() == 0 && tables.src_block.len() == 0
}

#[test]
fn new_tables_have_the_defaults() {
    let tables = Tables::new();
    assert!(tables.defaults_in_place());
    assert_eq!(tables.src_packets.absent_value(), 0);
    assert_eq!(tables.dst_packets.absent_value(), 0);
    assert_eq!(tables.src_block.absent_value(), false);
}

#[test]
fn other_defaults_are_told_apart() {
    let mut tables = Tables::new();
    tables.src_packets = Table::new(5);
    assert!(!tables.defaults_in_place());
    let mut tables = Tables::new();
    tables.dst_packets = Table::new(1);
    assert!(!tables.defaults_in_place());
    let mut tables = Tables::new();
    tables.src_block = Table::new(true);
    assert!(!tables.defaults_in_place());
}

#[test]
fn defaults_stay_in_place() {
    let mut tables = Tables::new();
    tables.src_block.set(key(10, 0, 0, 1), true).unwrap();
    process(&frame([10, 0, 0, 1], [10, 0, 0, 2]), &mut tables);
    process(&frame([10, 0, 0, 3], [10, 0, 0, 2]), &mut tables);
    assert!(tables.defaults_in_place());
}

#[test]
fn source_without_flag_passes() {
    let mut tables = Tables::new();
    tables.src_block.set(key(10, 0, 0, 1), true).unwrap();
    assert_eq!(process(&frame([10, 0, 0, 2], [10, 0, 0, 1]), &mut tables), Verdict::Pass);
    assert_eq!(tables.src_block.len(), 1);
}

#[test]
fn increment_from_zero_is_one() {
    assert_eq!(saturating_increment(0), 1);
    assert_eq!(saturating_increment(41), 42);
}

#[test]
fn increment_at_maximum_stays() {
    assert_eq!(saturating_increment(u32::MAX), u32::MAX);
    assert_eq!(saturating_increment(u32::MAX - 1), u32::MAX);
}

#[test]
fn endpoints_of_a_frame() {
    let bytes = frame([10, 0, 0, 1], [192, 168, 0, 7]);
    assert_eq!(ipv4_endpoints(&bytes), Some((key(10, 0, 0, 1), key(192, 168, 0, 7))));
    assert_eq!(ipv4_endpoints(&bytes), Some((BeIpv4Addr(0x0100_000a), BeIpv4Addr(0x0700_a8c0))));
}

#[test]
fn longer_frame_is_read_the_same() {
    let mut bytes = frame([10, 0, 0, 1], [10, 0, 0, 2]);
    bytes.extend_from_slice(&[0xaa; 40]);
    assert_eq!(ipv4_endpoints(&bytes), Some((key(10, 0, 0, 1), key(10, 0, 0, 2))));
}

#[test]
fn short_or_foreign_frames_have_no_endpoints() {
    assert_eq!(ipv4_endpoints(&[]), None);
    assert_eq!(ipv4_endpoints(&[0u8; 13]), None);
    let whole = frame([10, 0, 0, 1], [10, 0, 0, 2]);
    assert_eq!(ipv4_endpoints(&whole[..33]), None);
    assert_eq!(ipv4_endpoints(&whole[..14]), None);
    let mut ipv6 = whole.clone();
    ipv6[12] = 0x86;
    ipv6[13] = 0xdd;
    assert_eq!(ipv4_endpoints(&ipv6), None);
    let mut arp = whole.clone();
    arp[13] = 0x06;
    assert_eq!(ipv4_endpoints(&arp), None);
    let mut swapped = whole;
    swapped[12] = 0x00;
    swapped[13] = 0x08;
    assert_eq!(ipv4_endpoints(&swapped), None);
}

#[test]
fn packet_without_ipv4_header_passes_and_changes_nothing() {
    let mut tables = Tables::new();
    assert_eq!(process(&[], &mut tables), Verdict::Pass);
    assert!(untouched(&tables));
    assert_eq!(process(&[0u8; 60], &mut tables), Verdict::Pass);
    assert!(untouched(&tables));
    let whole = frame([10, 0, 0, 1], [10, 0, 0, 2]);
    assert_eq!(process(&whole[..33], &mut tables), Verdict::Pass);
    assert!(untouched(&tables));
}

#[test]
fn malformed_packet_from_blocked_source_still_passes() {
    let mut tables = Tables::new();
    tables.src_block.set(key(10, 0, 0, 1), true).unwrap();
    let mut bytes = frame([10, 0, 0, 1], [10, 0, 0, 2]);
    bytes[12] = 0x86;
    bytes[13] = 0xdd;
    assert_eq!(process(&bytes, &mut tables), Verdict::Pass);
    assert_eq!(tables.src_packets.len(), 0);
    assert_eq!(tables.dst_packets.len(), 0);
    assert_eq!(tables.src_block.len(), 1);
}

#[test]
fn packet_is_counted_by_source_and_destination() {
    let mut tables = Tables::new();
    let bytes = frame([10, 0, 0, 1], [10, 0, 0, 2]);
    assert_eq!(process(&bytes, &mut tables), Verdict::Pass);
    assert_eq!(tables.src_packets.get(key(10, 0, 0, 1)), 1);
    assert_eq!(tables.dst_packets.get(key(10, 0, 0, 2)), 1);
    assert_eq!(tables.src_packets.get(key(10, 0, 0, 2)), 0);
    assert_eq!(tables.dst_packets.get(key(10, 0, 0, 1)), 0);
    assert_eq!(process(&bytes, &mut tables), Verdict::Pass);
    assert_eq!(process(&frame([10, 0, 0, 3], [10, 0, 0, 2]), &mut tables), Verdict::Pass);
    assert_eq!(tables.src_packets.get(key(10, 0, 0, 1)), 2);
    assert_eq!(tables.src_packets.get(key(10, 0, 0, 3)), 1);
    assert_eq!(tables.dst_packets.get(key(10, 0, 0, 2)), 3);
    assert_eq!(tables.src_block.len(), 0);
}

#[test]
fn counter_at_maximum_does_not_wrap() {
    let mut tables = Tables::new();
    tables.src_packets.set(key(10, 0, 0, 1), u32::MAX).unwrap();
    tables.dst_packets.set(key(10, 0, 0, 2), u32::MAX - 1).unwrap();
    let bytes = frame([10, 0, 0, 1], [10, 0, 0, 2]);
    assert_eq!(process(&bytes, &mut tables), Verdict::Pass);
    assert_eq!(tables.src_packets.get(key(10, 0, 0, 1)), u32::MAX);
    assert_eq!(tables.dst_packets.get(key(10, 0, 0, 2)), u32::MAX);
    assert_eq!(process(&bytes, &mut tables), Verdict::Pass);
    assert_eq!(tables.src_packets.get(key(10, 0, 0, 1)), u32::MAX);
    assert_eq!(tables.dst_packets.get(key(10, 0, 0, 2)), u32::MAX);
}

#[test]
fn blocked_source_is_counted_and_dropped() {
    let mut tables = Tables::new();
    tables.src_block.set(key(10, 0, 0, 1), true).unwrap();
    let bytes = frame([10, 0, 0, 1], [10, 0, 0, 2]);
    assert_eq!(process(&bytes, &mut tables), Verdict::Drop);
    assert_eq!(tables.src_packets.get(key(10, 0, 0, 1)), 1);
    assert_eq!(tables.dst_packets.get(key(10, 0, 0, 2)), 1);
    assert_eq!(process(&bytes, &mut tables), Verdict::Drop);
    assert_eq!(tables.src_packets.get(key(10, 0, 0, 1)), 2);
}

#[test]
fn block_is_by_source_only() {
    let mut tables = Tables::new();
    tables.src_block.set(key(10, 0, 0, 1), true).unwrap();
    tables.src_block.set(key(10, 0, 0, 9), false).unwrap();
    assert_eq!(process(&frame([10, 0, 0, 2], [10, 0, 0, 1]), &mut tables), Verdict::Pass);
    assert_eq!(process(&frame([10, 0, 0, 9], [10, 0, 0, 1]), &mut tables), Verdict::Pass);
    assert_eq!(process(&frame([10, 0, 0, 1], [10, 0, 0, 1]), &mut tables), Verdict::Drop);
}

#[test]
fn full_counter_table_skips_new_addresses_only() {
    let mut tables = Tables::new();
    for n in 0..100u8 {
        assert_eq!(process(&frame([10, 0, 1, n], [10, 0, 2, n]), &mut tables), Verdict::Pass);
    }
    assert_eq!(tables.src_packets.len(), 100);
    assert_eq!(tables.dst_packets.len(), 100);
    assert_eq!(process(&frame([10, 0, 3, 1], [10, 0, 2, 5]), &mut tables), Verdict::Pass);
    assert_eq!(tables.src_packets.len(), 100);
    assert_eq!(tables.src_packets.get(key(10, 0, 3, 1)), 0);
    assert_eq!(tables.dst_packets.get(key(10, 0, 2, 5)), 2);
    assert_eq!(process(&frame([10, 0, 1, 7], [10, 0, 3, 1]), &mut tables), Verdict::Pass);
    assert_eq!(tables.src_packets.get(key(10, 0, 1, 7)), 2);
    assert_eq!(tables.dst_packets.get(key(10, 0, 3, 1)), 0);
}

#[test]
fn blocked_source_unknown_to_a_full_table_is_dropped_uncounted() {
    let mut tables = Tables::new();
    tables.src_block.set(key(10, 9, 9, 9), true).unwrap();
    for n in 0..100u8 {
        process(&frame([10, 0, 1, n], [10, 0, 2, n]), &mut tables);
    }
    assert_eq!(process(&frame([10, 9, 9, 9], [10, 0, 2, 1]), &mut tables), Verdict::Drop);
    assert_eq!(tables.src_packets.get(key(10, 9, 9, 9)), 0);
    assert_eq!(tables.dst_packets.get(key(10, 0, 2, 1)), 2);
}
