use nemclass::access::{decode_ips, ip_payload_len, read_le, reconstruct_ip, sext, PERF_EVENT_IOC_DISABLE, PERF_EVENT_IOC_ENABLE};
use nemclass::debug::{dr7_clear, dr7_set, Registers, WatchKind, WatchSize};

#[test]
fn ioctl_numbers() {
    assert_eq!(PERF_EVENT_IOC_ENABLE, 0x2400);
    assert_eq!(PERF_EVENT_IOC_DISABLE, 0x2401);
}

#[test]
fn ipbytes_len_mapping() {
    assert_eq!(ip_payload_len(0), Some(0));
    assert_eq!(ip_payload_len(1), Some(2));
    assert_eq!(ip_payload_len(2), Some(4));
    assert_eq!(ip_payload_len(3), Some(6));
    assert_eq!(ip_payload_len(4), Some(6));
    assert_eq!(ip_payload_len(6), Some(8));
    assert_eq!(ip_payload_len(5), None);
}

#[test]
fn decode_recovers_full_tip() {
    let ip: u64 = 0x0000_7f12_3456_789a;
    let mut buf = Vec::new();
    buf.extend_from_slice(&[0x02, 0x82].repeat(8));
    buf.push(0x0D | (6 << 5));
    buf.extend_from_slice(&ip.to_le_bytes());
    buf.push(0x00);
    let ips = decode_ips(&buf);
    assert!(ips.contains(&ip), "recovered {ips:x?}");
}

#[test]
fn decode_compressed_ips() {
    // full IP, then a 2-byte update, then a sign-extended 6-byte IP.
    let mut buf = vec![0x0D | (6 << 5)];
    buf.extend_from_slice(&0x1122_3344_5566_7788u64.to_le_bytes());
    buf.extend_from_slice(&[0x0D | (1 << 5), 0xAA, 0xBB]);
    buf.extend_from_slice(&[0x0D | (3 << 5), 0x00, 0x00, 0x00, 0x00, 0x00, 0x80]);
    buf.extend_from_slice(&[0x0D | (5 << 5), 0x19]);
    assert_eq!(decode_ips(&buf), vec![0x1122_3344_5566_7788, 0x1122_3344_5566_BBAA, 0xFFFF_8000_0000_0000]);
}

#[test]
fn le_and_sext() {
    assert_eq!(read_le(&[0x34, 0x12, 0xff], 2), 0x1234);
    assert_eq!(read_le(&[0x34], 4), 0x34);
    assert_eq!(sext(0x8000_0000_0000, 48), 0xFFFF_8000_0000_0000);
    assert_eq!(sext(0x7FFF_0000_0000, 48), 0x7FFF_0000_0000);
    assert_eq!(reconstruct_ip(0xAAAA_BBBB_CCCC_DDDD, 2, &[1, 2, 3, 4]), 0xAAAA_BBBB_0403_0201);
    assert_eq!(reconstruct_ip(7, 0, &[]), 7);
}

#[test]
fn dr7_encoding_write_b4_slot0() {
    let dr7 = dr7_set(0, 0, WatchKind::Write, WatchSize::B4);
    assert_eq!(dr7 & 0b1, 1, "local enable bit set");
    assert_eq!((dr7 >> 16) & 0xF, 0b1101, "rw=01 len=11");
    assert_eq!(dr7, 0x000D_0001);
    assert_eq!(dr7_clear(dr7, 0), 0, "clear restores zero");
}

#[test]
fn dr7_execute_slot2_len_zero() {
    let dr7 = dr7_set(0, 2, WatchKind::Execute, WatchSize::B8);
    assert_eq!((dr7 >> (2 * 2)) & 0b1, 1, "slot2 local enable at bit4");
    assert_eq!((dr7 >> (16 + 2 * 4)) & 0xF, 0b0000);
}

#[test]
fn dr7_set_keeps_other_slots() {
    let a = dr7_set(0, 1, WatchKind::ReadWrite, WatchSize::B2);
    let b = dr7_set(a, 3, WatchKind::Write, WatchSize::B8);
    assert_eq!((b >> 2) & 1, 1);
    assert_eq!((b >> 20) & 0xF, 0b0111);
    assert_eq!(dr7_clear(b, 3), a);
}

#[test]
fn watch_size_and_registers() {
    assert_eq!(WatchSize::for_len(0), WatchSize::B1);
    assert_eq!(WatchSize::for_len(3), WatchSize::B4);
    assert_eq!(WatchSize::for_len(9), WatchSize::B8);
    assert_eq!(WatchSize::B2.bytes(), 2);
    let mut r = Registers::default();
    r.rip = 0x4011_22;
    r.rsp = 0x7fff_dead_beef;
    assert_eq!(r.ip(), 0x4011_22);
    assert_eq!(r.sp(), 0x7fff_dead_beef);
}
