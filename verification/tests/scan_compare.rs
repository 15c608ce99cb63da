use nemclass::compare::{decode_int, passes, Criterion, Needle};
use nemclass::error::SdkError;
use nemclass::scan::{first_scan_width, sweep_step, sweeps_region, window_candidates, ScanConfig, ScanResults, ScanType, SCAN_CHUNK};
use nemclass::process::{MemoryRegion, Protection};

#[test]
fn decoding_slots() {
    assert_eq!(decode_int(ScanType::I16, &[0xFF, 0xFF]), Some(-1));
    assert_eq!(decode_int(ScanType::U16, &[0xFF, 0xFF]), Some(65535));
    assert_eq!(decode_int(ScanType::I32, &[0x78, 0x56, 0x34, 0x12, 0xAA]), Some(0x1234_5678));
    assert_eq!(decode_int(ScanType::U64, &[1, 0, 0, 0, 0, 0, 0, 0x80]), Some(0x8000_0000_0000_0001));
    assert_eq!(decode_int(ScanType::I32, &[1, 2]), None);
    assert_eq!(decode_int(ScanType::Bytes, &[1, 2]), None);
}

#[test]
fn criteria() {
    let v = 100u32.to_le_bytes();
    let old = 90u32.to_le_bytes();
    assert!(passes(ScanType::U32, &Criterion::Exact(Needle::Int(100)), None, &v));
    assert!(!passes(ScanType::U32, &Criterion::Exact(Needle::Int(101)), None, &v));
    assert!(passes(ScanType::U32, &Criterion::Between(Needle::Int(100), Needle::Int(200)), None, &v));
    assert!(passes(ScanType::U32, &Criterion::Increased, Some(&old), &v));
    assert!(passes(ScanType::U32, &Criterion::IncreasedBy(Needle::Int(10)), Some(&old), &v));
    assert!(!passes(ScanType::U32, &Criterion::DecreasedBy(Needle::Int(10)), Some(&old), &v));
    assert!(!passes(ScanType::U32, &Criterion::Changed, None, &v));
    assert!(passes(ScanType::Bytes, &Criterion::Exact(Needle::Bytes(vec![0x64, 0])), None, &v));
    assert!(passes(ScanType::Bytes, &Criterion::Unchanged, Some(&v), &v));
    assert!(!passes(ScanType::Bytes, &Criterion::Greater(Needle::Int(1)), None, &v));
}

#[test]
fn relative_on_first_scan_errors() {
    assert!(matches!(
        first_scan_width(ScanType::I32, &Criterion::Increased),
        Err(SdkError::Scan(m)) if m == "relative comparison requires a previous scan (use next_scan)"
    ));
    assert!(matches!(first_scan_width(ScanType::Bytes, &Criterion::Unknown), Err(SdkError::Scan(_))));
    assert_eq!(first_scan_width(ScanType::Bytes, &Criterion::Exact(Needle::Bytes(vec![1, 2, 3]))), Ok(3));
    assert_eq!(first_scan_width(ScanType::U16, &Criterion::Unknown), Ok(2));
}

#[test]
fn window_geometry() {
    // Aligned candidates from base 0x1002 with 4-byte alignment, region ends at 0x1010.
    assert_eq!(window_candidates(0x1002, 0x1010, 4, 4, 16), vec![0x1004, 0x1008, 0x100C]);
    // Candidates whose slot would run past the buffer are skipped.
    assert_eq!(window_candidates(0x1000, 0x2000, 4, 4, 8), vec![0x1000, 0x1004]);
    assert_eq!(ScanConfig::new(ScanType::U16).alignment, 2);
    assert_eq!(ScanConfig::new(ScanType::Bytes).alignment, 1);
}

#[test]
fn scan_and_refine() {
    let buf = [5u8, 0, 0, 0, 7, 0, 0, 0, 5, 0, 0, 0];
    let (addrs, snap) = nemclass::scan::scan_window(&buf, 0x100, 0x10C, 4, 4, ScanType::U32, &Criterion::Exact(Needle::Int(5)));
    assert_eq!(addrs, vec![0x100, 0x108]);
    assert_eq!(snap, vec![5, 0, 0, 0, 5, 0, 0, 0]);
    let prev = ScanResults::from_parts(ScanType::U32, 4, addrs, snap).unwrap();
    let fresh = [6u8, 0, 0, 0, 5, 0, 0, 0];
    let next = prev.refine(&fresh, &[true, true], &Criterion::Increased);
    assert_eq!(next.addresses(), &[0x100]);
    assert_eq!(next.value_bytes(0), Some(&[6u8, 0, 0, 0][..]));
    let gone = prev.refine(&fresh, &[false, true], &Criterion::Unknown);
    assert_eq!(gone.addresses(), &[0x108]);
    assert_eq!(prev.keep_where(&fresh, &[false, false]).len(), 0);
}

#[test]
fn first_scan_sweep_steps() {
    let rw = MemoryRegion { from: 0x1000, to: 0x30000, prot: Protection { read: true, write: true, execute: false } };
    let ro = MemoryRegion { from: 0x1000, to: 0x2000, prot: Protection { read: true, write: false, execute: false } };
    let none = MemoryRegion { from: 0x1000, to: 0x2000, prot: Protection { read: false, write: true, execute: false } };
    assert!(sweeps_region(&rw, true));
    assert!(!sweeps_region(&ro, true));
    assert!(sweeps_region(&ro, false));
    assert!(!sweeps_region(&none, false));
    assert_eq!(sweep_step(0x1000, 0x30000, 4, 4), Some((SCAN_CHUNK + 4, 0x1000 + SCAN_CHUNK)));
    assert_eq!(sweep_step(0x21000, 0x30000, 4, 4), Some((0xF000, 0x31000)));
    assert_eq!(sweep_step(0x31000, 0x30000, 4, 4), None);
    assert_eq!(sweep_step(usize::MAX - SCAN_CHUNK, usize::MAX, 4, 4), None);
}
