use nemclass::disasm::{fetch_span, scan_span, MAX_SCAN};
use nemclass::disasm::{
    call_targets, classify_region, disassemble_bytes, functions_in, parse_maps_line, strings_in,
    FlowKind, RegionKind,
};

#[test]
fn decode_mov_call_ret() {
    // mov rbp, rsp ; call +0 ; ret
    let start = 0x1000;
    let bytes = [0x48, 0x89, 0xE5, 0xE8, 0x00, 0x00, 0x00, 0x00, 0xC3];
    let insns = disassemble_bytes(&bytes, start, 8);
    assert_eq!(insns.len(), 3);
    assert!(insns[0].text.contains("rbp"), "{}", insns[0].text);
    assert_eq!(insns[0].kind, FlowKind::Next);
    assert_eq!(insns[1].kind, FlowKind::Call);
    // call rel32=0 at ip 0x1003, next ip 0x1008 -> target 0x1008.
    assert_eq!(insns[1].target, Some(0x1008));
    assert_eq!(insns[2].kind, FlowKind::Ret);
    assert_eq!(call_targets(&insns), vec![0x1008]);
}

#[test]
fn disassembly_fields_and_count_limit() {
    let bytes = [0x48, 0x89, 0xE5, 0xE8, 0x00, 0x00, 0x00, 0x00, 0xC3];
    let insns = disassemble_bytes(&bytes, 0x1000, 2);
    assert_eq!(insns.len(), 2);
    assert_eq!(insns[0].addr, 0x1000);
    assert_eq!(insns[0].len, 3);
    assert_eq!(insns[0].bytes, vec![0x48, 0x89, 0xE5]);
    assert_eq!(insns[1].addr, 0x1003);
    assert_eq!(insns[1].len, 5);
    assert!(disassemble_bytes(&[], 0x1000, 8).is_empty());
}

#[test]
fn invalid_byte_is_bad() {
    // 0x06 (push es) is invalid in 64-bit mode.
    let insns = disassemble_bytes(&[0x06], 0x2000, 8);
    assert_eq!(insns.len(), 1);
    assert_eq!(insns[0].kind, FlowKind::Bad);
    assert_eq!(insns[0].text, "(bad)");
    assert_eq!(insns[0].target, None);
    assert_eq!(insns[0].addr, 0x2000);
    assert_eq!(insns[0].len, 1);
}

#[test]
fn strings_extraction() {
    let target_bytes = b"ab\x00hello world\x01xy";
    let out: Vec<(usize, String)> = strings_in(target_bytes, 0, 4)
        .into_iter()
        .map(|h| (h.addr, h.text))
        .collect();
    assert_eq!(out, vec![(3, "hello world".to_owned())]);
}

#[test]
fn strings_offset_by_start_and_trailing_run() {
    let out = strings_in(b"\x00abc\x00defg", 0x100, 3);
    assert_eq!(out.len(), 2);
    assert_eq!((out[0].addr, out[0].text.as_str()), (0x101, "abc"));
    assert_eq!((out[1].addr, out[1].text.as_str()), (0x105, "defg"));
}

#[test]
fn maps_line_parsing() {
    let line = "55d40a1b2000-55d40a1b3000 r-xp 00001000 08:02 393221  /usr/bin/cat";
    let r = parse_maps_line(line).unwrap();
    assert_eq!(r.from, 0x55d40a1b2000);
    assert_eq!(r.to, 0x55d40a1b3000);
    assert!(r.read && r.execute && !r.write);
    assert_eq!(r.kind, RegionKind::Module);
    assert_eq!(r.name, "/usr/bin/cat");

    let anon = parse_maps_line("7f00-7f10 rw-p 0 00:00 0 ").unwrap();
    assert_eq!(anon.kind, RegionKind::Anon);
    assert!(anon.name.is_empty());

    let stack = parse_maps_line("7ffd-7ffe rw-p 0 00:00 0 [stack]").unwrap();
    assert_eq!(stack.kind, RegionKind::Stack);
}

#[test]
fn maps_line_rejects_and_joins() {
    assert!(parse_maps_line("").is_none());
    assert!(parse_maps_line("7f00-7f10").is_none());
    assert!(parse_maps_line("7f007f10 rw-p").is_none());
    assert!(parse_maps_line("7g00-7f10 rw-p").is_none());
    let r = parse_maps_line("10-20 r--p 0 00:00 0 /tmp/a b  (deleted)").unwrap();
    assert_eq!(r.name, "/tmp/a b (deleted)");
    assert_eq!(r.size(), 0x10);
    let a = parse_maps_line("ff-100 ---p").unwrap();
    assert_eq!(a.label(), "anon 0xff");
    assert!(!a.read && !a.write && !a.execute);
}

#[test]
fn region_classes() {
    let c = |s: &str| classify_region(&s.chars().collect::<Vec<char>>());
    assert_eq!(c("[heap]"), RegionKind::Heap);
    assert_eq!(c("[stack:123]"), RegionKind::Stack);
    assert_eq!(c("[vvar]"), RegionKind::Vdso);
    assert_eq!(c("[anon:x]"), RegionKind::Other);
    assert_eq!(c("/lib/x.so"), RegionKind::Module);
}

#[test]
fn functions_from_calls_and_prologues() {
    // push rbp; mov rbp, rsp; call +0 (-> 0x1009); ret; then a second prologue.
    let bytes = [0x55, 0x48, 0x89, 0xE5, 0xE8, 0x00, 0x00, 0x00, 0x00, 0xC3, 0x55, 0x48, 0x89, 0xE5];
    let f = functions_in(&bytes, 0x1000);
    assert_eq!(f, vec![0x1000, 0x1009, 0x100A]);
}

#[test]
fn read_spans_are_capped_and_floored() {
    assert_eq!(MAX_SCAN, 8 << 20);
    assert_eq!(scan_span(100), 100);
    assert_eq!(scan_span(usize::MAX), 8 << 20);
    assert_eq!(fetch_span(0), 16);
    assert_eq!(fetch_span(3), 48);
    assert_eq!(fetch_span(usize::MAX), usize::MAX);
}
