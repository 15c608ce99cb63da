use nemclass::format::{component_texts, format_bytes, parse_value};
use nemclass::types::FieldKind;

#[test]
fn formats_integers_and_hex() {
    assert_eq!(format_bytes(FieldKind::I8, &[0xFF], 8), "-1");
    assert_eq!(format_bytes(FieldKind::I32, &(-123456i32).to_le_bytes(), 8), "-123456");
    assert_eq!(format_bytes(FieldKind::U16, &[0x34, 0x12], 8), "4660");
    assert_eq!(format_bytes(FieldKind::I64, &i64::MIN.to_le_bytes(), 8), "-9223372036854775808");
    assert_eq!(format_bytes(FieldKind::U64, &u64::MAX.to_le_bytes(), 8), "18446744073709551615");
    assert_eq!(format_bytes(FieldKind::Unk16, &[0x0A, 0x00], 8), "0x000A");
    assert_eq!(format_bytes(FieldKind::Unk8, &[0xAB], 8), "0xAB");
    assert_eq!(format_bytes(FieldKind::Ptr, &[0x10, 0x32, 0, 0, 0, 0, 0, 0], 8), "0x3210");
    assert_eq!(format_bytes(FieldKind::Ptr, &[0x10, 0x32, 0x54, 0x76], 4), "0x76543210");
    assert_eq!(format_bytes(FieldKind::Bool, &[2], 8), "true");
    assert_eq!(format_bytes(FieldKind::Bool, &[0], 8), "false");
    assert_eq!(format_bytes(FieldKind::U32, &[1, 2], 8), "??");
}

#[test]
fn parses_entries() {
    assert_eq!(parse_value(FieldKind::I32, " -5 ", 8), Some((-5i32).to_le_bytes().to_vec()));
    assert_eq!(parse_value(FieldKind::I16, "0x7fff", 8), Some(0x7fffi16.to_le_bytes().to_vec()));
    assert_eq!(parse_value(FieldKind::I8, "-0x80", 8), Some(vec![0x80]));
    assert_eq!(parse_value(FieldKind::I8, "300", 8), Some(vec![44]));
    assert_eq!(parse_value(FieldKind::U32, "1_000_000", 8), Some(1_000_000u32.to_le_bytes().to_vec()));
    assert_eq!(parse_value(FieldKind::U8, "0XfF", 8), Some(vec![0xFF]));
    assert_eq!(parse_value(FieldKind::U8, "-1", 8), None);
    assert_eq!(parse_value(FieldKind::Bool, "YES", 8), Some(vec![1]));
    assert_eq!(parse_value(FieldKind::Bool, "0", 8), Some(vec![0]));
    assert_eq!(parse_value(FieldKind::Bool, "maybe", 8), None);
    assert_eq!(parse_value(FieldKind::Ptr, "0x1234", 4), Some(vec![0x34, 0x12, 0, 0]));
    assert_eq!(parse_value(FieldKind::Unk64, "abc", 8), None);
}

#[test]
fn format_then_parse_gives_back_bytes() {
    for (k, b) in [
        (FieldKind::I16, vec![0x00, 0x80]),
        (FieldKind::U32, vec![1, 2, 3, 4]),
        (FieldKind::Unk32, vec![0xEF, 0xBE, 0xAD, 0xDE]),
        (FieldKind::I64, (-2i64).to_le_bytes().to_vec()),
    ] {
        let text = format_bytes(k, &b, 8);
        assert_eq!(parse_value(k, &text, 8), Some(b));
    }
}

#[test]
fn shown_values_write_back() {
    let cases: Vec<(FieldKind, Vec<u8>)> = vec![
        (FieldKind::I8, vec![0xFE]),
        (FieldKind::I16, vec![0x00, 0x80]),
        (FieldKind::I32, (-123456i32).to_le_bytes().to_vec()),
        (FieldKind::I64, i64::MIN.to_le_bytes().to_vec()),
        (FieldKind::U16, vec![0x34, 0x12]),
        (FieldKind::U64, u64::MAX.to_le_bytes().to_vec()),
        (FieldKind::Unk8, vec![0x0A]),
        (FieldKind::Unk32, vec![0, 0, 0, 0]),
        (FieldKind::Bool, vec![1]),
        (FieldKind::Bool, vec![0]),
        (FieldKind::Ptr, 0x7fff_1234_5678u64.to_le_bytes().to_vec()),
    ];
    for (kind, bytes) in cases {
        let shown = format_bytes(kind, &bytes, 8);
        assert_eq!(parse_value(kind, &shown, 8), Some(bytes.clone()), "{shown}");
    }
    // A boolean byte other than 0 or 1 shows as `true`, which writes 1.
    assert_eq!(parse_value(FieldKind::Bool, &format_bytes(FieldKind::Bool, &[7], 8), 8), Some(vec![1]));
}

#[test]
fn component_texts_split_bracketed_lists() {
    let v = component_texts("(1.5, -2 ,3)", 3).unwrap();
    assert_eq!(v, vec!["1.5", "-2", "3"]);
    let v = component_texts("[[a,b]]", 2).unwrap();
    assert_eq!(v, vec!["a", "b"]);
    assert_eq!(component_texts("1,2", 3), None);
    assert_eq!(component_texts("", 1).unwrap(), vec![""]);
    assert_eq!(component_texts("1,,2", 3).unwrap(), vec!["1", "", "2"]);
}
