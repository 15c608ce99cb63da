use nemclass::pattern::{DynPattern, Pattern};

#[test]
fn ida_and_peid() {
    let data = b"\x11\x22\x33";
    assert!(DynPattern::from_ida_style("11 ? 33").unwrap().matches(data));
    assert!(DynPattern::from_peid_style("11 ?? 33").unwrap().matches(data));
    assert!(!DynPattern::from_ida_style("11 22 44").unwrap().matches(data));
}

#[test]
fn code_style() {
    let pat = DynPattern::from_code_style(b"\x11\x55\xE2", "x?x").unwrap();
    assert!(pat.matches(b"\x11\x01\xE2"));
    assert!(!pat.matches(b"\x11\x01\xE3"));
    assert_eq!(pat.len(), 3);
}

#[test]
fn dynamic_errors() {
    assert!(DynPattern::from_ida_style("").is_err());
    assert!(DynPattern::from_ida_style("11 2 33").is_err());
    assert!(DynPattern::from_ida_style("11 ZZ").is_err());
    assert!(DynPattern::from_code_style(b"\x11", "xx").is_err());
}

#[test]
fn parse_and_match() {
    let p = Pattern::ida("11 ? 33").unwrap();
    assert_eq!(p.len(), 3);
    assert!(p.matches(b"\x11\x22\x33"));
    assert!(Pattern::ida("zz").is_err());
}

#[test]
fn pattern_error_reasons() {
    assert_eq!(DynPattern::from_ida_style("11 ZZ").unwrap_err().to_string(), "invalid pattern: token `ZZ`");
    assert_eq!(DynPattern::from_ida_style("  ").unwrap_err().to_string(), "invalid pattern: empty pattern");
    assert!(!Pattern::ida("11 22").unwrap().matches(b"\x11"));
}
