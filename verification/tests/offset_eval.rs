use nemclass::error::SdkError;
use nemclass::offset::{eval, SnapshotEnv};

/// Fixed module bases and a fixed pointer map.
fn env() -> SnapshotEnv {
    let mut e = SnapshotEnv::new();
    e.add_module("game.exe", 0x1_0000);
    e.add_word(0x1_0010, 0xDEAD_0000);
    e.add_word(0xDEAD_0008, 0xBEEF_0000);
    e
}

#[test]
fn numbers_and_arithmetic() {
    let e = env();
    assert_eq!(eval(&e, "0x10+0x20").unwrap(), 0x30);
    assert_eq!(eval(&e, "100-1").unwrap(), 0xFF);
    assert_eq!(eval(&e, "2*8+1").unwrap(), 0x11);
    assert_eq!(eval(&e, "(2+3)*4").unwrap(), 0x14);
}

#[test]
fn module_and_deref() {
    let e = env();
    assert_eq!(eval(&e, "<game.exe>").unwrap(), 0x1_0000);
    assert_eq!(eval(&e, "<game.exe>+0x10").unwrap(), 0x1_0010);
    assert_eq!(eval(&e, "[<game.exe>+0x10]").unwrap(), 0xDEAD_0000);
    assert_eq!(eval(&e, "[[<game.exe>+0x10]+8]").unwrap(), 0xBEEF_0000);
    assert_eq!(eval(&e, "\"game.exe\"+0x10").unwrap(), 0x1_0010);
    assert_eq!(eval(&e, "[\"game.exe\"+0x1A2B]").is_err(), true);
    assert_eq!(eval(&e, "[\"game.exe\"+0x10]+0x0").unwrap(), 0xDEAD_0000);
}

#[test]
fn offset_errors() {
    let e = env();
    assert!(eval(&e, "<missing.dll>").is_err());
    assert!(eval(&e, "0x10+").is_err());
    assert!(eval(&e, "[0x999]").is_err());
    assert!(eval(&e, "0x10 0x20").is_err());
}

#[test]
fn eval_error_messages() {
    let e = env();
    assert_eq!(eval(&e, "0x10 0x20"), Err(SdkError::Expr("unexpected trailing input at byte 5".into())));
    assert_eq!(eval(&e, "0x10+"), Err(SdkError::Expr("unexpected end of expression".into())));
    assert_eq!(eval(&e, "0x10+#"), Err(SdkError::Expr("unexpected `#` at byte 5".into())));
    assert_eq!(eval(&e, "(1"), Err(SdkError::Expr("expected `)`".into())));
    assert_eq!(eval(&e, "<game.exe"), Err(SdkError::Expr("expected `>`".into())));
    assert_eq!(eval(&e, "0x"), Err(SdkError::Expr("expected a number".into())));
    assert_eq!(eval(&e, "1FFFFFFFFFFFFFFFF"), Err(SdkError::Expr("number too large to fit in target type".into())));
    assert_eq!(eval(&e, "[0x999]"), Err(SdkError::Access { address: 0x999 }));
    assert_eq!(eval(&e, "<missing.dll>"), Err(SdkError::ModuleNotFound("missing.dll".into())));
}

#[test]
fn eval_wraps_and_binds_tighter() {
    let e = env();
    assert_eq!(eval(&e, " 0 - 1 ").unwrap(), usize::MAX);
    assert_eq!(eval(&e, "2+3*4").unwrap(), 0xE);
    assert_eq!(eval(&e, "0XfF").unwrap(), 0xFF);
}

#[test]
fn snapshot_latest_record_wins() {
    let mut e = env();
    e.add_module("game.exe", 0x2_0000);
    e.add_word(0x1_0010, 0x42);
    assert_eq!(eval(&e, "<game.exe>").unwrap(), 0x2_0000);
    assert_eq!(eval(&e, "[0x10010]").unwrap(), 0x42);
}
