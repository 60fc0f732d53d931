use md5_calculator::incremental::Md5Calculator;
use md5_calculator::session::SessionRegistry;

const ABC_MD5: &str = "900150983cd24fb0d6963f7d28e17f72";

#[test]
fn session_equals_single_shot_of_concatenation() {
    let mut calc = Md5Calculator::new();
    calc.start_incremental_md5("s1");
    assert!(calc.update_incremental_md5("s1", b"a"));
    assert!(calc.update_incremental_md5("s1", b"bc"));
    assert_eq!(calc.finalize_incremental_md5("s1", 32), ABC_MD5);
    assert_eq!(calc.finalize_incremental_md5("s1", 32), calc.calculate_md5_async(b"", 32));
}

#[test]
fn session_truncates() {
    let mut calc = Md5Calculator::new();
    calc.start_incremental_md5("t");
    calc.update_incremental_md5("t", b"abc");
    assert_eq!(calc.finalize_incremental_md5("t", 16), "900150983cd24fb0");
}

#[test]
fn session_with_no_data_hashes_nothing() {
    let mut calc = Md5Calculator::new();
    calc.start_incremental_md5("e");
    assert_eq!(calc.finalize_incremental_md5("e", 32), "d41d8cd98f00b204e9800998ecf8427e");
}

#[test]
fn unknown_session_is_not_found() {
    let mut calc = Md5Calculator::new();
    calc.start_incremental_md5("known");
    assert!(!calc.update_incremental_md5("other", b"x"));
    assert_eq!(calc.finalize_incremental_md5("other", 32), "");
    assert!(!calc.cancel_incremental_md5("other"));
    assert!(calc.update_incremental_md5("known", b"abc"));
    assert_eq!(calc.finalize_incremental_md5("known", 32), ABC_MD5);
}

#[test]
fn finalize_after_end_is_not_found() {
    let mut calc = Md5Calculator::new();
    calc.start_incremental_md5("a");
    calc.start_incremental_md5("b");
    assert!(calc.cancel_incremental_md5("a"));
    assert_eq!(calc.finalize_incremental_md5("a", 32), "");
    assert!(!calc.cancel_incremental_md5("a"));
    assert_ne!(calc.finalize_incremental_md5("b", 32), "");
    assert_eq!(calc.finalize_incremental_md5("b", 32), "");
    assert!(!calc.update_incremental_md5("b", b"z"));
}

#[test]
fn restart_discards_earlier_state() {
    let mut calc = Md5Calculator::new();
    calc.start_incremental_md5("r");
    calc.update_incremental_md5("r", b"garbage");
    calc.start_incremental_md5("r");
    calc.update_incremental_md5("r", b"abc");
    assert_eq!(calc.finalize_incremental_md5("r", 32), ABC_MD5);
}

#[test]
fn sessions_are_independent() {
    let mut reg = SessionRegistry::new();
    reg.start("x");
    reg.start("y");
    assert!(reg.contains("x") && reg.contains("y"));
    assert!(reg.update("x", b"ab"));
    assert!(reg.update("y", b"abc"));
    assert!(reg.update("x", b"c"));
    assert_eq!(reg.finalize("y", 32), ABC_MD5);
    assert!(!reg.contains("y"));
    assert_eq!(reg.finalize("x", 32), ABC_MD5);
    let other = SessionRegistry::new();
    assert!(!other.contains("x"));
}

#[test]
fn logging_does_not_touch_sessions() {
    let mut calc = Md5Calculator::new();
    assert!(!calc.is_log_enabled());
    calc.start_incremental_md5("l");
    calc.set_log_enabled(true);
    assert!(calc.is_log_enabled());
    assert!(calc.update_incremental_md5("l", b"abc"));
    assert_eq!(calc.finalize_incremental_md5("l", 32), ABC_MD5);
}
