//! The early flags of the daemon.
use hex_harness::json::Json;
use hex_harness::scipd::{early_flag, early_line, failure, EarlyFlag};

#[test]
fn recognizes_version_flags() {
    assert_eq!(early_flag(&vec!["--version".to_string()]), Some(EarlyFlag::Version));
    assert_eq!(early_flag(&vec!["-V".to_string()]), Some(EarlyFlag::Version));
}

#[test]
fn recognizes_help_flags() {
    assert_eq!(early_flag(&vec!["--help".to_string()]), Some(EarlyFlag::Help));
    assert_eq!(early_flag(&vec!["-h".to_string()]), Some(EarlyFlag::Help));
}

#[test]
fn other_args_are_not_early_flags() {
    assert_eq!(early_flag(&vec![]), None);
    assert_eq!(early_flag(&vec!["--foo".to_string()]), None);
    assert_eq!(early_flag(&vec!["serve".to_string(), "--bar".to_string()]), None);
}

#[test]
fn version_takes_priority_when_both_present() {
    assert_eq!(
        early_flag(&vec!["--help".to_string(), "--version".to_string()]),
        Some(EarlyFlag::Version)
    );
}

#[test]
fn lines_of_the_early_flags() {
    assert_eq!(early_line(EarlyFlag::Version, "1.2.3"), "scipd 1.2.3");
    assert!(early_line(EarlyFlag::Help, "1.2.3").starts_with("scipd — live code-intel daemon."));
}

#[test]
fn a_failure_names_code_message_and_hint() {
    let v = failure("BAD_CONFIG", "line 3", "fix it");
    let e = v.get("error").unwrap();
    assert!(matches!(e.get("code"), Some(Json::Str(s)) if s == "BAD_CONFIG"));
    assert!(matches!(e.get("message"), Some(Json::Str(s)) if s == "line 3"));
    assert!(matches!(e.get("hint"), Some(Json::Str(s)) if s == "fix it"));
}
