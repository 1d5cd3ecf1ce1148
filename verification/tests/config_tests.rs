use wascc_host::authz::{can_invoke, Claims};
use wascc_host::config::{env_or_default, parse_u64, timeout_millis};

#[test]
fn timeout_parsing_falls_back_to_the_default() {
    assert_eq!(timeout_millis(None), 500);
    assert_eq!(timeout_millis(Some("".to_string())), 500);
    assert_eq!(timeout_millis(Some("250".to_string())), 250);
    assert_eq!(timeout_millis(Some("+5".to_string())), 5);
    assert_eq!(timeout_millis(Some("abc".to_string())), 500);
    assert_eq!(timeout_millis(Some("12x".to_string())), 500);
    assert_eq!(timeout_millis(Some("-5".to_string())), 500);
    assert_eq!(timeout_millis(Some("+".to_string())), 500);
}

#[test]
fn u64_parsing_is_exact_at_the_boundary() {
    assert_eq!(parse_u64("0"), Some(0));
    assert_eq!(parse_u64("+0"), Some(0));
    assert_eq!(parse_u64("18446744073709551615"), Some(u64::MAX));
    assert_eq!(parse_u64("18446744073709551616"), None);
    assert_eq!(parse_u64(""), None);
    assert_eq!(parse_u64("+"), None);
    assert_eq!(parse_u64("++1"), None);
}

#[test]
fn environment_values_fall_back_when_absent_or_empty() {
    assert_eq!(env_or_default(None, "127.0.0.1"), "127.0.0.1");
    assert_eq!(env_or_default(Some("".to_string()), "127.0.0.1"), "127.0.0.1");
    assert_eq!(env_or_default(Some("10.0.0.9".to_string()), "127.0.0.1"), "10.0.0.9");
}

#[test]
fn can_invoke_covers_listed_extras_and_system() {
    let claims = Claims {
        subject: "MAAA".to_string(),
        issuer: "AISSUER".to_string(),
        caps: vec!["wascc:keyvalue".to_string()],
        expires: None,
        not_before: None,
    };
    assert!(can_invoke(&claims, "wascc:keyvalue"));
    assert!(!can_invoke(&claims, "wascc:http_server"));
    assert!(can_invoke(&claims, "wascc:extras"));

    let system = Claims {
        subject: "system".to_string(),
        issuer: "AISSUER".to_string(),
        caps: Vec::new(),
        expires: None,
        not_before: None,
    };
    assert!(can_invoke(&system, "anything:at_all"));
}
