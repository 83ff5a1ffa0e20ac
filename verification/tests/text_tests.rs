use gateway_core::nacos::{needs_http_auth, normalize_namespace};
use gateway_core::text::{ascii_lowercase, parse_u64};

#[test]
fn test_ascii_lowercase() {
    assert_eq!(ascii_lowercase("GeT"), "get");
    assert_eq!(ascii_lowercase("POST"), "post");
    assert_eq!(ascii_lowercase("delete"), "delete");
    assert_eq!(ascii_lowercase("A-Z_0:9"), "a-z_0:9");
    assert_eq!(ascii_lowercase(""), "");
}

#[test]
fn test_parse_u64() {
    assert_eq!(parse_u64("0"), Some(0));
    assert_eq!(parse_u64("007"), Some(7));
    assert_eq!(parse_u64("42"), Some(42));
    assert_eq!(parse_u64("18446744073709551615"), Some(u64::MAX));
    assert_eq!(parse_u64("18446744073709551616"), None);
    assert_eq!(parse_u64("99999999999999999999999"), None);
    assert_eq!(parse_u64(""), None);
    assert_eq!(parse_u64("12x"), None);
    assert_eq!(parse_u64("-1"), None);
    assert_eq!(parse_u64(" 1"), None);
}

#[test]
fn test_normalize_namespace() {
    assert_eq!(normalize_namespace(&"public".to_string()), "");
    assert_eq!(normalize_namespace(&"dev".to_string()), "dev");
    assert_eq!(normalize_namespace(&"".to_string()), "");
}

#[test]
fn test_needs_http_auth() {
    assert!(!needs_http_auth(&None, &None));
    assert!(!needs_http_auth(&Some("".to_string()), &Some("".to_string())));
    assert!(needs_http_auth(&Some("root".to_string()), &None));
    assert!(needs_http_auth(&None, &Some("hunter2".to_string())));
    assert!(needs_http_auth(&Some("root".to_string()), &Some("hunter2".to_string())));
}
