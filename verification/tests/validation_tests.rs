use hostab::validation::{
    is_valid_comment, is_valid_hostname, is_valid_ip, is_valid_ipv4, is_valid_ipv6,
    has_encoded_traversal, normalize_hostname, validate_secure_path, PathError,
};

#[test]
fn test_valid_ip() {
    assert!(is_valid_ip("127.0.0.1"));
    assert!(is_valid_ip("::1"));
    assert!(is_valid_ip("10.0.0.1"));
    assert!(!is_valid_ip("not.an.ip"));
    assert!(!is_valid_ip("999.999.999.999"));
}

#[test]
fn test_valid_hostname() {
    assert!(is_valid_hostname("localhost"));
    assert!(is_valid_hostname("api.myapp.local"));
    assert!(is_valid_hostname("a.io"));
    assert!(!is_valid_hostname(""));
    assert!(!is_valid_hostname("-bad.com"));
    assert!(!is_valid_hostname("bad-.com"));
}

#[test]
fn test_validate_secure_path() {
    assert!(validate_secure_path("/etc/hosts").is_ok());
    assert!(validate_secure_path("/etc/../hosts").is_err());
    assert!(validate_secure_path("/etc/\0hosts").is_err());
}

#[test]
fn test_valid_ipv6_compressed() {
    assert!(is_valid_ip("::"));
    assert!(is_valid_ip("::1"));
    assert!(is_valid_ip("fe80::1"));
    assert!(is_valid_ip("2001:db8::1"));
}

#[test]
fn test_valid_ip_boundary() {
    assert!(!is_valid_ip(""));
    assert!(!is_valid_ip("256.0.0.1"));
    assert!(is_valid_ip("0.0.0.0"));
    assert!(is_valid_ip("255.255.255.255"));
}

#[test]
fn test_valid_hostname_long() {
    let long =
        "a".repeat(63) + "." + &"b".repeat(63) + "." + &"c".repeat(63) + "." + &"d".repeat(61);
    assert_eq!(long.len(), 253);
    assert!(is_valid_hostname(&long));

    let too_long = long.clone() + "e";
    assert!(!is_valid_hostname(&too_long));
}

#[test]
fn test_valid_hostname_single_label() {
    assert!(is_valid_hostname("a"));
    assert!(!is_valid_hostname("-start"));
    assert!(!is_valid_hostname("end-"));
    assert!(is_valid_hostname("a-b"));
}

#[test]
fn test_valid_comment() {
    assert!(is_valid_comment("normal comment"));
    assert!(!is_valid_comment("line1\nline2"));
    assert!(!is_valid_comment("has\r\ncrlf"));
    assert!(is_valid_comment("has\ttab"));
    assert!(!is_valid_comment("\x00null"));
}

#[test]
fn test_normalize_hostname() {
    assert_eq!(normalize_hostname("  LOCALHOST  "), "localhost");
    assert_eq!(normalize_hostname("Example.COM"), "example.com");
    assert_eq!(normalize_hostname(""), "");
}

#[test]
fn ip_grammar_edges() {
    assert!(!is_valid_ip("01.2.3.4"));
    assert!(!is_valid_ip("1.2.3"));
    assert!(!is_valid_ip("1.2.3.4.5"));
    assert!(!is_valid_ip(" 1.2.3.4"));
    assert!(is_valid_ip("::ffff:192.168.0.1"));
    assert!(is_valid_ip("1:2:3:4:5:6:7:8"));
    assert!(!is_valid_ip("1:2:3:4:5:6:7:8:9"));
    assert!(!is_valid_ip("1::2::3"));
    assert!(!is_valid_ip("12345::1"));
    assert!(is_valid_ipv4("192.168.1.1"));
    assert!(!is_valid_ipv4("::1"));
    assert!(is_valid_ipv6("::1"));
    assert!(!is_valid_ipv6("192.168.1.1"));
}

#[test]
fn hostname_label_rules() {
    assert!(!is_valid_hostname("a..b"));
    assert!(!is_valid_hostname("a_b.local"));
    assert!(is_valid_hostname(&"x".repeat(64)));
    assert!(is_valid_hostname(&"x".repeat(253)));
    assert!(!is_valid_hostname(&"x".repeat(254)));
    assert!(is_valid_hostname("\u{17f}.local"));
    assert!(!is_valid_hostname("é.local"));
    assert!(is_valid_hostname("UPPER.case"));
}

#[test]
fn comment_control_characters() {
    assert!(!is_valid_comment("bell\u{7}"));
    assert!(!is_valid_comment("del\u{7f}"));
    assert!(is_valid_comment(""));
    assert!(is_valid_comment("üñí"));
}

#[test]
fn secure_path_errors() {
    assert_eq!(validate_secure_path("/etc/\0hosts"), Err(PathError::NullBytes));
    assert_eq!(validate_secure_path("../hosts"), Err(PathError::Traversal));
    assert_eq!(validate_secure_path("/tmp/%2E%2E/hosts"), Err(PathError::EncodedTraversal));
    assert_eq!(validate_secure_path("/tmp/..%2Fhosts"), Err(PathError::EncodedTraversal));
    assert_eq!(validate_secure_path("/tmp/a..b/hosts"), Ok(()));
}

#[test]
fn normalize_lowercases_beyond_ascii() {
    assert_eq!(normalize_hostname("\tÄBC.Local\n"), "äbc.local");
}

#[test]
fn encoded_traversal_forms() {
    assert!(has_encoded_traversal("/etc/%2e%2e/passwd"));
    assert!(has_encoded_traversal("a/..%2fb"));
    assert!(has_encoded_traversal("%2e%2e%2f"));
    assert!(!has_encoded_traversal("/etc/hosts"));
    assert!(!has_encoded_traversal("%2e/x"));
    assert!(!has_encoded_traversal("%2E%2E"), "the argument is expected lowercased");
}
