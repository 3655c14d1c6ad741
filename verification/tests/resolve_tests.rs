use hostab::parser::parse;
use hostab::resolve::{handle, ResolvePlan};
use hostab::store::Store;
use hostab::resolve::{forward_rows, lookup_for, resolve_local, reverse_rows, trim_trailing_dots, Lookup};

#[test]
fn trailing_dots() {
    assert_eq!(trim_trailing_dots("example.com."), "example.com");
    assert_eq!(trim_trailing_dots("a..."), "a");
    assert_eq!(trim_trailing_dots("..."), "");
    assert_eq!(trim_trailing_dots("a.b"), "a.b");
}

#[test]
fn lookup_kind() {
    match lookup_for("8.8.8.8.") {
        Lookup::Reverse(a) => assert_eq!(a, "8.8.8.8"),
        Lookup::Forward(_) => panic!("reverse expected"),
    }
    match lookup_for("github.com.") {
        Lookup::Forward(n) => assert_eq!(n, "github.com"),
        Lookup::Reverse(_) => panic!("forward expected"),
    }
}

#[test]
fn dns_rows() {
    let r = reverse_rows("8.8.8.8", &["dns.google.".into(), "x.".into()]);
    assert_eq!(
        r,
        vec![
            ("dns.google".to_string(), "8.8.8.8".to_string()),
            ("x".to_string(), "8.8.8.8".to_string())
        ]
    );
    let f = forward_rows("a.com.", &["1.2.3.4".into()]);
    assert_eq!(f, vec![("a.com.".to_string(), "1.2.3.4".to_string())]);
}

#[test]
fn local_lookup() {
    let entries = parse("10.0.0.1 a.local b.local\n# 10.0.0.1 c.local\n10.0.0.2 b.local\n");
    let found = resolve_local(&entries, &["b.local.".into(), "10.0.0.1".into(), "c.local".into()]);
    assert_eq!(
        found,
        vec![
            ("b.local.".to_string(), "10.0.0.1".to_string()),
            ("b.local.".to_string(), "10.0.0.2".to_string()),
            ("a.local".to_string(), "10.0.0.1".to_string()),
            ("b.local".to_string(), "10.0.0.1".to_string()),
        ]
    );
}

#[test]
fn resolve_plans() {
    let store = Store::with_content("hosts", "10.0.0.1 a.local\n");
    match handle(&store, &["a.local".into()], true) {
        ResolvePlan::Local(o) => {
            assert_eq!(o.out.len(), 1);
            assert!(o.out[0].contains("10.0.0.1"));
        }
        ResolvePlan::Dns(_) => panic!("local answer expected"),
    }
    match handle(&store, &["a.local.".into(), "1.1.1.1".into()], false) {
        ResolvePlan::Dns(qs) => {
            assert_eq!(qs.len(), 2);
            assert!(matches!(&qs[0], Lookup::Forward(n) if n == "a.local"));
            assert!(matches!(&qs[1], Lookup::Reverse(a) if a == "1.1.1.1"));
        }
        ResolvePlan::Local(_) => panic!("DNS plan expected"),
    }
}
