use hostab::model::Entry;
use hostab::parser::parse;
use hostab::serializer::{join_hostnames, serialize};

fn entry(id: usize, ip: &str, hosts: &[&str], comment: Option<&str>, disabled: bool) -> Entry {
    Entry {
        id,
        ip: ip.into(),
        canonical: hosts[0].into(),
        aliases: hosts[1..].iter().map(|h| h.to_string()).collect(),
        comment: comment.map(|c| c.to_string()),
        disabled,
        raw: None,
    }
}

#[test]
fn test_round_trip() {
    let input = "127.0.0.1 localhost\n::1 localhost\n10.0.0.1 app.local api.local # dev\n";
    let entries = parse(input);
    let output = serialize(&entries);
    let reparsed = parse(&output);
    assert_eq!(reparsed.len(), 3);
}

#[test]
fn test_serialize_empty() {
    assert_eq!(serialize(&[]), "");
}

#[test]
fn test_serialize_disabled() {
    let entries = vec![Entry {
        id: 1,
        ip: "10.0.0.1".into(),
        canonical: "blocked.local".into(),
        aliases: vec![],
        comment: None,
        disabled: true,
        raw: None,
    }];
    assert_eq!(serialize(&entries), "# 10.0.0.1 blocked.local\n");
}

#[test]
fn test_serialize_with_comment() {
    let entries = vec![Entry {
        id: 1,
        ip: "10.0.0.1".into(),
        canonical: "app.local".into(),
        aliases: vec![],
        comment: Some("dev server".into()),
        disabled: false,
        raw: None,
    }];
    assert_eq!(serialize(&entries), "10.0.0.1 app.local # dev server\n");
}

#[test]
fn test_serialize_empty_comment() {
    let entries = vec![Entry {
        id: 1,
        ip: "10.0.0.1".into(),
        canonical: "app.local".into(),
        aliases: vec![],
        comment: Some("".into()),
        disabled: false,
        raw: None,
    }];
    assert_eq!(serialize(&entries), "10.0.0.1 app.local\n");
}

#[test]
fn test_serialize_mixed_enabled_disabled() {
    let entries = vec![
        Entry {
            id: 1,
            ip: "10.0.0.1".into(),
            canonical: "enabled.local".into(),
            aliases: vec![],
            comment: None,
            disabled: false,
            raw: None,
        },
        Entry {
            id: 2,
            ip: "10.0.0.2".into(),
            canonical: "disabled.local".into(),
            aliases: vec![],
            comment: None,
            disabled: true,
            raw: None,
        },
    ];
    assert_eq!(
        serialize(&entries),
        "10.0.0.1 enabled.local\n# 10.0.0.2 disabled.local\n"
    );
}

#[test]
fn test_round_trip_disabled() {
    let input = "127.0.0.1 localhost\n# 10.0.0.1 blocked.local\n";
    let entries = parse(input);
    assert_eq!(entries.len(), 2);
    let output = serialize(&entries);
    let reparsed = parse(&output);
    assert_eq!(reparsed.len(), 2);
    assert!(!reparsed[0].disabled);
    assert!(reparsed[1].disabled);
}

#[test]
fn test_round_trip_disabled_with_comment() {
    let input = "127.0.0.1 localhost\n# 10.0.0.1 blocked.local # reason\n";
    let entries = parse(input);
    assert_eq!(entries.len(), 2);
    let output = serialize(&entries);
    let reparsed = parse(&output);
    assert_eq!(reparsed.len(), 2);
    assert!(reparsed[1].disabled);
    assert_eq!(reparsed[1].comment, Some("reason".to_string()));
}

#[test]
fn serialize_joins_canonical_and_aliases() {
    let e = entry(1, "10.0.0.1", &["app.local", "api.local", "web.local"], None, false);
    assert_eq!(join_hostnames(&e), "app.local api.local web.local");
    assert_eq!(serialize(&[e]), "10.0.0.1 app.local api.local web.local\n");
}

#[test]
fn save_then_load_gives_entries_back() {
    let written = vec![
        entry(7, "10.0.0.1", &["a.local", "b.local"], Some("first"), false),
        entry(9, "10.0.0.2", &["c.local"], Some(""), true),
        entry(3, "::1", &["d.local"], None, false),
    ];
    let back = parse(&serialize(&written));
    assert_eq!(back.len(), 3);
    for (k, (w, r)) in written.iter().zip(back.iter()).enumerate() {
        assert_eq!(r.id, k + 1);
        assert_eq!(r.ip, w.ip);
        assert_eq!(r.canonical, w.canonical);
        assert_eq!(r.aliases, w.aliases);
        assert_eq!(r.disabled, w.disabled);
    }
    assert_eq!(back[0].comment, Some("first".to_string()));
    assert_eq!(back[1].comment, None);
    assert_eq!(back[2].comment, None);
    assert_eq!(back[0].raw, Some("10.0.0.1 a.local b.local # first".to_string()));
}
