use hostab::cli::compact_rows;
use hostab::model::Row;
use hostab::store::Store;

const MIXED: &str = "10.0.0.1 a.local b.local # one\n10.0.0.2 c.local\n10.0.0.1 d.local\n";

#[test]
fn disable_then_enable_ip_restores_entries() {
    let mut store = Store::with_content("hosts", MIXED);
    let before = store.load();
    let n = store.disable_by_ip("10.0.0.1");
    let m = store.enable_by_ip("10.0.0.1");
    assert_eq!(n, 2);
    assert_eq!(m, n);
    let after = store.load();
    assert_eq!(after.len(), before.len());
    for (a, b) in after.iter().zip(before.iter()) {
        assert_eq!(a.ip, b.ip);
        assert_eq!(a.canonical, b.canonical);
        assert_eq!(a.aliases, b.aliases);
        assert_eq!(a.comment, b.comment);
        assert_eq!(a.disabled, b.disabled);
    }
}

#[test]
fn toggle_ip_twice_restores_entries() {
    let mut store = Store::with_content("hosts", MIXED);
    store.toggle_by_ip("10.0.0.1");
    assert!(store.load().iter().filter(|e| e.ip == "10.0.0.1").all(|e| e.disabled));
    store.toggle_by_ip("10.0.0.1");
    assert_eq!(store.content(), MIXED);
}

#[test]
fn remove_ip_removes_exactly_its_entries() {
    let mut store = Store::with_content("hosts", "10.0.0.1 a.local\n# 10.0.0.1 b.local\n10.0.0.2 c.local\n");
    let n = store.remove_by_ip("10.0.0.1");
    assert_eq!(n, 2);
    assert!(store.load().iter().all(|e| e.ip != "10.0.0.1"));
    assert_eq!(store.load().len(), 1);
}

#[test]
fn added_hostnames_share_an_entry_of_the_address() {
    let mut store = Store::with_content("hosts", "10.0.0.1 x.local\n10.0.0.2 y.local\n");
    let hosts: Vec<String> = vec!["y.local".into(), "z.local".into()];
    let dups = store.add_entry("10.0.0.1", &hosts, None);
    assert_eq!(dups, vec!["y.local"]);
    let entries = store.load();
    assert!(entries.iter().any(|e| e.ip == "10.0.0.1"
        && hosts.iter().all(|h| e.canonical == *h || e.aliases.contains(h))));
    let dups = store.add_entry("10.0.0.3", &["q.local".into()], None);
    assert!(dups.is_empty());
}

#[test]
fn compact_gives_one_row_per_address() {
    let rows: Vec<Row> = ["10.0.0.1", "10.0.0.2", "10.0.0.1", "::1", "10.0.0.2"]
        .iter()
        .enumerate()
        .map(|(k, ip)| Row {
            ip: ip.to_string(),
            host: format!("h{}", k),
            comment: None,
            canonical: None,
            aliases: vec![],
        })
        .collect();
    let out = compact_rows(&rows);
    let ips: Vec<&str> = out.iter().map(|r| r.ip.as_str()).collect();
    assert_eq!(ips, vec!["10.0.0.1", "10.0.0.2", "::1"]);
    assert_eq!(out[0].host, "h0 h2");
    assert_eq!(out[1].host, "h1 h4");
}

#[test]
fn moved_hostname_is_on_one_entry_of_new_address() {
    let mut store = Store::with_content("hosts", "10.0.0.1 a.local m.local\n10.0.0.2 m.local b.local\n10.0.0.9 z.local\n");
    assert_eq!(store.move_hostname("m.local", "10.0.0.9"), 2);
    let entries = store.load();
    let holders: Vec<_> = entries
        .iter()
        .filter(|e| e.canonical == "m.local" || e.aliases.iter().any(|h| h == "m.local"))
        .collect();
    assert_eq!(holders.len(), 1);
    assert_eq!(holders[0].ip, "10.0.0.9");
    assert_eq!(store.content(), "10.0.0.1 a.local\n10.0.0.2 b.local\n10.0.0.9 z.local m.local\n");
}

#[test]
fn removed_hostnames_are_gone() {
    let mut store = Store::with_content("hosts", "10.0.0.1 a.local b.local c.local\n10.0.0.2 c.local\n");
    store.remove_hostnames(&["b.local".into(), "c.local".into()]);
    assert_eq!(store.content(), "10.0.0.1 a.local\n");
}

#[test]
fn disabled_hostnames_leave_enabled_entries() {
    let mut store = Store::with_content("hosts", "10.0.0.1 a.local b.local c.local\n10.0.0.2 d.local e.local\n");
    assert_eq!(store.disable_hostname(&["b.local".into(), "d.local".into()]), 2);
    for e in store.load().iter().filter(|e| !e.disabled) {
        assert!(e.canonical != "b.local" && e.canonical != "d.local");
        assert!(!e.aliases.iter().any(|h| h == "b.local" || h == "d.local"));
    }
    assert_eq!(
        store.content(),
        "10.0.0.1 a.local c.local\n10.0.0.2 e.local\n# 10.0.0.1 b.local\n# 10.0.0.2 d.local\n"
    );
}

#[test]
fn listed_canonical_and_first_alias_both_go() {
    let mut store = Store::with_content("hosts", "10.0.0.1 a.local b.local c.local\n");
    assert_eq!(store.disable_hostname(&["a.local".into(), "b.local".into()]), 2);
    assert_eq!(
        store.content(),
        "10.0.0.1 c.local\n# 10.0.0.1 a.local\n# 10.0.0.1 b.local\n"
    );
    let mut store = Store::with_content("hosts", "10.0.0.1 a.local b.local c.local\n");
    assert_eq!(store.remove_hostnames(&["a.local".into(), "b.local".into()]), 2);
    assert_eq!(store.content(), "10.0.0.1 c.local\n");
    let mut store = Store::with_content("hosts", "10.0.0.2 b.local d.local\n");
    assert_eq!(store.disable_hostname(&["b.local".into(), "d.local".into()]), 2);
    assert_eq!(store.content(), "# 10.0.0.2 b.local\n# 10.0.0.2 d.local\n");
}

#[test]
fn enabled_hostnames_are_on_enabled_entries() {
    let mut store = Store::with_content("hosts", "# 10.0.0.1 a.local b.local\n# 10.0.0.2 c.local\n10.0.0.2 d.local\n");
    assert_eq!(store.enable_hostname(&["b.local".into(), "c.local".into()]), 2);
    let entries = store.load();
    assert!(entries.iter().any(|e| !e.disabled && e.ip == "10.0.0.1" && e.canonical == "b.local"));
    assert!(entries
        .iter()
        .any(|e| !e.disabled && e.ip == "10.0.0.2" && e.aliases.iter().any(|h| h == "c.local")));
    assert!(entries.iter().any(|e| e.disabled && e.canonical == "a.local"));
}

#[test]
fn disabling_then_enabling_a_name_restores_the_line() {
    let original = "10.0.0.1 app.local web.local api.local # dev\n";
    let mut store = Store::with_content("hosts", original);
    assert_eq!(store.disable_hostname(&["api.local".into()]), 1);
    assert_eq!(store.content(), "10.0.0.1 app.local web.local # dev\n# 10.0.0.1 api.local # dev\n");
    assert_eq!(store.enable_hostname(&["api.local".into()]), 1);
    assert_eq!(store.content(), original);
}

#[test]
fn enabling_an_address_undoes_disabling_it_in_the_file() {
    let original = "10.0.0.1 a.local b.local\n10.0.0.2 c.local # x\n10.0.0.1 d.local # y\n";
    let mut store = Store::with_content("hosts", original);
    let before = store.load();
    assert_eq!(store.disable_by_ip("10.0.0.1"), 2);
    assert!(store.load().iter().filter(|e| e.ip == "10.0.0.1").all(|e| e.disabled));
    assert_eq!(store.enable_by_ip("10.0.0.1"), 2);
    let after = store.load();
    assert_eq!(after.len(), before.len());
    for (a, b) in after.iter().zip(before.iter()) {
        assert_eq!(
            (&a.ip, &a.canonical, &a.aliases, &a.comment, a.disabled),
            (&b.ip, &b.canonical, &b.aliases, &b.comment, b.disabled)
        );
    }
    assert_eq!(store.content(), original);
}

#[test]
fn address_round_trip_keeps_hash_led_names() {
    let original = "10.0.0.1 #x.local a.local\n# solo\n10.0.0.2 b.local # c\n";
    let mut store = Store::with_content("hosts", original);
    let before = store.load();
    assert_eq!(before.len(), 3);
    assert_eq!(before[0].canonical, "#x.local");
    assert_eq!(before[1].ip, "#");
    assert_eq!(store.disable_by_ip("10.0.0.1"), 1);
    assert_eq!(store.enable_by_ip("10.0.0.1"), 1);
    let after = store.load();
    assert_eq!(after.len(), before.len());
    for (a, b) in after.iter().zip(before.iter()) {
        assert_eq!(
            (&a.ip, &a.canonical, &a.aliases, &a.comment, a.disabled),
            (&b.ip, &b.canonical, &b.aliases, &b.comment, b.disabled)
        );
    }
}
