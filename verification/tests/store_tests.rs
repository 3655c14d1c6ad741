use hostab::store::Store;

fn store_with(content: &str) -> Store {
    Store::with_content("hosts", content)
}

#[test]
fn test_load_save_round_trip() {
    let store = store_with("127.0.0.1 localhost\n");
    let entries = store.load();
    assert_eq!(entries.len(), 1);
}

#[test]
fn test_add_and_rm() {
    let mut store = store_with("");
    store.add_entry("10.0.0.1", &["app.local".into()], None);
    let entries = store.load();
    assert_eq!(entries.len(), 1);

    let removed = store.remove_hostnames(&["app.local".into()]);
    assert_eq!(removed, 1);
    assert_eq!(store.load().len(), 0);
}

#[test]
fn file_test_rm_by_ip() {
    let mut store = store_with("");
    store.add_entry("10.0.0.1", &["a.local".into()], None);
    store.add_entry("10.0.0.2", &["b.local".into()], None);
    assert_eq!(store.load().len(), 2);

    store.remove_by_ip("10.0.0.1");
    assert_eq!(store.load().len(), 1);
}

#[test]
fn test_add_duplicate_hostname_on_other_ip() {
    let mut store = store_with("");
    store.add_entry("10.0.0.1", &["svc.local".into()], None);
    let dups = store.add_entry("10.0.0.2", &["svc.local".into()], None);
    assert_eq!(dups, vec!["svc.local"]);
}

#[test]
fn test_add_duplicate_hostname_same_ip() {
    let mut store = store_with("");
    store.add_entry("10.0.0.1", &["svc.local".into()], None);
    let dups = store.add_entry("10.0.0.1", &["svc.local".into()], None);
    assert!(dups.is_empty());
    let entries = store.load();
    assert_eq!(entries.len(), 1);
}

#[test]
fn test_add_invalid_ip() {
    let mut store = store_with("");
    store.add_entry("not-an-ip", &["test.local".into()], None);
    let entries = store.load();
    assert_eq!(entries[0].ip, "not-an-ip");
}

#[test]
fn test_add_empty_hostnames() {
    let mut store = store_with("");
    let empty: Vec<String> = vec![];
    store.add_entry("10.0.0.1", &empty, None);
    let entries = store.load();
    assert!(
        entries.is_empty(),
        "empty-hostname entry cannot survive save/reload"
    );
}

#[test]
fn test_remove_non_existent_hostname() {
    let mut store = store_with("10.0.0.1 app.local\n");
    let removed = store.remove_hostnames(&["none.local".into()]);
    assert_eq!(removed, 0);
    assert_eq!(store.load().len(), 1);
}

#[test]
fn test_remove_by_non_existent_ip() {
    let mut store = store_with("10.0.0.1 app.local\n");
    let removed = store.remove_by_ip("10.0.0.99");
    assert_eq!(removed, 0);
}

#[test]
fn test_disable_then_remove() {
    let mut store = store_with("10.0.0.1 app.local api.local\n");
    store.disable_hostname(&["api.local".into()]);
    let entries = store.load();
    let disabled: Vec<_> = entries.iter().filter(|e| e.disabled).collect();
    assert_eq!(disabled.len(), 1);

    store.remove_hostnames(&["api.local".into()]);
    let entries = store.load();
    assert_eq!(entries.len(), 1);
    assert!(!entries[0].disabled);
    assert_eq!(entries[0].canonical, "app.local");
    assert!(entries[0].aliases.is_empty());
}

#[test]
fn test_enable_not_disabled() {
    let mut store = store_with("10.0.0.1 app.local\n");
    let count = store.enable_hostname(&["app.local".into()]);
    assert_eq!(count, 0);
}

#[test]
fn test_disable_not_present() {
    let mut store = store_with("10.0.0.1 app.local\n");
    let count = store.disable_hostname(&["none.local".into()]);
    assert_eq!(count, 0);
}

#[test]
fn test_toggle_non_existent() {
    let mut store = store_with("10.0.0.1 app.local\n");
    let msg = store.toggle_hostname("none.local");
    assert!(msg.contains("enabled"), "should enable when not found");
}

#[test]
fn test_move_non_existent() {
    let mut store = store_with("10.0.0.1 app.local\n");
    let moved = store.move_hostname("none.local", "10.0.0.99");
    assert_eq!(moved, 0);
}

#[test]
fn test_verify_empty_file() {
    let store = store_with("");
    let issues = store.verify();
    assert!(issues.is_empty());
}

#[test]
fn file_test_verify_missing_hostname() {
    let store = store_with("127.0.0.1\n");
    let issues = store.verify();
    assert_eq!(issues.len(), 1);
    assert!(issues[0].3.contains("missing hostname"));
}

#[test]
fn test_load_non_existent_file() {
    let store = Store::new("nonexistent");
    let entries = store.load();
    assert!(entries.is_empty());
}

#[test]
fn test_disable_by_then_enable_by_ip() {
    let mut store = store_with("10.0.0.1 app.local api.local\n");

    let n = store.disable_by_ip("10.0.0.1");
    assert_eq!(n, 1);

    let entries = store.load();
    assert!(entries[0].disabled);

    let n = store.enable_by_ip("10.0.0.1");
    assert_eq!(n, 1);

    let entries = store.load();
    assert!(!entries[0].disabled);
}

#[test]
fn test_toggle_by_ip() {
    let mut store = store_with("10.0.0.1 app.local\n");

    let msg = store.toggle_by_ip("10.0.0.1");
    assert!(msg.contains("disabled"));

    let entries = store.load();
    assert!(entries[0].disabled);

    let msg = store.toggle_by_ip("10.0.0.1");
    assert!(msg.contains("enabled"));
}

#[test]
fn test_serialize_remove_reload_cycle() {
    let mut store = store_with("");
    store.add_entry("10.0.0.1", &["a.local".into(), "b.local".into()], None);
    store.disable_hostname(&["b.local".into()]);
    store.enable_hostname(&["b.local".into()]);
    store.remove_hostnames(&["a.local".into()]);

    let entries = store.load();
    assert_eq!(entries.len(), 1);
    assert_eq!(entries[0].canonical, "b.local");
    assert!(entries[0].aliases.is_empty());
    assert!(!entries[0].disabled);
}

#[test]
fn test_all_rows_canonical() {
    let store = store_with("10.0.0.1 app.local api.local\n");
    let rows = store.all_rows();
    assert_eq!(rows.len(), 1);
    assert_eq!(rows[0].canonical, Some("app.local".to_string()));
    assert_eq!(rows[0].aliases, vec!["api.local"]);
}

#[test]
fn test_all_rows_single_hostname() {
    let store = store_with("10.0.0.1 solo.local\n");
    let rows = store.all_rows();
    assert_eq!(rows.len(), 1);
    assert_eq!(rows[0].canonical, Some("solo.local".to_string()));
    assert!(rows[0].aliases.is_empty());
}

#[test]
fn test_remove_canonical_promotes_alias() {
    let mut store = store_with("10.0.0.1 primary.local secondary.local\n");
    store.remove_hostnames(&["primary.local".into()]);
    let entries = store.load();
    assert_eq!(entries.len(), 1);
    assert_eq!(entries[0].canonical, "secondary.local");
    assert!(entries[0].aliases.is_empty());
}

#[test]
fn test_remove_alias_only() {
    let mut store = store_with("10.0.0.1 primary.local secondary.local\n");
    store.remove_hostnames(&["secondary.local".into()]);
    let entries = store.load();
    assert_eq!(entries.len(), 1);
    assert_eq!(entries[0].canonical, "primary.local");
    assert!(entries[0].aliases.is_empty());
}

#[test]
fn test_disable_canonical_promotes_alias() {
    let mut store = store_with("10.0.0.1 primary.local secondary.local\n");
    store.disable_hostname(&["primary.local".into()]);
    let entries = store.load();
    let enabled: Vec<_> = entries.iter().filter(|e| !e.disabled).collect();
    assert_eq!(enabled.len(), 1);
    assert_eq!(enabled[0].canonical, "secondary.local");
    let disabled: Vec<_> = entries.iter().filter(|e| e.disabled).collect();
    assert_eq!(disabled.len(), 1);
    assert_eq!(disabled[0].canonical, "primary.local");
}

#[test]
fn test_edit_moves_canonical() {
    let mut store = store_with("10.0.0.1 myhost.local\n");
    store.move_hostname("myhost.local", "10.0.0.99");
    let entries = store.load();
    assert_eq!(entries.len(), 1);
    assert_eq!(entries[0].ip, "10.0.0.99");
    assert_eq!(entries[0].canonical, "myhost.local");
}

#[test]
fn test_move_hostname_leaves_other_aliases() {
    let mut store = store_with("10.0.0.1 primary.local secondary.local\n");
    store.move_hostname("secondary.local", "10.0.0.99");
    let entries = store.load();
    let orig: Vec<_> = entries.iter().filter(|e| e.ip == "10.0.0.1").collect();
    assert_eq!(orig.len(), 1);
    assert_eq!(orig[0].canonical, "primary.local");
    let new: Vec<_> = entries.iter().filter(|e| e.ip == "10.0.0.99").collect();
    assert_eq!(new.len(), 1);
    assert_eq!(new[0].canonical, "secondary.local");
}

#[test]
fn test_add_same_ip_different_canonical_creates_new_entry() {
    let mut store = store_with("55.55.55.55 xxx.com zzz.com\n");
    store.add_entry("55.55.55.55", &["yyy.com".into(), "aaa.com".into()], None);
    let entries = store.load();
    assert_eq!(entries.len(), 2);
    assert_eq!(entries[0].canonical, "xxx.com");
    assert_eq!(entries[1].canonical, "yyy.com");
}

#[test]
fn store_keeps_path_and_content() {
    let store = Store::with_content("/etc/hosts", "10.0.0.1 a.local\n");
    assert_eq!(store.path(), "/etc/hosts");
    assert_eq!(store.content(), "10.0.0.1 a.local\n");
    assert_eq!(Store::new("x").content(), "");
}

#[test]
fn save_writes_serialized_text() {
    let mut store = store_with("  10.0.0.1   a.local   b.local  # note  \n");
    let entries = store.load();
    store.save(&entries);
    assert_eq!(store.content(), "10.0.0.1 a.local b.local # note\n");
    store.safe_save(&[]);
    assert_eq!(store.content(), "");
}

#[test]
fn add_merges_into_entry_with_same_canonical() {
    let mut store = store_with("10.0.0.1 app.local\n");
    store.add_entry("10.0.0.1", &["app.local".into(), "api.local".into()], Some("dev"));
    assert_eq!(store.content(), "10.0.0.1 app.local api.local # dev\n");
}

#[test]
fn toggle_hostname_messages() {
    let mut store = store_with("10.0.0.1 app.local\n");
    assert_eq!(store.toggle_hostname("app.local"), "disabled app.local");
    assert_eq!(store.content(), "# 10.0.0.1 app.local\n");
    assert_eq!(store.toggle_hostname("app.local"), "enabled app.local");
    assert_eq!(store.content(), "10.0.0.1 app.local\n");
}

#[test]
fn toggle_by_ip_message_counts_entries() {
    let mut store = store_with("10.0.0.1 a.local\n10.0.0.1 b.local\n10.0.0.2 c.local\n");
    assert_eq!(store.toggle_by_ip("10.0.0.1"), "disabled 2 entry(s) for IP 10.0.0.1");
    assert_eq!(store.toggle_by_ip("10.0.0.1"), "enabled 2 entry(s) for IP 10.0.0.1");
    assert_eq!(store.toggle_by_ip("10.0.0.9"), "enabled 0 entry(s) for IP 10.0.0.9");
}

#[test]
fn disable_by_ip_without_match_keeps_text() {
    let mut store = store_with("  10.0.0.1 a.local\n");
    assert_eq!(store.disable_by_ip("10.0.0.2"), 0);
    assert_eq!(store.content(), "  10.0.0.1 a.local\n");
    assert_eq!(store.enable_by_ip("10.0.0.1"), 0);
    assert_eq!(store.content(), "  10.0.0.1 a.local\n");
}

#[test]
fn disable_keeps_comment_and_enable_merges_back() {
    let mut store = store_with("10.0.0.1 app.local api.local # dev\n");
    assert_eq!(store.disable_hostname(&["api.local".into()]), 1);
    assert_eq!(store.content(), "10.0.0.1 app.local # dev\n# 10.0.0.1 api.local # dev\n");
    assert_eq!(store.enable_hostname(&["api.local".into()]), 1);
    assert_eq!(store.content(), "10.0.0.1 app.local api.local # dev\n");
}

#[test]
fn enable_without_enabled_line_makes_new_entry() {
    let mut store = store_with("# 10.0.0.5 a.local b.local\n");
    assert_eq!(store.enable_hostname(&["a.local".into()]), 1);
    assert_eq!(store.content(), "# 10.0.0.5 b.local\n10.0.0.5 a.local\n");
}

#[test]
fn move_keeps_disabled_state_and_comment() {
    let mut store = store_with("# 10.0.0.1 a.local # old\n10.0.0.2 b.local\n");
    assert_eq!(store.move_hostname("a.local", "10.0.0.3"), 1);
    assert_eq!(store.content(), "10.0.0.2 b.local\n# 10.0.0.3 a.local # old\n");
    assert_eq!(store.move_hostname("a.local", "10.0.0.2"), 1);
    assert_eq!(store.content(), "# 10.0.0.2 b.local a.local\n");
}

#[test]
fn remove_takes_every_listed_name_of_a_line() {
    let mut store = store_with("10.0.0.1 a.local b.local\n10.0.0.2 b.local c.local d.local\n");
    assert_eq!(store.remove_hostnames(&["b.local".into(), "c.local".into()]), 3);
    assert_eq!(store.content(), "10.0.0.1 a.local\n10.0.0.2 d.local\n");
}

#[test]
fn remove_by_ip_counts_disabled_entries_too() {
    let mut store = store_with("10.0.0.1 a.local\n# 10.0.0.1 b.local\n10.0.0.2 c.local\n");
    assert_eq!(store.remove_by_ip("10.0.0.1"), 2);
    assert_eq!(store.content(), "10.0.0.2 c.local\n");
}
