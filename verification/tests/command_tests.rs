use hostab::commands::{
    handle_add, handle_disable, handle_edit, handle_enable, handle_list, handle_resolve_local,
    handle_rm, handle_toggle, handle_verify,
};
use hostab::merge::{merge_output, merge_section};
use hostab::store::Store;
use hostab::table::format_raw;

const HOSTS_FIXTURE: &str = "127.0.0.1 localhost\n::1 localhost ip6-localhost\n10.0.0.1 app.local api.local # dev\n10.0.0.2 prod.local\n# 10.0.0.3 old.local\n";

fn list_raw(store: &Store, ipv4: bool, ipv6: bool, pattern: Option<&str>) -> String {
    let (rows, _) = handle_list(store, ipv4, ipv6, false, pattern, false);
    format_raw(&rows)
}

#[test]
fn test_entry_list() {
    let store = Store::with_content("hosts", HOSTS_FIXTURE);
    let out = list_raw(&store, false, false, None);
    assert!(out.contains("127.0.0.1"), "should contain localhost IP");
    assert!(out.contains("app.local"), "should contain app.local");
}

#[test]
fn test_ipv4_filter() {
    let store = Store::with_content("hosts", HOSTS_FIXTURE);
    let out = list_raw(&store, true, false, None);
    assert!(out.contains("127.0.0.1"), "should have IPv4");
    assert!(!out.contains("::1"), "should not have IPv6");
}

#[test]
fn test_ipv6_filter() {
    let store = Store::with_content("hosts", HOSTS_FIXTURE);
    let out = list_raw(&store, false, true, None);
    assert!(out.contains("::1"), "should have IPv6");
}

#[test]
fn test_add_entry() {
    let mut store = Store::with_content("hosts", "");
    handle_add(&mut store, "10.99.0.10", &["test-add.local".into()], None, &[], None, true);
    let out = list_raw(&store, false, false, None);
    assert!(out.contains("test-add.local"), "should have added entry");
}

#[test]
fn test_rm_entry() {
    let mut store = Store::with_content("hosts", "10.99.0.10 test-rm.local\n");
    handle_rm(&mut store, &["test-rm.local".into()], None, true);
    let out = list_raw(&store, false, false, None);
    assert!(!out.contains("test-rm.local"), "should have removed entry");
}

#[test]
fn integration_test_test_rm_by_ip() {
    let mut store = Store::with_content("hosts", "10.99.0.20 ip-rm.local\n");
    handle_rm(&mut store, &[], Some("10.99.0.20"), true);
    let out = list_raw(&store, false, false, None);
    assert!(!out.contains("ip-rm.local"), "should have removed by IP");
}

#[test]
fn test_filter() {
    let store = Store::with_content("hosts", HOSTS_FIXTURE);
    let out = list_raw(&store, false, false, Some("prod"));
    assert!(out.contains("prod.local"), "should match substring");
}

#[test]
fn test_disable_enable() {
    let mut store = Store::with_content("hosts", "10.0.0.1 app.local api.local\n");
    handle_disable(&mut store, &["api.local".into()], None, true);
    let raw = store.content().to_string();
    assert!(raw.contains("# 10.0.0.1 api.local"), "should comment out api.local");
    assert!(raw.contains("10.0.0.1 app.local"), "should keep app.local");

    handle_enable(&mut store, &["api.local".into()], None, true);
    let raw = store.content().to_string();
    assert!(raw.contains("app.local api.local"), "should merge back");
}

#[test]
fn test_toggle() {
    let mut store = Store::with_content("hosts", "10.0.0.1 app.local\n");
    handle_toggle(&mut store, "app.local", None, true);
    assert!(store.content().contains("# 10.0.0.1 app.local"), "toggle off");
    handle_toggle(&mut store, "app.local", None, true);
    assert!(store.content().contains("10.0.0.1 app.local"), "toggle on");
}

#[test]
fn test_edit() {
    let mut store = Store::with_content("hosts", "10.0.0.1 app.local api.local\n");
    handle_edit(&mut store, "api.local", "10.0.0.99", true);
    let raw = store.content().to_string();
    assert!(raw.contains("10.0.0.1 app.local"), "old IP should keep app.local");
    assert!(raw.contains("10.0.0.99 api.local"), "new IP should have api.local");
}

#[test]
fn test_verify() {
    let store = Store::with_content("hosts", HOSTS_FIXTURE);
    let out = handle_verify(&store, false, false).out.join("\n");
    assert!(out.contains("localhost"), "should report duplicate localhost");
    assert!(out.contains("LINE"), "should have table header");
}

#[test]
fn test_merge() {
    let a = merge_section("/tmp/x/a", "2024-01-01 00:00 UTC", "10.99.0.1 merge-a.local\n");
    let b = merge_section("/tmp/x/b", "2024-01-01 00:00 UTC", "10.99.0.2 merge-b.local\n");
    let raw = merge_output("", &vec![a, b]);
    assert!(raw.contains("merge-a.local"), "should have file a content");
    assert!(raw.contains("### source:"), "should have annotation");
}

#[test]
fn test_cat() {
    let store = Store::with_content("hosts", HOSTS_FIXTURE);
    assert!(store.content().contains("localhost"), "should show raw content");
}

#[test]
fn test_empty_file_list() {
    let store = Store::with_content("hosts", "");
    let out = list_raw(&store, false, false, None);
    assert!(out.contains("IP"), "should output header");
}

#[test]
fn test_filter_no_match() {
    let store = Store::with_content("hosts", HOSTS_FIXTURE);
    let out = list_raw(&store, false, false, Some("zxcvbnm"));
    assert!(!out.contains("app.local"), "no matches expected");
}

#[test]
fn test_filter_regex_chars() {
    let store = Store::with_content("hosts", "10.0.0.1 plain.local\n10.0.0.2 test.local\n");
    let out = list_raw(&store, false, false, Some("*"));
    assert!(out.contains("plain.local"), "wildcard filter should match plain.local");
    assert!(out.contains("test.local"), "wildcard filter should match test.local");

    let out2 = list_raw(&store, false, false, Some("plain"));
    assert!(out2.contains("plain.local"), "substring should match plain.local");
    assert!(!out2.contains("test.local"), "substring should not match test.local");
}

#[test]
fn test_add_with_invalid_ip() {
    let mut store = Store::with_content("hosts", "");
    handle_add(&mut store, "999.999.999.999", &["bad-ip.local".into()], None, &[], None, true);
    let out = list_raw(&store, false, false, None);
    assert!(out.contains("999.999.999.999"), "stores invalid IP as-is");
}

#[test]
fn test_rm_empties_file() {
    let mut store = Store::with_content("hosts", "10.0.0.1 lone.local\n");
    handle_rm(&mut store, &["lone.local".into()], None, true);
    assert!(
        store.content().trim().is_empty(),
        "file should be empty after removing last entry"
    );
}

#[test]
fn test_add_no_duplicate_same_ip() {
    let mut store = Store::with_content("hosts", "10.0.0.1 app.local\n");
    handle_add(&mut store, "10.0.0.1", &["app.local".into()], None, &[], None, true);
    let count = store.content().matches("app.local").count();
    assert_eq!(count, 1, "should not duplicate hostname on same IP");
}

#[test]
fn test_disable_nonexistent() {
    let mut store = Store::with_content("hosts", "10.0.0.1 app.local\n");
    handle_disable(&mut store, &["nonexistent".into()], None, true);
    assert!(store.content().contains("10.0.0.1 app.local"), "existing entry preserved");
}

#[test]
fn test_enable_nonexistent() {
    let mut store = Store::with_content("hosts", "10.0.0.1 app.local\n");
    handle_enable(&mut store, &["nonexistent".into()], None, true);
    assert!(store.content().contains("app.local"), "existing entry preserved");
}

#[test]
fn test_toggle_roundtrip() {
    let mut store = Store::with_content("hosts", "10.0.0.1 app.local\n");
    handle_toggle(&mut store, "app.local", None, true);
    assert!(store.content().contains("# 10.0.0.1 app.local"));
    handle_toggle(&mut store, "app.local", None, true);
    assert!(store.content().contains("10.0.0.1 app.local\n"));
    handle_toggle(&mut store, "app.local", None, true);
    assert!(store.content().contains("# 10.0.0.1 app.local"));
    handle_toggle(&mut store, "app.local", None, true);
    assert!(store.content().contains("10.0.0.1 app.local\n"));
}

#[test]
fn test_edit_nonexistent() {
    let mut store = Store::with_content("hosts", "10.0.0.1 app.local\n");
    handle_edit(&mut store, "nonexistent", "10.0.0.99", true);
    assert!(store.content().contains("app.local"), "original entry preserved");
}

#[test]
fn test_verify_clean() {
    let store = Store::with_content("hosts", "127.0.0.1 localhost\n");
    let out = handle_verify(&store, false, false).out.join("\n");
    assert!(out.contains("No issues found"), "clean file reports no issues");
}

#[test]
fn test_verify_invalid_ip() {
    let store = Store::with_content("hosts", "not-an-ip host.local\n");
    let out = handle_verify(&store, false, false).out.join("\n");
    assert!(out.contains("invalid IP"), "reports invalid IP");
}

#[test]
fn integration_test_test_verify_missing_hostname() {
    let store = Store::with_content("hosts", "10.0.0.1\n");
    let out = handle_verify(&store, false, false).out.join("\n");
    assert!(out.contains("missing hostname"), "reports missing hostname");
}

#[test]
fn test_merge_empty_source() {
    let a = merge_section("/tmp/x/a", "2024-01-01 00:00 UTC", "");
    let raw = merge_output("", &vec![a]);
    assert!(raw.contains("### source:"), "should have annotation even for empty source");
}

#[test]
fn test_cat_empty() {
    let store = Store::with_content("hosts", "");
    assert_eq!(store.content().trim(), "");
}

#[test]
fn add_reports_and_warns() {
    let mut store = Store::with_content("hosts", "10.0.0.1 svc.local\n");
    let o = handle_add(
        &mut store,
        "10.0.0.2",
        &["web.local".into()],
        Some("svc.local"),
        &["alt.local".into()],
        Some("note"),
        false,
    );
    assert_eq!(o.out, vec!["Added 10.0.0.2 svc.local web.local alt.local"]);
    assert_eq!(o.err, vec!["Warning: 'svc.local' already exists on another IP"]);
    assert!(!o.failed);
    assert_eq!(
        store.content(),
        "10.0.0.1 svc.local\n10.0.0.2 svc.local web.local alt.local # note\n"
    );
}

#[test]
fn count_messages() {
    let mut store = Store::with_content("hosts", "10.0.0.1 a.local b.local\n10.0.0.2 c.local\n");
    let o = handle_disable(&mut store, &["b.local".into(), "c.local".into()], None, false);
    assert_eq!(o.out, vec!["Disabled 2 hostname(s)"]);
    let o = handle_enable(&mut store, &["b.local".into()], None, false);
    assert_eq!(o.out, vec!["Enabled 1 hostname(s)"]);
    let o = handle_enable(&mut store, &[], Some("10.0.0.2"), false);
    assert_eq!(o.out, vec!["Enabled 1 entry(s) for IP 10.0.0.2"]);
    let o = handle_disable(&mut store, &[], Some("10.0.0.2"), false);
    assert_eq!(o.out, vec!["Disabled 1 entry(s) for IP 10.0.0.2"]);
    let o = handle_rm(&mut store, &[], Some("10.0.0.2"), false);
    assert_eq!(o.out, vec!["Removed 1 entry(s) for IP 10.0.0.2"]);
    let o = handle_rm(&mut store, &["a.local".into(), "b.local".into()], None, false);
    assert_eq!(o.out, vec!["Removed 2 hostname(s)"]);
    assert_eq!(store.content(), "");
    let o = handle_rm(&mut store, &["a.local".into()], None, true);
    assert!(o.out.is_empty());
}

#[test]
fn edit_reports_move_or_missing() {
    let mut store = Store::with_content("hosts", "10.0.0.1 a.local\n");
    let o = handle_edit(&mut store, "a.local", "10.0.0.9", false);
    assert_eq!(o.out, vec!["Moved 'a.local' to 10.0.0.9"]);
    let o = handle_edit(&mut store, "zz.local", "10.0.0.9", false);
    assert!(o.out.is_empty());
    assert_eq!(o.err, vec!["Hostname 'zz.local' not found"]);
    assert!(!o.failed);
}

#[test]
fn toggle_by_ip_reports_store_message() {
    let mut store = Store::with_content("hosts", "10.0.0.1 a.local\n");
    let o = handle_toggle(&mut store, "", Some("10.0.0.1"), false);
    assert_eq!(o.out, vec!["disabled 1 entry(s) for IP 10.0.0.1"]);
}

#[test]
fn verify_reports_count_and_strictness() {
    let store = Store::with_content("hosts", "10.0.0.1\nbad host\n");
    let o = handle_verify(&store, true, false);
    assert_eq!(o.out.len(), 2);
    assert!(o.out[0].contains("missing hostname"));
    assert!(o.out[0].contains("invalid IP"));
    assert_eq!(o.out[1], "Found 2 issue(s)");
    assert!(o.failed);
    let quiet = handle_verify(&store, false, true);
    assert_eq!(quiet.out.len(), 1);
    assert!(!quiet.failed);
    let clean = handle_verify(&Store::with_content("hosts", ""), true, true);
    assert!(clean.out.is_empty());
    assert!(!clean.failed);
}

#[test]
fn list_warns_on_refused_pattern() {
    let store = Store::with_content("hosts", "10.0.0.1 a.local\n# 10.0.0.2 b.local\n");
    let (rows, warnings) = handle_list(&store, false, false, false, Some(""), false);
    assert_eq!(rows.len(), 1);
    assert_eq!(warnings, vec!["Warning: invalid filter pattern: empty pattern"]);
    let long = "x".repeat(1025);
    let (_, warnings) = handle_list(&store, false, false, false, Some(&long), false);
    assert_eq!(
        warnings,
        vec!["Warning: invalid filter pattern: pattern exceeds maximum length of 1024 characters"]
    );
    let (rows, warnings) = handle_list(&store, false, false, false, Some("A.LOCAL"), true);
    assert_eq!(rows.len(), 1);
    assert!(warnings.is_empty());
    let (rows, _) = handle_list(&store, false, false, false, Some("A.LOCAL"), false);
    assert_eq!(rows.len(), 0);
}

#[test]
fn list_joins_hostnames_of_an_entry() {
    let store = Store::with_content("hosts", "10.0.0.1 a.local b.local # c\n");
    let (rows, _) = handle_list(&store, false, false, false, None, false);
    assert_eq!(rows.len(), 1);
    assert_eq!(rows[0].host, "a.local b.local");
    assert_eq!(rows[0].comment, Some("c".to_string()));
    let (rows, _) = handle_list(&store, false, false, true, None, false);
    assert_eq!(rows.len(), 2, "expanded: one row per hostname");
    assert_eq!(rows[0].host, "a.local");
    assert_eq!(rows[1].host, "b.local");
    assert_eq!(rows[1].comment, Some("c".to_string()));
    assert_eq!(rows[1].canonical, Some("a.local".to_string()));
    assert_eq!(rows[1].aliases, vec!["b.local"]);
}

#[test]
fn list_compacts_by_address_unless_expanded() {
    let store = Store::with_content("hosts", "10.0.0.1 a.local\n10.0.0.2 c.local\n10.0.0.1 b.local # x\n");
    let (rows, _) = handle_list(&store, false, false, false, None, false);
    assert_eq!(rows.len(), 2);
    assert_eq!(rows[0].ip, "10.0.0.1");
    assert_eq!(rows[0].host, "a.local b.local");
    assert_eq!(rows[0].comment, Some("x".to_string()));
    assert_eq!(rows[1].host, "c.local");
    let store = Store::with_content(
        "hosts",
        "10.0.0.1 a.local e.local\n# 10.0.0.3 d.local\n10.0.0.2 c.local\n",
    );
    let (rows, _) = handle_list(&store, false, false, true, None, false);
    assert_eq!(rows.len(), 3, "disabled entries are not listed");
    assert_eq!(rows[1].host, "e.local");
    assert_eq!(rows[2].host, "c.local");
}

#[test]
fn resolve_local_reports() {
    let store = Store::with_content("hosts", "10.0.0.1 a.local b.local\n# 10.0.0.2 c.local\n");
    let o = handle_resolve_local(&store, &["c.local".into()]);
    assert_eq!(o.out, vec!["No local match found."]);
    let o = handle_resolve_local(&store, &["10.0.0.1".into()]);
    assert_eq!(o.out.len(), 1);
    assert!(o.out[0].contains("NAME"));
    assert!(o.out[0].contains("b.local"));
}
