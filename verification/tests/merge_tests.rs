use hostab::merge::{
    first_blocked, is_blocked, is_url, merge_output, merge_section, merged_text,
    remove_previous_merges, src_label, strip_comments, url_host, ResolvedAddr,
};

#[test]
fn labels_of_sources() {
    assert_eq!(src_label("https://example.com/hosts"), "https://example.com/hosts");
    assert_eq!(src_label("http://x/y"), "http://x/y");
    assert_eq!(src_label("/tmp/dir/dev-hosts"), "dev-hosts");
    assert_eq!(src_label("./dev-hosts"), "dev-hosts");
    assert_eq!(src_label("a/b/"), "b");
    assert_eq!(src_label("a/b/."), "b");
    assert_eq!(src_label("a/.."), "");
    assert_eq!(src_label("/"), "");
    assert_eq!(src_label(""), "");
    assert!(is_url("https://a"));
    assert!(!is_url("ftp://a"));
}

#[test]
fn strip_keeps_entry_lines_only() {
    let content = "# header\n\n10.0.0.1 a.local\n  192.168.0.1\tb.local  \nnot-ip c.local\n::1 d.local\r\n";
    assert_eq!(
        strip_comments(content),
        "10.0.0.1 a.local\n  192.168.0.1\tb.local  \n::1 d.local"
    );
    assert_eq!(strip_comments(""), "");
}

#[test]
fn previous_merged_blocks_are_dropped() {
    let content = "127.0.0.1 localhost\n\n### source: a — 2024\n10.0.0.1 a.local\n10.0.0.2 b.local\n\n10.0.0.3 kept.local\n### source: b — 2024\n10.0.0.4 c.local\n";
    assert_eq!(
        remove_previous_merges(content),
        "127.0.0.1 localhost\n\n\n10.0.0.3 kept.local"
    );
}

#[test]
fn merged_text_layout() {
    let s = merge_section("/srv/dev-hosts", "2024-05-01 10:00 UTC", "# c\n10.0.0.1 a.local\n");
    assert_eq!(s, "### source: dev-hosts \u{2014} 2024-05-01 10:00 UTC\n10.0.0.1 a.local");
    let t = merge_section("https://h/x", "D", "bogus\n");
    assert_eq!(t, "### source: https://h/x \u{2014} D\n");
    let out = merge_output("127.0.0.1 localhost\n\n### source: old \u{2014} D\n1.1.1.1 old.local\n", &vec![s, t]);
    assert_eq!(
        out,
        "127.0.0.1 localhost\n\n### source: dev-hosts \u{2014} 2024-05-01 10:00 UTC\n10.0.0.1 a.local\n\n### source: https://h/x \u{2014} D\n"
    );
    assert_eq!(merged_text(2, "/etc/hosts"), "Merged 2 source(s) \u{2192} /etc/hosts");
}

#[test]
fn hosts_of_urls() {
    assert_eq!(url_host("https://example.com/hosts"), Some("example.com".to_string()));
    assert_eq!(url_host("http://example.com:8080/x"), Some("example.com".to_string()));
    assert_eq!(url_host("http://http://a.b/c"), Some("a.b".to_string()));
    assert_eq!(url_host("https:///path"), None);
    assert_eq!(url_host("http://:80/"), None);
}

#[test]
fn blocked_addresses() {
    assert!(is_blocked(&ResolvedAddr::V4([10, 1, 2, 3])));
    assert!(is_blocked(&ResolvedAddr::V4([172, 16, 0, 1])));
    assert!(is_blocked(&ResolvedAddr::V4([172, 31, 255, 255])));
    assert!(!is_blocked(&ResolvedAddr::V4([172, 32, 0, 1])));
    assert!(is_blocked(&ResolvedAddr::V4([192, 168, 1, 1])));
    assert!(is_blocked(&ResolvedAddr::V4([127, 0, 0, 1])));
    assert!(is_blocked(&ResolvedAddr::V4([169, 254, 1, 1])));
    assert!(is_blocked(&ResolvedAddr::V4([224, 0, 0, 1])));
    assert!(is_blocked(&ResolvedAddr::V4([255, 255, 255, 255])));
    assert!(is_blocked(&ResolvedAddr::V4([0, 1, 2, 3])));
    assert!(!is_blocked(&ResolvedAddr::V4([8, 8, 8, 8])));
    let mut lo = [0u8; 16];
    lo[15] = 1;
    assert!(is_blocked(&ResolvedAddr::V6(lo)));
    assert!(is_blocked(&ResolvedAddr::V6([0u8; 16])));
    let mut mc = [0u8; 16];
    mc[0] = 0xff;
    assert!(is_blocked(&ResolvedAddr::V6(mc)));
    let mut ll = [0u8; 16];
    ll[0] = 0xfe;
    ll[1] = 0x80;
    assert!(is_blocked(&ResolvedAddr::V6(ll)));
    let mut ula = [0u8; 16];
    ula[0] = 0xfc;
    ula[15] = 1;
    assert!(is_blocked(&ResolvedAddr::V6(ula)));
    ula[0] = 0xfd;
    assert!(is_blocked(&ResolvedAddr::V6(ula)));
    ula[0] = 0xfb;
    assert!(!is_blocked(&ResolvedAddr::V6(ula)));
    let mut public = [0u8; 16];
    public[0] = 0x20;
    public[1] = 0x01;
    public[15] = 1;
    assert!(!is_blocked(&ResolvedAddr::V6(public)));
    let addrs = vec![
        ResolvedAddr::V4([93, 184, 216, 34]),
        ResolvedAddr::V6(public),
        ResolvedAddr::V4([127, 0, 0, 1]),
        ResolvedAddr::V4([10, 0, 0, 1]),
    ];
    assert_eq!(first_blocked(&addrs), Some(2));
    assert_eq!(first_blocked(&addrs[..2]), None);
}

#[test]
fn merging_again_replaces_earlier_blocks() {
    let base = "127.0.0.1 localhost\n# comment\n\n";
    let first = vec![merge_section("/x/a", "D1", "10.0.0.1 a.local\n")];
    let once = merge_output(base, &first);
    let second = vec![
        merge_section("/x/b", "D2", "10.0.0.2 b.local\r\n10.0.0.3 c.local"),
        merge_section("https://h/list", "D2", ""),
    ];
    let twice = merge_output(&once, &second);
    assert_eq!(twice, merge_output(base, &second));
    assert!(!twice.contains("a.local"));
    assert_eq!(merge_output(&twice, &second), twice);
}
