use hostab::parser::parse;

#[test]
fn test_parse_simple() {
    let input = "127.0.0.1 localhost\n::1 localhost\n";
    let result = parse(input);
    assert_eq!(result.len(), 2);
}

#[test]
fn test_parse_with_comment() {
    let input = "10.0.0.1 app.local # my app\n";
    let result = parse(input);
    assert_eq!(result.len(), 1);
    assert_eq!(result[0].comment, Some("my app".to_string()));
}

#[test]
fn test_parse_skips_comments() {
    let input = "# this is a comment\n127.0.0.1 real.local\n";
    let result = parse(input);
    assert_eq!(result.len(), 1);
    assert_eq!(result[0].canonical, "real.local");
}

#[test]
fn test_parse_empty() {
    assert_eq!(parse("").len(), 0);
    assert_eq!(parse("  \n  \n").len(), 0);
}

#[test]
fn test_parse_ipv6_full() {
    let input = "fe80::1 localhost6\n2001:db8::1 example.com\n";
    let result = parse(input);
    assert_eq!(result.len(), 2);
    assert_eq!(result[0].ip, "fe80::1");
}

#[test]
fn test_parse_tab_separated() {
    let input = "127.0.0.1\tlocalhost\n";
    let result = parse(input);
    assert_eq!(result.len(), 1);
    assert_eq!(result[0].canonical, "localhost");
}

#[test]
fn test_parse_disabled_entry() {
    let input = "# 10.0.0.1 blocked.local\n";
    let result = parse(input);
    assert_eq!(result.len(), 1);
    assert!(result[0].disabled);
}

#[test]
fn test_parse_disabled_with_comment() {
    let input = "# 10.0.0.1 blocked.local # blocked reason\n";
    let result = parse(input);
    assert_eq!(result.len(), 1);
    assert!(result[0].disabled);
    assert_eq!(result[0].comment, Some("blocked reason".to_string()));
}

#[test]
fn test_parse_mixed_lines() {
    let input = "127.0.0.1 localhost\n# 10.0.0.1 blocked.local\n::1 localhost6\n";
    let result = parse(input);
    assert_eq!(result.len(), 3);
    let disabled: Vec<_> = result.iter().filter(|e| e.disabled).collect();
    let enabled: Vec<_> = result.iter().filter(|e| !e.disabled).collect();
    assert_eq!(disabled.len(), 1);
    assert_eq!(enabled.len(), 2);
    assert_eq!(disabled[0].canonical, "blocked.local");
}

#[test]
fn test_parse_extra_spaces() {
    let input = "  127.0.0.1     localhost   \n";
    let result = parse(input);
    assert_eq!(result.len(), 1);
    assert_eq!(result[0].canonical, "localhost");
}

#[test]
fn test_parse_many_hostnames() {
    let hosts: Vec<String> = (0..10).map(|i| format!("host{}.local", i)).collect();
    let line = format!("10.0.0.1 {}\n", hosts.join(" "));
    let result = parse(&line);
    assert_eq!(result.len(), 1);
    assert_eq!(result[0].canonical, hosts[0].clone());
    assert_eq!(result[0].aliases, hosts[1..].to_vec());
}

#[test]
fn test_parse_comment_with_hash_in_content() {
    let input = "10.0.0.1 example.com # version #2\n";
    let result = parse(input);
    assert_eq!(result.len(), 1);
    assert_eq!(result[0].comment, Some("version #2".to_string()));
}

#[test]
fn test_parse_dos_newlines() {
    let input = "127.0.0.1 localhost\r\n::1 localhost6\r\n";
    let result = parse(input);
    assert_eq!(result.len(), 2);
}

#[test]
fn test_parse_no_trailing_newline() {
    let input = "127.0.0.1 localhost";
    let result = parse(input);
    assert_eq!(result.len(), 1);
}

#[test]
fn test_parse_canonical_split() {
    let input = "10.0.0.1 app.local api.local web.local
";
    let result = parse(input);
    assert_eq!(result.len(), 1);
    assert_eq!(result[0].canonical, "app.local");
    assert_eq!(result[0].aliases, vec!["api.local", "web.local"]);
}

#[test]
fn test_parse_single_no_alias() {
    let input = "10.0.0.1 app.local
";
    let result = parse(input);
    assert_eq!(result.len(), 1);
    assert_eq!(result[0].canonical, "app.local");
    assert!(result[0].aliases.is_empty());
}

#[test]
fn test_parse_canonical_disabled() {
    let input = "# 10.0.0.1 blocked.local alt.local
";
    let result = parse(input);
    assert_eq!(result.len(), 1);
    assert!(result[0].disabled);
    assert_eq!(result[0].canonical, "blocked.local");
    assert_eq!(result[0].aliases, vec!["alt.local"]);
}

#[test]
fn parse_numbers_entries_from_one_and_keeps_raw_line() {
    let result = parse("\n10.0.0.1 a.local\n\n10.0.0.2 b.local  \n");
    assert_eq!(result.len(), 2);
    assert_eq!(result[0].id, 1);
    assert_eq!(result[1].id, 2);
    assert_eq!(result[1].raw, Some("10.0.0.2 b.local".to_string()));
}

#[test]
fn parse_reads_comment_line_with_words_as_entry() {
    let result = parse("# note\n");
    assert_eq!(result.len(), 1);
    assert_eq!(result[0].ip, "#");
    assert_eq!(result[0].canonical, "note");
}

#[test]
fn parse_drops_line_without_hostname() {
    assert_eq!(parse("127.0.0.1\n").len(), 0);
    assert_eq!(parse("127.0.0.1   \n").len(), 0);
}

#[test]
fn parse_skips_commented_line_whose_address_is_not_ip() {
    assert_eq!(parse("# this is text\n").len(), 0);
    assert_eq!(parse("# not-an-ip host.local\n").len(), 0);
    let result = parse("#   10.0.0.1 a.local\n");
    assert_eq!(result.len(), 1);
    assert!(result[0].disabled);
    assert_eq!(result[0].ip, "10.0.0.1");
}

#[test]
fn parse_comment_directly_after_hostname() {
    let result = parse("10.0.0.1 app.local#tag\n");
    assert_eq!(result.len(), 1);
    assert_eq!(result[0].canonical, "app.local");
    assert_eq!(result[0].comment, Some("tag".to_string()));
}

#[test]
fn parse_empty_comment_is_kept_as_empty() {
    let result = parse("10.0.0.1 app.local #\n");
    assert_eq!(result.len(), 1);
    assert_eq!(result[0].comment, Some(String::new()));
}
