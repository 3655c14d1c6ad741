use hostab::check::{dedup_strings, issues_of, issues_with_keys};

fn issue(ln: usize, ip: &str, host: &str, what: &str) -> (usize, String, String, String) {
    (ln, ip.into(), host.into(), what.into())
}

#[test]
fn issues_by_line() {
    let content = "127.0.0.1 localhost\n# comment\n\nbad-ip host.local\n10.0.0.1\n10.0.0.2 -bad ok.local #c\n::1 LOCALHOST\n";
    let issues = issues_of(content);
    assert_eq!(
        issues,
        vec![
            issue(1, "127.0.0.1", "localhost", "duplicate"),
            issue(4, "bad-ip", "-", "invalid IP"),
            issue(5, "10.0.0.1", "-", "missing hostname"),
            issue(6, "10.0.0.2", "-bad", "invalid hostname"),
            issue(7, "::1", "localhost", "duplicate"),
        ]
    );
}

#[test]
fn duplicates_within_one_line() {
    let issues = issues_of("10.0.0.1 a.local a.local\n");
    assert_eq!(
        issues,
        vec![
            issue(1, "10.0.0.1", "a.local", "duplicate"),
            issue(1, "10.0.0.1", "a.local", "duplicate"),
        ]
    );
}

#[test]
fn clean_files() {
    assert!(issues_of("").is_empty());
    assert!(issues_of("127.0.0.1 localhost\n::1 ip6-localhost\n").is_empty());
}

#[test]
fn dedup_keeps_first_occurrences() {
    let v: Vec<String> = vec!["b".into(), "a".into(), "b".into(), "c".into(), "a".into()];
    assert_eq!(dedup_strings(&v), vec!["b", "a", "c"]);
}

#[test]
fn duplicates_go_by_the_given_keys() {
    let content = "10.0.0.1 a.local\n10.0.0.2 b.local\n";
    let same: Vec<Vec<String>> = vec![vec!["k".into()], vec!["k".into()]];
    assert_eq!(
        issues_with_keys(content, &same),
        vec![issue(1, "10.0.0.1", "k", "duplicate"), issue(2, "10.0.0.2", "k", "duplicate")]
    );
    let distinct: Vec<Vec<String>> = vec![vec!["a.local".into()], vec!["b.local".into()]];
    assert!(issues_with_keys(content, &distinct).is_empty());
}
