use hostab::cli::{
    add_hostnames, api_rows, api_shown_rows, build_regex, compact_rows, glob_to_regex,
    join_strings, list_rows, privilege_warning, shown_rows_of, Cli, Commands, EntryCommands,
    PatternError,
};
use hostab::model::Row;
use hostab::parser::parse;

fn row(ip: &str, host: &str, comment: Option<&str>) -> Row {
    Row {
        ip: ip.into(),
        host: host.into(),
        comment: comment.map(|c| c.to_string()),
        canonical: None,
        aliases: vec![],
    }
}

#[test]
fn glob_translation() {
    assert_eq!(glob_to_regex("prod*"), "^prod.*$");
    assert_eq!(glob_to_regex("db.loca?"), "^db\\.loca.$");
    assert_eq!(glob_to_regex("a+(b)|[c]{d}^$\\"), "^a\\+\\(b\\)\\|\\[c\\]\\{d\\}\\^\\$\\\\$");
}

#[test]
fn filters_match_as_documented() {
    let f = build_regex("local", false).unwrap();
    assert!(f.is_match("app.local"));
    assert!(!f.is_match("APP.LOCAL"));
    let f = build_regex("local", true).unwrap();
    assert!(f.is_match("APP.LOCAL"));
    let f = build_regex("a.b", false).unwrap();
    assert!(f.is_match("xa.by"));
    assert!(!f.is_match("axb"), "a literal dot must not match any character");
    let f = build_regex("prod*", false).unwrap();
    assert!(f.is_match("prod.local"));
    assert!(!f.is_match("my.prod.local"), "a glob is anchored");
    let f = build_regex("db.loca?", false).unwrap();
    assert!(f.is_match("db.local"));
    assert!(!f.is_match("db.locals"));
    let f = build_regex("1+1", false).unwrap();
    assert!(f.is_match("1+1=2"));
}

#[test]
fn refused_patterns() {
    assert!(matches!(build_regex("", false), Err(PatternError::Empty)));
    assert!(matches!(build_regex(&"a".repeat(1025), false), Err(PatternError::TooLong)));
    assert!(build_regex(&"a".repeat(1024), false).is_ok());
    assert!(matches!(build_regex(&"é".repeat(513), false), Err(PatternError::TooLong)));
    assert_eq!(PatternError::Empty.message(), "empty pattern");
    assert_eq!(
        PatternError::TooLong.message(),
        "pattern exceeds maximum length of 1024 characters"
    );
    assert_eq!(
        PatternError::Invalid("boom".into()).message(),
        "invalid regex pattern: boom"
    );
}

#[test]
fn compacting_rows() {
    let rows = vec![
        row("10.0.0.1", "a.local", Some("x")),
        row("10.0.0.2", "b.local", None),
        row("10.0.0.1", "c.local", Some("")),
        row("10.0.0.1", "d.local", Some("x")),
        row("10.0.0.1", "e.local", Some("y")),
    ];
    let out = compact_rows(&rows);
    assert_eq!(out.len(), 2);
    assert_eq!(out[0].ip, "10.0.0.1");
    assert_eq!(out[0].host, "a.local c.local d.local e.local");
    assert_eq!(out[0].comment, Some("x; y".to_string()));
    assert_eq!(out[1].ip, "10.0.0.2");
    assert_eq!(out[1].host, "b.local");
    assert_eq!(out[1].comment, None);
    assert!(compact_rows(&[]).is_empty());
}

#[test]
fn hostnames_of_add() {
    let hosts: Vec<String> = vec!["b".into(), "c".into()];
    let aliases: Vec<String> = vec!["d".into()];
    assert_eq!(add_hostnames(&hosts, Some("a"), &aliases), vec!["a", "b", "c", "d"]);
    assert_eq!(add_hostnames(&hosts, None, &aliases), vec!["b", "c", "d"]);
    assert_eq!(add_hostnames(&[], None, &aliases), vec!["d"]);
    assert_eq!(join_strings(&vec!["x".to_string(), "y".to_string()], ", "), "x, y");
}

#[test]
fn listing_rows() {
    let entries = parse("10.0.0.1 a.local b.local # zq\n# 10.0.0.2 d.local\n::1 e.local\n");
    let rows = list_rows(&entries, false, false, None);
    assert_eq!(rows.len(), 2);
    assert_eq!(rows[0].host, "a.local b.local");
    let rows = list_rows(&entries, false, true, None);
    assert_eq!(rows.len(), 1);
    assert_eq!(rows[0].ip, "::1");
    let f = build_regex("zq", false).unwrap();
    let rows = list_rows(&entries, false, false, Some(&f));
    assert_eq!(rows.len(), 1, "a comment matches too");
    let rows = api_rows(&entries, false, false, None, true);
    assert_eq!(rows.len(), 4, "the API lists disabled entries too");
    let rows = api_rows(&entries, true, false, None, false);
    assert_eq!(rows.len(), 2);
    assert_eq!(rows[0].host, "a.local b.local");
}

#[test]
fn rows_of_given_filter_results() {
    let entries = parse("10.0.0.1 a.local\n10.0.0.2 b.local c.local\n# 10.0.0.3 d.local\n::1 e.local\n");
    let rows = shown_rows_of(&entries, &[false, true, true, true], false, false);
    assert_eq!(rows.len(), 2, "unmatched and disabled entries are not shown");
    assert_eq!(rows[0].ip, "10.0.0.2");
    assert_eq!(rows[0].host, "b.local c.local");
    assert_eq!(rows[1].ip, "::1");
    let rows = shown_rows_of(&entries, &[true, true, true, true], true, false);
    assert_eq!(rows.len(), 2);
    assert_eq!(rows[1].ip, "10.0.0.2");
    let rows = api_shown_rows(&entries, &[false, true, true, false], false, false, true);
    assert_eq!(rows.len(), 3);
    assert_eq!(rows[0].host, "b.local");
    assert_eq!(rows[1].host, "c.local");
    assert_eq!(rows[2].ip, "10.0.0.3");
    let rows = api_shown_rows(&entries, &[false, true, true, false], false, false, false);
    assert_eq!(rows.len(), 2);
    assert_eq!(rows[0].host, "b.local c.local");
    assert_eq!(rows[1].host, "d.local");
}

fn cli(path: &str, command: Commands) -> Cli {
    Cli { hosts_file: path.into(), quiet: false, out: "table".into(), no_color: false, command }
}

#[test]
fn root_warning() {
    let add = Commands::Entry(EntryCommands::Add {
        ip: "1.2.3.4".into(),
        hosts: vec![],
        canonical: None,
        aliases: vec![],
        comment: None,
    });
    assert_eq!(
        privilege_warning(&cli("/etc/hosts", add), false),
        Some("Warning: modifying /etc/hosts may require root privileges.".to_string())
    );
    let rm = Commands::Entry(EntryCommands::Rm { hosts: vec![], ip: None });
    assert_eq!(privilege_warning(&cli("/etc/hosts", rm), true), None);
    let rm = Commands::Entry(EntryCommands::Rm { hosts: vec![], ip: None });
    assert_eq!(privilege_warning(&cli("/tmp/hosts", rm), false), None);
    assert_eq!(privilege_warning(&cli("/etc/hosts", Commands::Cat), false), None);
    let merge = Commands::Merge { src: vec![], target: None };
    assert!(privilege_warning(&cli("/etc/hosts", merge), false).is_some());
    let merge = Commands::Merge { src: vec![], target: Some("/tmp/x".into()) };
    assert!(privilege_warning(&cli("/etc/hosts", merge), false).is_none());
}
