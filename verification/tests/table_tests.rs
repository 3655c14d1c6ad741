use hostab::check::Issue;
use hostab::model::Row;
use hostab::table::{
    format_issue_table, format_markdown, format_raw, format_resolve_table, format_status,
    format_table, output_format, render_rows, OutputFormat,
};

fn rows() -> Vec<Row> {
    vec![
        Row {
            ip: "127.0.0.1".into(),
            host: "localhost".into(),
            comment: None,
            canonical: Some("localhost".into()),
            aliases: vec![],
        },
        Row {
            ip: "10.0.0.1".into(),
            host: "app.local api.local".into(),
            comment: Some("dev".into()),
            canonical: Some("app.local".into()),
            aliases: vec!["api.local".into()],
        },
    ]
}

#[test]
fn raw_rendering() {
    assert_eq!(
        format_raw(&rows()),
        "IP\tHOST\tCOMMENT\tCANONICAL\n127.0.0.1\tlocalhost\t\tlocalhost\n10.0.0.1\tapp.local api.local\tdev\tapp.local\n"
    );
    assert_eq!(format_raw(&[]), "IP\tHOST\tCOMMENT\tCANONICAL\n");
}

#[test]
fn markdown_rendering() {
    assert_eq!(
        format_markdown(&rows()[..1]),
        "| IP | Host | Comment | Canonical |\n|----|------|---------|-----------|\n| 127.0.0.1 | localhost |  | localhost |\n"
    );
    assert_eq!(format_status(&rows()), "");
}

#[test]
fn boxed_table_rendering() {
    let t = format_table(&rows());
    assert_eq!(
        t,
        "╭───────────┬─────────────────────┬─────────┬───────────╮\n\
         │ ip        │ host                │ comment │ canonical │\n\
         ├───────────┼─────────────────────┼─────────┼───────────┤\n\
         │ 127.0.0.1 │ localhost           │         │ localhost │\n\
         │ 10.0.0.1  │ app.local api.local │ dev     │ app.local │\n\
         ╰───────────┴─────────────────────┴─────────┴───────────╯"
    );
    let compact = vec![Row {
        ip: "::1".into(),
        host: "a b".into(),
        comment: None,
        canonical: None,
        aliases: vec![],
    }];
    let t = format_table(&compact);
    assert!(t.contains("│ ip  │ host │ comment │"));
    assert!(!t.contains("canonical"));
}

#[test]
fn other_tables() {
    let t = format_resolve_table(&[("a.local".to_string(), "10.0.0.1".to_string())]);
    assert_eq!(
        t,
        "╭─────────┬──────────╮\n│ NAME    │ ADDR     │\n├─────────┼──────────┤\n│ a.local │ 10.0.0.1 │\n╰─────────┴──────────╯"
    );
    let issues: Vec<Issue> = vec![(12, "1.2.3.4".into(), "-".into(), "missing hostname".into())];
    let t = format_issue_table(&issues);
    assert!(t.contains("│ LINE │ ip      │ host │ issue            │"));
    assert!(t.contains("│ 12   │ 1.2.3.4 │ -    │ missing hostname │"));
}

#[test]
fn format_selection() {
    assert_eq!(output_format("json"), OutputFormat::Json);
    assert_eq!(output_format("raw"), OutputFormat::Raw);
    assert_eq!(output_format("markdown"), OutputFormat::Markdown);
    assert_eq!(output_format("table"), OutputFormat::Table);
    assert_eq!(output_format("md"), OutputFormat::Table);
    assert_eq!(render_rows(&OutputFormat::Json, &rows()), None);
    assert_eq!(render_rows(&OutputFormat::Raw, &rows()), Some(format_raw(&rows())));
    assert_eq!(render_rows(&OutputFormat::Table, &rows()), Some(format_table(&rows())));
}
