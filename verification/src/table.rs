//! Renderings of rows: a boxed table, tab-separated text and markdown.
use crate::model::{Row, RowView};
use crate::text::{chars_of, push_char, same_chars};
use vstd::prelude::*;

verus! {

/// An optional text, or nothing.
pub open spec fn or_empty(o: Option<Seq<char>>) -> Seq<char> {
    match o {
        Some(s) => s,
        None => Seq::empty(),
    }
}

/// `IP\tHOST\tCOMMENT\tCANONICAL\n`.
pub open spec fn raw_header() -> Seq<char> {
    seq![
        'I', 'P', '\t', 'H', 'O', 'S', 'T', '\t', 'C', 'O', 'M', 'M', 'E', 'N', 'T', '\t', 'C',
        'A', 'N', 'O', 'N', 'I', 'C', 'A', 'L', '\n',
    ]
}

/// One tab-separated row.
pub open spec fn raw_line(r: RowView) -> Seq<char> {
    r.ip + seq!['\t'] + r.host + seq!['\t'] + or_empty(r.comment) + seq!['\t'] + or_empty(
        r.canonical,
    ) + seq!['\n']
}

/// The tab-separated rendering of rows.
pub open spec fn raw_spec(rows: Seq<RowView>) -> Seq<char>
    decreases rows.len(),
{
    if rows.len() == 0 {
        raw_header()
    } else {
        raw_spec(rows.drop_last()) + raw_line(rows.last())
    }
}

/// `| IP | Host | Comment | Canonical |\n|----|------|---------|-----------|\n`.
pub open spec fn markdown_header() -> Seq<char> {
    seq![
        '|', ' ', 'I', 'P', ' ', '|', ' ', 'H', 'o', 's', 't', ' ', '|', ' ', 'C', 'o', 'm', 'm',
        'e', 'n', 't', ' ', '|', ' ', 'C', 'a', 'n', 'o', 'n', 'i', 'c', 'a', 'l', ' ', '|', '\n',
        '|', '-', '-', '-', '-', '|', '-', '-', '-', '-', '-', '-', '|', '-', '-', '-', '-', '-',
        '-', '-', '-', '-', '|', '-', '-', '-', '-', '-', '-', '-', '-', '-', '-', '-', '|', '\n',
    ]
}

/// One markdown table row.
pub open spec fn markdown_line(r: RowView) -> Seq<char> {
    seq!['|', ' '] + r.ip + seq![' ', '|', ' '] + r.host + seq![' ', '|', ' '] + or_empty(
        r.comment,
    ) + seq![' ', '|', ' '] + or_empty(r.canonical) + seq![' ', '|', '\n']
}

/// The markdown rendering of rows.
pub open spec fn markdown_spec(rows: Seq<RowView>) -> Seq<char>
    decreases rows.len(),
{
    if rows.len() == 0 {
        markdown_header()
    } else {
        markdown_spec(rows.drop_last()) + markdown_line(rows.last())
    }
}

/// The values of a list of rows.
pub open spec fn row_views(rows: Seq<Row>) -> Seq<RowView> {
    rows.map_values(|r: Row| r@)
}

/// Appends an optional text, or nothing.
fn push_opt(out: &mut String, o: &Option<String>)
    ensures
        final(out)@ == old(out)@ + or_empty(crate::model::opt_view(*o)),
{
    match o {
        Some(s) => out.append(s.as_str()),
        None => {
            assert(old(out)@ + Seq::<char>::empty() =~= old(out)@);
        },
    }
}

/// Tab-separated rows with a header line.
pub fn format_raw(rows: &[Row]) -> (out: String)
    ensures
        out@ == raw_spec(row_views(rows@)),
{
    let ghost rv = row_views(rows@);
    let mut output = "IP\tHOST\tCOMMENT\tCANONICAL\n".to_owned();
    proof {
        reveal_strlit("IP\tHOST\tCOMMENT\tCANONICAL\n");
    }
    assert(output@ =~= raw_header());
    for i in 0..rows.len()
        invariant
            rv == row_views(rows@),
            output@ == raw_spec(rv.take(i as int)),
    {
        let row = &rows[i];
        assert(rv.take(i + 1).drop_last() =~= rv.take(i as int));
        assert(rv.take(i + 1).last() == row@);
        output.append(row.ip.as_str());
        push_char(&mut output, '\t');
        output.append(row.host.as_str());
        push_char(&mut output, '\t');
        push_opt(&mut output, &row.comment);
        push_char(&mut output, '\t');
        push_opt(&mut output, &row.canonical);
        push_char(&mut output, '\n');
        assert(output@ =~= raw_spec(rv.take(i + 1)));
    }
    assert(rv.take(rows.len() as int) =~= rv);
    output
}

/// Appends one markdown table row.
fn push_markdown_line(output: &mut String, row: &Row)
    ensures
        final(output)@ == old(output)@ + markdown_line(row@),
{
    output.append("| ");
    output.append(row.ip.as_str());
    output.append(" | ");
    output.append(row.host.as_str());
    output.append(" | ");
    push_opt(output, &row.comment);
    output.append(" | ");
    push_opt(output, &row.canonical);
    output.append(" |\n");
    proof {
        reveal_strlit("| ");
        reveal_strlit(" | ");
        reveal_strlit(" |\n");
    }
    assert(final(output)@ =~= old(output)@ + markdown_line(row@));
}

/// A markdown table of rows.
pub fn format_markdown(rows: &[Row]) -> (out: String)
    ensures
        out@ == markdown_spec(row_views(rows@)),
{
    let ghost rv = row_views(rows@);
    let mut output = "| IP | Host | Comment | Canonical |\n".to_owned();
    output.append("|----|------|---------|-----------|\n");
    proof {
        reveal_strlit("| IP | Host | Comment | Canonical |\n");
        reveal_strlit("|----|------|---------|-----------|\n");
    }
    assert(output@ =~= markdown_header());
    for i in 0..rows.len()
        invariant
            rv == row_views(rows@),
            output@ == markdown_spec(rv.take(i as int)),
    {
        let row = &rows[i];
        assert(rv.take(i + 1).drop_last() =~= rv.take(i as int));
        assert(rv.take(i + 1).last() == row@);
        push_markdown_line(&mut output, row);
        assert(output@ =~= markdown_spec(rv.take(i + 1)));
    }
    assert(rv.take(rows.len() as int) =~= rv);
    output
}

/// A status rendering of rows: empty.
pub fn format_status(_rows: &[Row]) -> (out: String)
    ensures
        out@ == Seq::<char>::empty(),
{
    String::new()
}

/// The text tabled renders, in its rounded style, for a table whose records
/// (the first being the header) hold the given cells.
pub uninterp spec fn rounded_table(records: Seq<Seq<Seq<char>>>) -> Seq<char>;

/// Calls tabled: `Builder::from_iter` over the records, `build`, the
/// `Style::rounded()` setting and `to_string`. The contract names the rendered
/// text as a function of the cells; tabled's layout is not restated.
#[verifier::external_body]
fn render_rounded(records: &Vec<Vec<String>>) -> (r: String)
    ensures
        r@ == rounded_table(records.deep_view()),
{
    let mut table = tabled::builder::Builder::from_iter(records.iter().cloned()).build();
    table.with(tabled::settings::Style::rounded());
    table.to_string()
}

/// Whether some row names a canonical hostname.
pub open spec fn any_canonical(rows: Seq<RowView>) -> bool {
    exists|k: int| 0 <= k < rows.len() && (#[trigger] rows[k]).canonical is Some
}

/// The header of the table: `ip`, `host`, `comment`, and `canonical` when
/// some row names a canonical hostname.
pub open spec fn table_header(canonical: bool) -> Seq<Seq<char>> {
    let base = seq![
        seq!['i', 'p'],
        seq!['h', 'o', 's', 't'],
        seq!['c', 'o', 'm', 'm', 'e', 'n', 't'],
    ];
    if canonical {
        base.push(seq!['c', 'a', 'n', 'o', 'n', 'i', 'c', 'a', 'l'])
    } else {
        base
    }
}

/// The cells of one row.
pub open spec fn table_record(r: RowView, canonical: bool) -> Seq<Seq<char>> {
    let base = seq![r.ip, r.host, or_empty(r.comment)];
    if canonical {
        base.push(or_empty(r.canonical))
    } else {
        base
    }
}

/// The records of the table: the header, then one per row.
pub open spec fn table_records(rows: Seq<RowView>) -> Seq<Seq<Seq<char>>> {
    let c = any_canonical(rows);
    seq![table_header(c)] + rows.map_values(|r: RowView| table_record(r, c))
}

/// A text from a literal.
fn text(s: &str) -> (r: String)
    ensures
        r@ == s@,
{
    s.to_owned()
}

/// An optional text, or an empty one.
fn opt_text(o: &Option<String>) -> (r: String)
    ensures
        r@ == or_empty(crate::model::opt_view(*o)),
{
    match o {
        Some(s) => s.clone(),
        None => String::new(),
    }
}

/// The rows as a boxed table with rounded corners.
pub fn format_table(rows: &[Row]) -> (out: String)
    ensures
        out@ == rounded_table(table_records(row_views(rows@))),
{
    let ghost rv = row_views(rows@);
    let mut has_canonical = false;
    for i in 0..rows.len()
        invariant
            rv == row_views(rows@),
            has_canonical == exists|k: int| 0 <= k < i && (#[trigger] rv[k]).canonical is Some,
    {
        assert(rv[i as int] == rows@[i as int]@);
        if rows[i].canonical.is_some() {
            has_canonical = true;
        }
    }
    let mut header: Vec<String> = Vec::new();
    header.push(text("ip"));
    header.push(text("host"));
    header.push(text("comment"));
    if has_canonical {
        header.push(text("canonical"));
    }
    proof {
        reveal_strlit("ip");
        reveal_strlit("host");
        reveal_strlit("comment");
        reveal_strlit("canonical");
        assert("ip"@ =~= seq!['i', 'p']);
        assert("host"@ =~= seq!['h', 'o', 's', 't']);
        assert("comment"@ =~= seq!['c', 'o', 'm', 'm', 'e', 'n', 't']);
        assert("canonical"@ =~= seq!['c', 'a', 'n', 'o', 'n', 'i', 'c', 'a', 'l']);
    }
    assert(header.deep_view() =~= table_header(has_canonical));
    let mut records: Vec<Vec<String>> = Vec::new();
    records.push(header);
    for i in 0..rows.len()
        invariant
            rv == row_views(rows@),
            has_canonical == any_canonical(rv),
            records.deep_view() =~= table_records(rv).take(i + 1),
    {
        let r = &rows[i];
        let mut rec: Vec<String> = Vec::new();
        rec.push(r.ip.clone());
        rec.push(r.host.clone());
        rec.push(opt_text(&r.comment));
        if has_canonical {
            rec.push(opt_text(&r.canonical));
        }
        assert(rv[i as int] == r@);
        assert(rec.deep_view() =~= table_record(r@, has_canonical));
        let ghost prev = records.deep_view();
        records.push(rec);
        assert(records.deep_view() =~= prev.push(rec.deep_view()));
        assert(table_records(rv).take(i + 2) =~= table_records(rv).take(i + 1).push(
            table_record(r@, has_canonical),
        ));
    }
    assert(table_records(rv).take(rows.len() + 1) =~= table_records(rv));
    render_rounded(&records)
}

/// The records of the table of resolved names: a `NAME`/`ADDR` header,
/// then one record per pair.
pub open spec fn resolve_records(pairs: Seq<(Seq<char>, Seq<char>)>) -> Seq<Seq<Seq<char>>> {
    seq![seq![seq!['N', 'A', 'M', 'E'], seq!['A', 'D', 'D', 'R']]] + pairs.map_values(
        |p: (Seq<char>, Seq<char>)| seq![p.0, p.1],
    )
}

/// Resolved (name, address) pairs as a boxed table.
pub fn format_resolve_table(pairs: &[(String, String)]) -> (out: String)
    ensures
        out@ == rounded_table(resolve_records(crate::resolve::pair_views(pairs@))),
{
    let ghost pv = crate::resolve::pair_views(pairs@);
    let mut records: Vec<Vec<String>> = Vec::new();
    let mut header: Vec<String> = Vec::new();
    header.push(text("NAME"));
    header.push(text("ADDR"));
    proof {
        reveal_strlit("NAME");
        reveal_strlit("ADDR");
        assert("NAME"@ =~= seq!['N', 'A', 'M', 'E']);
        assert("ADDR"@ =~= seq!['A', 'D', 'D', 'R']);
    }
    assert(header.deep_view() =~= seq![seq!['N', 'A', 'M', 'E'], seq!['A', 'D', 'D', 'R']]);
    records.push(header);
    assert(records.deep_view() =~= resolve_records(pv).take(1));
    for i in 0..pairs.len()
        invariant
            pv == crate::resolve::pair_views(pairs@),
            records.deep_view() =~= resolve_records(pv).take(i + 1),
    {
        let mut rec: Vec<String> = Vec::new();
        rec.push(pairs[i].0.clone());
        rec.push(pairs[i].1.clone());
        let ghost prev = records.deep_view();
        assert(rec.deep_view() =~= seq![pv[i as int].0, pv[i as int].1]);
        records.push(rec);
        assert(records.deep_view() =~= prev.push(rec.deep_view()));
        assert(resolve_records(pv).take(i + 2) =~= resolve_records(pv).take(i + 1).push(
            seq![pv[i as int].0, pv[i as int].1],
        ));
    }
    assert(resolve_records(pv).take(pairs.len() + 1) =~= resolve_records(pv));
    render_rounded(&records)
}

/// The records of the table of issues: a `LINE`/`ip`/`host`/`issue` header,
/// then one record per issue with its line number in decimal.
pub open spec fn issue_records(issues: Seq<(nat, Seq<char>, Seq<char>, Seq<char>)>) -> Seq<
    Seq<Seq<char>>,
> {
    seq![
        seq![
            seq!['L', 'I', 'N', 'E'],
            seq!['i', 'p'],
            seq!['h', 'o', 's', 't'],
            seq!['i', 's', 's', 'u', 'e'],
        ],
    ] + issues.map_values(
        |t: (nat, Seq<char>, Seq<char>, Seq<char>)| seq![crate::store::decimal(t.0), t.1, t.2, t.3],
    )
}

/// Issues as a boxed table.
pub fn format_issue_table(issues: &[crate::check::Issue]) -> (out: String)
    ensures
        out@ == rounded_table(issue_records(crate::check::issues_view(issues@))),
{
    let ghost iv = crate::check::issues_view(issues@);
    let mut records: Vec<Vec<String>> = Vec::new();
    let mut header: Vec<String> = Vec::new();
    header.push(text("LINE"));
    header.push(text("ip"));
    header.push(text("host"));
    header.push(text("issue"));
    proof {
        reveal_strlit("LINE");
        reveal_strlit("ip");
        reveal_strlit("host");
        reveal_strlit("issue");
        assert("LINE"@ =~= seq!['L', 'I', 'N', 'E']);
        assert("ip"@ =~= seq!['i', 'p']);
        assert("host"@ =~= seq!['h', 'o', 's', 't']);
        assert("issue"@ =~= seq!['i', 's', 's', 'u', 'e']);
    }
    assert(header.deep_view() =~= seq![
        seq!['L', 'I', 'N', 'E'],
        seq!['i', 'p'],
        seq!['h', 'o', 's', 't'],
        seq!['i', 's', 's', 'u', 'e'],
    ]);
    records.push(header);
    assert(records.deep_view() =~= issue_records(iv).take(1));
    for i in 0..issues.len()
        invariant
            iv == crate::check::issues_view(issues@),
            records.deep_view() =~= issue_records(iv).take(i + 1),
    {
        let t = &issues[i];
        let mut rec: Vec<String> = Vec::new();
        rec.push(crate::store::decimal_text(t.0));
        rec.push(t.1.clone());
        rec.push(t.2.clone());
        rec.push(t.3.clone());
        let ghost prev = records.deep_view();
        let ghost want = seq![crate::store::decimal(iv[i as int].0), iv[i as int].1, iv[i as int].2, iv[i as int].3];
        assert(rec.deep_view() =~= want);
        records.push(rec);
        assert(records.deep_view() =~= prev.push(rec.deep_view()));
        assert(issue_records(iv).take(i + 2) =~= issue_records(iv).take(i + 1).push(want));
    }
    assert(issue_records(iv).take(issues.len() + 1) =~= issue_records(iv));
    render_rounded(&records)
}

/// The output formats of listings.
#[derive(Debug, PartialEq, Eq, Structural)]
pub enum OutputFormat {
    Json,
    Raw,
    Markdown,
    Table,
}

/// The format an `--out` value selects: `json`, `raw` and `markdown` by
/// name, the boxed table for anything else.
pub open spec fn format_spec(out: Seq<char>) -> OutputFormat {
    if out == seq!['j', 's', 'o', 'n'] {
        OutputFormat::Json
    } else if out == seq!['r', 'a', 'w'] {
        OutputFormat::Raw
    } else if out == seq!['m', 'a', 'r', 'k', 'd', 'o', 'w', 'n'] {
        OutputFormat::Markdown
    } else {
        OutputFormat::Table
    }
}

/// The format an `--out` value selects.
pub fn output_format(out: &str) -> (f: OutputFormat)
    ensures
        f == format_spec(out@),
{
    let o = chars_of(out);
    let json = vec!['j', 's', 'o', 'n'];
    let raw = vec!['r', 'a', 'w'];
    let markdown = vec!['m', 'a', 'r', 'k', 'd', 'o', 'w', 'n'];
    assert(json@ =~= seq!['j', 's', 'o', 'n']);
    assert(raw@ =~= seq!['r', 'a', 'w']);
    assert(markdown@ =~= seq!['m', 'a', 'r', 'k', 'd', 'o', 'w', 'n']);
    if same_chars(&o, &json) {
        OutputFormat::Json
    } else if same_chars(&o, &raw) {
        OutputFormat::Raw
    } else if same_chars(&o, &markdown) {
        OutputFormat::Markdown
    } else {
        OutputFormat::Table
    }
}

/// The text of a listing in a format other than JSON (which needs a
/// serializer): `None` for JSON.
pub fn render_rows(format: &OutputFormat, rows: &[Row]) -> (r: Option<String>)
    ensures
        match format {
            OutputFormat::Json => r is None,
            OutputFormat::Raw => r matches Some(t) && t@ == raw_spec(row_views(rows@)),
            OutputFormat::Markdown => r matches Some(t) && t@ == markdown_spec(row_views(rows@)),
            OutputFormat::Table => r matches Some(t) && t@ == rounded_table(
                table_records(row_views(rows@)),
            ),
        },
{
    match format {
        OutputFormat::Json => None,
        OutputFormat::Raw => Some(format_raw(rows)),
        OutputFormat::Markdown => Some(format_markdown(rows)),
        OutputFormat::Table => Some(format_table(rows)),
    }
}

} // verus!
