//! The decisions behind the command line and the HTTP API: which rows a
//! listing shows, how a filter pattern becomes a regex, which hostnames an
//! `add` names, and what a local lookup finds.
use crate::addr::{is_ipv4_text, is_ipv6_text};
use crate::check::dedup;
use crate::edit::strs;
use crate::model::{clone_opt, clone_strings, opt_view, Entry, EntryView, Row, RowView};
use crate::serializer::{hostnames, join_words};
use crate::text::{chars_of, contains_chars, contains_seq, push_char};
use crate::validation::{is_valid_ipv4, is_valid_ipv6, utf8_len, utf8_len_upto};
use vstd::prelude::*;

verus! {

/// Global options and the command to run.
pub struct Cli {
    /// Path to the hosts file
    pub hosts_file: String,
    /// Suppress output
    pub quiet: bool,
    /// Output format: table, raw, markdown, json
    pub out: String,
    /// Disable colored output
    pub no_color: bool,
    pub command: Commands,
}

/// The top-level commands.
pub enum Commands {
    /// Manage individual hosts entries
    Entry(EntryCommands),
    /// Validate the hosts file
    Verify { strict: bool },
    /// Print raw hosts file content
    Cat,
    /// Resolve hostnames (DNS or local hosts file)
    Resolve { hosts: Vec<String>, local: bool },
    /// Merge hosts entries from multiple sources
    Merge { src: Vec<String>, target: Option<String> },
    /// Generate shell completion scripts
    Completion { shell: String },
    /// Show detailed version info
    Version,
    /// Start HTTP REST API server
    Serve { port: u16, bind: String, no_docs: bool },
}

/// The entry subcommands.
#[allow(inconsistent_fields)]
pub enum EntryCommands {
    /// List all entries
    List {
        ipv4: bool,
        ipv6: bool,
        expand: bool,
        pattern: Option<String>,
        ignore_case: bool,
    },
    /// Add a new entry
    Add {
        ip: String,
        hosts: Vec<String>,
        canonical: Option<String>,
        aliases: Vec<String>,
        comment: Option<String>,
    },
    /// Remove entries
    Rm { hosts: Vec<String>, ip: Option<String> },
    /// Disable hostnames (comment out, split from shared IP)
    Disable { hosts: Vec<String>, ip: Option<String> },
    /// Enable hostnames (uncomment, merge back to IP)
    Enable { hosts: Vec<String>, ip: Option<String> },
    /// Toggle a hostname enabled/disabled
    Toggle { host: String, ip: Option<String> },
    /// Move a hostname to a new IP
    Edit { host: String, ip: String },
}

/// Texts joined by a separator (`[String]::join`).
pub open spec fn join_with(ws: Seq<Seq<char>>, sep: Seq<char>) -> Seq<char>
    decreases ws.len(),
{
    if ws.len() == 0 {
        Seq::empty()
    } else if ws.len() == 1 {
        ws[0]
    } else {
        join_with(ws.drop_last(), sep) + sep + ws.last()
    }
}

/// Joins texts with a separator.
pub fn join_strings(ws: &Vec<String>, sep: &str) -> (r: String)
    ensures
        r@ == join_with(ws.deep_view(), sep@),
{
    let ghost wv = ws.deep_view();
    let mut r = String::new();
    for i in 0..ws.len()
        invariant
            wv == ws.deep_view(),
            r@ == join_with(wv.take(i as int), sep@),
    {
        assert(wv.take(i + 1).drop_last() =~= wv.take(i as int));
        assert(wv.take(i + 1).last() == ws@[i as int]@);
        if i > 0 {
            r.append(sep);
        } else {
            assert(wv.take(1) =~= seq![ws@[0]@]);
        }
        r.append(ws[i].as_str());
    }
    assert(wv.take(ws.len() as int) =~= wv);
    r
}

/// The addresses of the rows, in order.
pub open spec fn row_ips(rows: Seq<RowView>) -> Seq<Seq<char>> {
    rows.map_values(|r: RowView| r.ip)
}

/// The hosts of the rows of one address, in order.
pub open spec fn hosts_for(rows: Seq<RowView>, ip: Seq<char>) -> Seq<Seq<char>>
    decreases rows.len(),
{
    if rows.len() == 0 {
        Seq::empty()
    } else if rows.last().ip == ip {
        hosts_for(rows.drop_last(), ip).push(rows.last().host)
    } else {
        hosts_for(rows.drop_last(), ip)
    }
}

/// The distinct non-empty comments of the rows of one address, in order.
pub open spec fn comments_for(rows: Seq<RowView>, ip: Seq<char>) -> Seq<Seq<char>>
    decreases rows.len(),
{
    if rows.len() == 0 {
        Seq::empty()
    } else {
        let prev = comments_for(rows.drop_last(), ip);
        let r = rows.last();
        if r.ip == ip && r.comment is Some && r.comment.unwrap().len() > 0 && !prev.contains(
            r.comment.unwrap(),
        ) {
            prev.push(r.comment.unwrap())
        } else {
            prev
        }
    }
}

/// The one row that stands for all rows of an address.
pub open spec fn compact_row(rows: Seq<RowView>, ip: Seq<char>) -> RowView {
    let cs = comments_for(rows, ip);
    RowView {
        ip,
        host: join_with(hosts_for(rows, ip), seq![' ']),
        comment: if cs.len() == 0 {
            None
        } else {
            Some(join_with(cs, seq![';', ' ']))
        },
        canonical: None,
        aliases: Seq::empty(),
    }
}

/// One row per address, in order of first appearance: its hosts joined by
/// spaces, its distinct non-empty comments joined by `; `.
pub open spec fn compact_spec(rows: Seq<RowView>) -> Seq<RowView> {
    dedup(row_ips(rows)).map_values(|ip: Seq<char>| compact_row(rows, ip))
}

/// The rows of one address compacted into one.
fn compact_one(rows: &[Row], ip: &String) -> (r: Row)
    ensures
        r@ == compact_row(crate::table::row_views(rows@), ip@),
{
    let ghost rv = crate::table::row_views(rows@);
    let mut hosts: Vec<String> = Vec::new();
    let mut comments: Vec<String> = Vec::new();
    for i in 0..rows.len()
        invariant
            rv == crate::table::row_views(rows@),
            hosts.deep_view() == hosts_for(rv.take(i as int), ip@),
            comments.deep_view() == comments_for(rv.take(i as int), ip@),
    {
        let row = &rows[i];
        assert(rv.take(i + 1).drop_last() =~= rv.take(i as int));
        assert(rv.take(i + 1).last() == row@);
        if row.ip == *ip {
            let ghost prev = hosts.deep_view();
            hosts.push(row.host.clone());
            assert(hosts.deep_view() =~= prev.push(row@.host));
            match &row.comment {
                Some(c) => {
                    let seen = crate::edit::contains_str(comments.as_slice(), c);
                    assert(strs(comments@) =~= comments.deep_view());
                    if !c.as_str().is_empty() && !seen {
                        let ghost prevc = comments.deep_view();
                        comments.push(c.clone());
                        assert(comments.deep_view() =~= prevc.push(c@));
                    }
                },
                None => {},
            }
        }
    }
    assert(rv.take(rows.len() as int) =~= rv);
    let host = join_strings(&hosts, " ");
    let comment = if comments.len() == 0 {
        None
    } else {
        Some(join_strings(&comments, "; "))
    };
    proof {
        reveal_strlit(" ");
        reveal_strlit("; ");
        assert(" "@ =~= seq![' ']);
        assert("; "@ =~= seq![';', ' ']);
    }
    assert(host@ == join_with(hosts_for(rv, ip@), seq![' ']));
    assert(opt_view(comment) == compact_row(rv, ip@).comment);
    let r = Row { ip: ip.clone(), host, comment, canonical: None, aliases: Vec::new() };
    assert(r@.aliases =~= Seq::<Seq<char>>::empty());
    r
}

/// Merge rows with the same IP into one row, joining hostnames with spaces.
pub fn compact_rows(rows: &[Row]) -> (out: Vec<Row>)
    ensures
        out.deep_view() == compact_spec(crate::table::row_views(rows@)),
{
    let ghost rv = crate::table::row_views(rows@);
    let mut ips: Vec<String> = Vec::new();
    for i in 0..rows.len()
        invariant
            rv == crate::table::row_views(rows@),
            ips@.len() == i,
            forall|k: int| 0 <= k < i ==> #[trigger] ips@[k]@ == rv[k].ip,
    {
        ips.push(rows[i].ip.clone());
    }
    assert(ips.deep_view() =~= row_ips(rv));
    let order = crate::check::dedup_strings(&ips);
    let mut out: Vec<Row> = Vec::new();
    for k in 0..order.len()
        invariant
            rv == crate::table::row_views(rows@),
            out@.len() == k,
            forall|m: int|
                0 <= m < k ==> #[trigger] out@[m]@ == compact_row(rv, order@[m]@),
    {
        out.push(compact_one(rows, &order[k]));
    }
    assert(out.deep_view() =~= compact_spec(rv));
    out
}

/// What a glob character becomes in a regex: `*` any run, `?` any
/// character, regex meta characters escaped, others themselves.
pub open spec fn glob_char(c: char) -> Seq<char> {
    if c == '*' {
        seq!['.', '*']
    } else if c == '?' {
        seq!['.']
    } else if c == '.' || c == '+' || c == '(' || c == ')' || c == '|' || c == '^' || c == '$'
        || c == '{' || c == '}' || c == '[' || c == ']' || c == '\\' {
        seq!['\\', c]
    } else {
        seq![c]
    }
}

/// The regex text of the glob characters, in order.
pub open spec fn glob_body(p: Seq<char>) -> Seq<char>
    decreases p.len(),
{
    if p.len() == 0 {
        Seq::empty()
    } else {
        glob_body(p.drop_last()) + glob_char(p.last())
    }
}

/// A glob pattern as an anchored regex.
pub open spec fn glob_spec(p: Seq<char>) -> Seq<char> {
    seq!['^'] + glob_body(p) + seq!['$']
}

/// Translate a glob pattern (`*`, `?`) into an anchored regex.
pub fn glob_to_regex(pattern: &str) -> (out: String)
    ensures
        out@ == glob_spec(pattern@),
{
    let p = chars_of(pattern);
    let mut out = String::new();
    push_char(&mut out, '^');
    for i in 0..p.len()
        invariant
            p@ == pattern@,
            out@ == seq!['^'] + glob_body(p@.take(i as int)),
    {
        let ch = p[i];
        assert(p@.take(i + 1).drop_last() =~= p@.take(i as int));
        assert(p@.take(i + 1).last() == ch);
        if ch == '*' {
            push_char(&mut out, '.');
            push_char(&mut out, '*');
        } else if ch == '?' {
            push_char(&mut out, '.');
        } else if ch == '.' || ch == '+' || ch == '(' || ch == ')' || ch == '|' || ch == '^' || ch
            == '$' || ch == '{' || ch == '}' || ch == '[' || ch == ']' || ch == '\\' {
            push_char(&mut out, '\\');
            push_char(&mut out, ch);
        } else {
            push_char(&mut out, ch);
        }
        assert(out@ =~= seq!['^'] + glob_body(p@.take(i + 1)));
    }
    assert(p@.take(p.len() as int) =~= p@);
    push_char(&mut out, '$');
    out
}

/// A regex meta character (`regex_syntax::is_meta_character`).
pub open spec fn is_meta_char(c: char) -> bool {
    c == '\\' || c == '.' || c == '+' || c == '*' || c == '?' || c == '(' || c == ')' || c == '|'
        || c == '[' || c == ']' || c == '{' || c == '}' || c == '^' || c == '$' || c == '#' || c
        == '&' || c == '-' || c == '~'
}

/// A text with every meta character preceded by a backslash (`regex::escape`).
pub open spec fn escape_spec(s: Seq<char>) -> Seq<char>
    decreases s.len(),
{
    if s.len() == 0 {
        Seq::empty()
    } else {
        escape_spec(s.drop_last()) + if is_meta_char(s.last()) {
            seq!['\\', s.last()]
        } else {
            seq![s.last()]
        }
    }
}

/// Calls `regex::escape`, which puts a backslash before every regex meta
/// character (`\\ . + * ? ( ) | [ ] { } ^ $ # & - ~`) and keeps every
/// other character.
#[verifier::external_body]
fn regex_escape(s: &str) -> (r: String)
    ensures
        r@ == escape_spec(s@),
{
    regex::escape(s)
}

/// The regex crate's compiled regex, carried through opaquely.
#[verifier::external_type_specification]
#[verifier::external_body]
pub struct ExRegex(regex::Regex);

/// The regex crate's compile error, carried through opaquely.
#[verifier::external_type_specification]
#[verifier::external_body]
pub struct ExRegexError(regex::Error);

/// Whether the regex crate compiles a pattern (with the given case
/// sensitivity) within its default limits.
pub uninterp spec fn regex_compiles(src: Seq<char>, ignore_case: bool) -> bool;

/// Whether a regex compiled from the pattern (with the given case
/// sensitivity) matches somewhere in the text (`Regex::is_match`).
pub uninterp spec fn regex_matches(src: Seq<char>, ignore_case: bool, text: Seq<char>) -> bool;

/// Calls `RegexBuilder::new(src).case_insensitive(ignore_case).build()`.
/// The contract claims only that whether it succeeds is a function of the
/// pattern and the flag; regex syntax is not restated.
#[verifier::external_body]
fn compile_regex(src: &str, ignore_case: bool) -> (r: Result<regex::Regex, regex::Error>)
    ensures
        r is Ok <==> regex_compiles(src@, ignore_case),
{
    regex::RegexBuilder::new(src).case_insensitive(ignore_case).build()
}

/// Formats a regex error with its `Display` impl; nothing is stated of the
/// text.
#[verifier::external_body]
fn regex_error_text(e: &regex::Error) -> String {
    format!("{}", e)
}

/// A compiled filter: the regex, the pattern text it was compiled from and
/// its case sensitivity. Only [`build_regex`] makes one, so the regex is
/// always the one the pattern and flag compile to.
pub struct Filter {
    re: regex::Regex,
    source: String,
    ignore_case: bool,
}

/// The value of a [`Filter`]: its pattern text and case sensitivity.
pub struct FilterView {
    pub source: Seq<char>,
    pub ignore_case: bool,
}

impl View for Filter {
    type V = FilterView;

    closed spec fn view(&self) -> FilterView {
        FilterView { source: self.source@, ignore_case: self.ignore_case }
    }
}

/// Calls `Regex::is_match` on the filter's regex. The contract claims that
/// the outcome is a function of the pattern text, the flag and the haystack
/// (the regex being the one they compile to); regex semantics are not restated.
#[verifier::external_body]
fn regex_is_match(f: &Filter, text: &str) -> (b: bool)
    ensures
        b == regex_matches(f@.source, f@.ignore_case, text@),
{
    f.re.is_match(text)
}

/// Whether the filter matches somewhere in the text.
pub open spec fn filter_matches(f: FilterView, text: Seq<char>) -> bool {
    regex_matches(f.source, f.ignore_case, text)
}

impl Filter {
    /// Tests the filter against a text.
    pub fn is_match(&self, text: &str) -> (b: bool)
        ensures
            b == filter_matches(self@, text@),
    {
        regex_is_match(self, text)
    }
}

/// The regex text a filter pattern becomes: a glob when it holds `*` or `?`,
/// else an escaped literal (a substring search).
pub open spec fn filter_source(p: Seq<char>) -> Seq<char> {
    if p.contains('*') || p.contains('?') {
        glob_spec(p)
    } else {
        escape_spec(p)
    }
}

/// Why a filter pattern was refused.
#[derive(Debug)]
pub enum PatternError {
    /// The pattern is empty.
    Empty,
    /// The pattern is longer than 1024 bytes.
    TooLong,
    /// The regex crate refused the regex the pattern became.
    Invalid(String),
}

impl PatternError {
    /// The message that reports the refusal.
    pub fn message(&self) -> (r: String)
        ensures
            r@ == match self {
                PatternError::Empty => "empty pattern"@,
                PatternError::TooLong => "pattern exceeds maximum length of 1024 characters"@,
                PatternError::Invalid(e) => "invalid regex pattern: "@ + e@,
            },
    {
        match self {
            PatternError::Empty => String::from_str("empty pattern"),
            PatternError::TooLong => String::from_str(
                "pattern exceeds maximum length of 1024 characters",
            ),
            PatternError::Invalid(e) => {
                let mut r = String::from_str("invalid regex pattern: ");
                r.append(e.as_str());
                r
            },
        }
    }
}

/// Tests whether a character sequence holds `c`.
fn has_char(s: &Vec<char>, c: char) -> (b: bool)
    ensures
        b == s@.contains(c),
{
    let mut i: usize = 0;
    while i < s.len()
        invariant
            i <= s.len(),
            forall|k: int| 0 <= k < i ==> s@[k] != c,
        decreases s.len() - i,
    {
        if s[i] == c {
            return true;
        }
        i += 1;
    }
    false
}

/// Build regex from pattern. `*`/`?` → glob, else literal substring.
pub fn build_regex(pattern: &str, ignore_case: bool) -> (r: Result<Filter, PatternError>)
    ensures
        pattern@.len() == 0 <==> r matches Err(PatternError::Empty),
        (pattern@.len() > 0 && utf8_len(pattern@) > 1024) <==> r matches Err(PatternError::TooLong),
        (pattern@.len() > 0 && utf8_len(pattern@) <= 1024) ==> (r is Ok <==> regex_compiles(
            filter_source(pattern@),
            ignore_case,
        )),
        r matches Ok(f) ==> f@ == (FilterView {
            source: filter_source(pattern@),
            ignore_case,
        }),
{
    let p = chars_of(pattern);
    if p.len() == 0 {
        return Err(PatternError::Empty);
    }
    if utf8_len_upto(&p, 1024) > 1024 {
        return Err(PatternError::TooLong);
    }
    let has_wildcards = has_char(&p, '*') || has_char(&p, '?');
    let source = if has_wildcards {
        glob_to_regex(pattern)
    } else {
        regex_escape(pattern)
    };
    match compile_regex(source.as_str(), ignore_case) {
        Ok(re) => Ok(Filter { re, source, ignore_case }),
        Err(e) => Err(PatternError::Invalid(regex_error_text(&e))),
    }
}

/// The value of an optional filter.
pub open spec fn opt_filter(f: Option<&Filter>) -> Option<FilterView> {
    match f {
        Some(x) => Some(x@),
        None => None,
    }
}

/// Whether an entry passes the filter: no filter, or a match in its
/// address, an alias, its canonical name or its comment.
pub open spec fn entry_matches(f: Option<FilterView>, e: EntryView) -> bool {
    match f {
        None => true,
        Some(f) => filter_matches(f, e.ip) || (exists|k: int|
            0 <= k < e.aliases.len() && filter_matches(f, #[trigger] e.aliases[k]))
            || filter_matches(f, e.canonical) || (e.comment matches Some(c) && filter_matches(
            f,
            c,
        )),
    }
}

/// Whether an address passes the family options.
pub open spec fn family_ok(ip: Seq<char>, ipv4: bool, ipv6: bool) -> bool {
    (!ipv4 || is_ipv4_text(ip)) && (!ipv6 || is_ipv6_text(ip))
}

/// The row a listing shows for an entry: all its hostnames joined by spaces.
pub open spec fn list_row(e: EntryView) -> RowView {
    RowView {
        ip: e.ip,
        host: join_words(hostnames(e)),
        comment: e.comment,
        canonical: Some(e.canonical),
        aliases: e.aliases,
    }
}

/// Whether each entry passes the filter, in order.
pub open spec fn match_flags(f: Option<FilterView>, es: Seq<EntryView>) -> Seq<bool> {
    es.map_values(|e: EntryView| entry_matches(f, e))
}

/// Whether a listing shows an entry that passed (or failed) the filter:
/// enabled, holding a hostname, passed, and passing the family options.
pub open spec fn is_shown(e: EntryView, matched: bool, ipv4: bool, ipv6: bool) -> bool {
    !e.disabled && !crate::edit::is_blank(e) && matched && family_ok(e.ip, ipv4, ipv6)
}

/// The rows of a listing of entries whose filter results are given, in order.
pub open spec fn shown_rows(es: Seq<EntryView>, matched: Seq<bool>, ipv4: bool, ipv6: bool) -> Seq<
    RowView,
>
    decreases es.len(),
{
    if es.len() == 0 {
        Seq::empty()
    } else if is_shown(es.last(), matched[es.len() - 1], ipv4, ipv6) {
        shown_rows(es.drop_last(), matched, ipv4, ipv6).push(list_row(es.last()))
    } else {
        shown_rows(es.drop_last(), matched, ipv4, ipv6)
    }
}

/// The rows of a listing, in order.
pub open spec fn list_spec(es: Seq<EntryView>, f: Option<FilterView>, ipv4: bool, ipv6: bool) -> Seq<
    RowView,
> {
    shown_rows(es, match_flags(f, es), ipv4, ipv6)
}

/// Whether an entry passes the filter (`entry_matches`).
fn entry_passes(f: Option<&Filter>, e: &Entry) -> (b: bool)
    ensures
        b == entry_matches(opt_filter(f), e@),
{
    match f {
        None => true,
        Some(re) => {
            if re.is_match(e.ip.as_str()) {
                return true;
            }
            let mut k: usize = 0;
            while k < e.aliases.len()
                invariant
                    k <= e.aliases.len(),
                    opt_filter(f) == Some(re@),
                    forall|m: int| 0 <= m < k ==> !filter_matches(re@, #[trigger] e@.aliases[m]),
                decreases e.aliases.len() - k,
            {
                if re.is_match(e.aliases[k].as_str()) {
                    assert(e@.aliases[k as int] == e.aliases@[k as int]@);
                    assert(filter_matches(re@, e@.aliases[k as int]));
                    return true;
                }
                assert(e@.aliases[k as int] == e.aliases@[k as int]@);
                k += 1;
            }
            if re.is_match(e.canonical.as_str()) {
                return true;
            }
            match &e.comment {
                Some(c) => re.is_match(c.as_str()),
                None => false,
            }
        },
    }
}

/// Whether each entry passes the filter.
fn match_flags_of(entries: &[Entry], f: Option<&Filter>) -> (flags: Vec<bool>)
    ensures
        flags@ == match_flags(opt_filter(f), crate::edit::entry_views(entries@)),
{
    let mut flags: Vec<bool> = Vec::new();
    for i in 0..entries.len()
        invariant
            flags@.len() == i,
            forall|m: int|
                0 <= m < i ==> #[trigger] flags@[m] == entry_matches(opt_filter(f), entries@[m]@),
    {
        flags.push(entry_passes(f, &entries[i]));
    }
    assert(flags@ =~= match_flags(opt_filter(f), crate::edit::entry_views(entries@)));
    flags
}

/// Whether an address passes the family options (`family_ok`).
fn family_passes(ip: &String, ipv4: bool, ipv6: bool) -> (b: bool)
    ensures
        b == family_ok(ip@, ipv4, ipv6),
{
    if ipv4 && !is_valid_ipv4(ip.as_str()) {
        return false;
    }
    if ipv6 && !is_valid_ipv6(ip.as_str()) {
        return false;
    }
    true
}

/// The rows a listing shows of entries whose filter results are given: one
/// per enabled entry that holds a hostname, passed the filter and passes
/// the family options.
pub fn shown_rows_of(entries: &[Entry], matched: &[bool], ipv4: bool, ipv6: bool) -> (rows: Vec<
    Row,
>)
    requires
        matched@.len() == entries@.len(),
    ensures
        rows.deep_view() == shown_rows(crate::edit::entry_views(entries@), matched@, ipv4, ipv6),
{
    let ghost ev = crate::edit::entry_views(entries@);
    let mut rows: Vec<Row> = Vec::new();
    for i in 0..entries.len()
        invariant
            ev == crate::edit::entry_views(entries@),
            matched@.len() == entries@.len(),
            rows.deep_view() == shown_rows(ev.take(i as int), matched@, ipv4, ipv6),
    {
        let entry = &entries[i];
        assert(ev.take(i + 1).drop_last() =~= ev.take(i as int));
        assert(ev.take(i + 1).last() == entry@);
        let shown = !entry.disabled && !(entry.canonical.as_str().is_empty()
            && entry.aliases.len() == 0) && matched[i] && family_passes(&entry.ip, ipv4, ipv6);
        if shown {
            let row = Row {
                ip: entry.ip.clone(),
                host: crate::serializer::join_hostnames(entry),
                comment: clone_opt(&entry.comment),
                canonical: Some(entry.canonical.clone()),
                aliases: clone_strings(&entry.aliases),
            };
            let ghost prev = rows.deep_view();
            rows.push(row);
            assert(rows.deep_view() =~= prev.push(list_row(entry@)));
        }
    }
    assert(ev.take(entries.len() as int) =~= ev);
    rows
}

/// The rows `entry list` shows: one per enabled entry that passes the
/// filter and the family options.
pub fn list_rows(entries: &[Entry], ipv4: bool, ipv6: bool, filter: Option<&Filter>) -> (rows: Vec<
    Row,
>)
    ensures
        rows.deep_view() == list_spec(
            crate::edit::entry_views(entries@),
            opt_filter(filter),
            ipv4,
            ipv6,
        ),
{
    let flags = match_flags_of(entries, filter);
    shown_rows_of(entries, flags.as_slice(), ipv4, ipv6)
}

/// The row the API shows for one hostname of an entry.
pub open spec fn host_row(e: EntryView, h: Seq<char>) -> RowView {
    RowView { ip: e.ip, host: h, comment: e.comment, canonical: Some(e.canonical), aliases: e.aliases }
}

/// Whether the API lists an entry that passed (or failed) the filter:
/// holding a hostname (disabled or not), passed, and passing the family options.
pub open spec fn is_api_shown(e: EntryView, matched: bool, ipv4: bool, ipv6: bool) -> bool {
    !crate::edit::is_blank(e) && matched && family_ok(e.ip, ipv4, ipv6)
}

/// The rows the API lists of entries whose filter results are given, before
/// compacting: one per hostname of each listed entry.
pub open spec fn api_shown(es: Seq<EntryView>, matched: Seq<bool>, ipv4: bool, ipv6: bool) -> Seq<
    RowView,
>
    decreases es.len(),
{
    if es.len() == 0 {
        Seq::empty()
    } else {
        let e = es.last();
        api_shown(es.drop_last(), matched, ipv4, ipv6) + if is_api_shown(
            e,
            matched[es.len() - 1],
            ipv4,
            ipv6,
        ) {
            hostnames(e).map_values(|h: Seq<char>| host_row(e, h))
        } else {
            Seq::empty()
        }
    }
}

/// The rows the API lists before compacting.
pub open spec fn api_spec(es: Seq<EntryView>, f: Option<FilterView>, ipv4: bool, ipv6: bool) -> Seq<
    RowView,
> {
    api_shown(es, match_flags(f, es), ipv4, ipv6)
}

/// The rows the API lists of entries whose filter results are given: one per
/// hostname of each entry that holds a hostname, passed the filter and
/// passes the family options; compacted by address unless `expand`.
pub fn api_shown_rows(
    entries: &[Entry],
    matched: &[bool],
    ipv4: bool,
    ipv6: bool,
    expand: bool,
) -> (rows: Vec<Row>)
    requires
        matched@.len() == entries@.len(),
    ensures
        rows.deep_view() == if expand {
            api_shown(crate::edit::entry_views(entries@), matched@, ipv4, ipv6)
        } else {
            compact_spec(api_shown(crate::edit::entry_views(entries@), matched@, ipv4, ipv6))
        },
{
    let ghost ev = crate::edit::entry_views(entries@);
    let mut rows: Vec<Row> = Vec::new();
    for i in 0..entries.len()
        invariant
            ev == crate::edit::entry_views(entries@),
            matched@.len() == entries@.len(),
            rows.deep_view() == api_shown(ev.take(i as int), matched@, ipv4, ipv6),
    {
        let entry = &entries[i];
        assert(ev.take(i + 1).drop_last() =~= ev.take(i as int));
        assert(ev.take(i + 1).last() == entry@);
        let ghost prev = rows.deep_view();
        let shown = !(entry.canonical.as_str().is_empty() && entry.aliases.len() == 0)
            && matched[i] && family_passes(&entry.ip, ipv4, ipv6);
        if shown {
            let ghost hs = hostnames(entry@);
            let first = Row {
                ip: entry.ip.clone(),
                host: entry.canonical.clone(),
                comment: clone_opt(&entry.comment),
                canonical: Some(entry.canonical.clone()),
                aliases: clone_strings(&entry.aliases),
            };
            rows.push(first);
            for k in 0..entry.aliases.len()
                invariant
                    hs == hostnames(entry@),
                    rows@.len() == prev.len() + 1 + k,
                    forall|m: int| 0 <= m < prev.len() ==> #[trigger] rows@[m]@ == prev[m],
                    forall|m: int|
                        prev.len() <= m < prev.len() + 1 + k ==> #[trigger] rows@[m]@ == host_row(
                            entry@,
                            hs[m - prev.len()],
                        ),
            {
                let h = entry.aliases[k].clone();
                assert(h@ == hs[k + 1]);
                let row = Row {
                    ip: entry.ip.clone(),
                    host: h,
                    comment: clone_opt(&entry.comment),
                    canonical: Some(entry.canonical.clone()),
                    aliases: clone_strings(&entry.aliases),
                };
                rows.push(row);
            }
            assert(rows.deep_view() =~= prev + hs.map_values(|h: Seq<char>| host_row(entry@, h)));
        } else {
            assert(rows.deep_view() =~= prev + Seq::<RowView>::empty());
        }
    }
    assert(ev.take(entries.len() as int) =~= ev);
    if expand {
        rows
    } else {
        assert(crate::table::row_views(rows@) =~= rows.deep_view());
        compact_rows(rows.as_slice())
    }
}

/// The rows `GET /api/entries` lists: one per hostname of each entry that
/// passes the filter and the family options; compacted by address unless
/// `expand`.
pub fn api_rows(entries: &[Entry], ipv4: bool, ipv6: bool, filter: Option<&Filter>, expand: bool) -> (rows: Vec<Row>)
    ensures
        rows.deep_view() == if expand {
            api_spec(crate::edit::entry_views(entries@), opt_filter(filter), ipv4, ipv6)
        } else {
            compact_spec(api_spec(crate::edit::entry_views(entries@), opt_filter(filter), ipv4, ipv6))
        },
{
    let flags = match_flags_of(entries, filter);
    api_shown_rows(entries, flags.as_slice(), ipv4, ipv6, expand)
}

/// Whether each entry passes the filter and is enabled, in order.
pub open spec fn enabled_flags(f: Option<FilterView>, es: Seq<EntryView>) -> Seq<bool> {
    es.map_values(|e: EntryView| entry_matches(f, e) && !e.disabled)
}

/// The rows of an expanded listing: one per hostname of each enabled entry
/// that holds a hostname, passes the filter and passes the family options.
pub open spec fn expanded_spec(es: Seq<EntryView>, f: Option<FilterView>, ipv4: bool, ipv6: bool) -> Seq<
    RowView,
> {
    api_shown(es, enabled_flags(f, es), ipv4, ipv6)
}

/// The rows of an expanded listing (`expanded_spec`).
pub fn expanded_rows(entries: &[Entry], ipv4: bool, ipv6: bool, filter: Option<&Filter>) -> (rows: Vec<
    Row,
>)
    ensures
        rows.deep_view() == expanded_spec(
            crate::edit::entry_views(entries@),
            opt_filter(filter),
            ipv4,
            ipv6,
        ),
{
    let ghost ev = crate::edit::entry_views(entries@);
    let matched = match_flags_of(entries, filter);
    let mut flags: Vec<bool> = Vec::new();
    for i in 0..entries.len()
        invariant
            matched@ == match_flags(opt_filter(filter), ev),
            ev == crate::edit::entry_views(entries@),
            flags@.len() == i,
            forall|m: int|
                0 <= m < i ==> #[trigger] flags@[m] == (entry_matches(opt_filter(filter), ev[m])
                    && !ev[m].disabled),
    {
        assert(ev[i as int] == entries@[i as int]@);
        flags.push(matched[i] && !entries[i].disabled);
    }
    assert(flags@ =~= enabled_flags(opt_filter(filter), ev));
    api_shown_rows(entries, flags.as_slice(), ipv4, ipv6, true)
}

/// The hostnames `entry add` adds: an explicit canonical name first, then
/// the positional hostnames, then the `--alias` ones.
pub open spec fn add_hosts_spec(
    hosts: Seq<Seq<char>>,
    canonical: Option<Seq<char>>,
    aliases: Seq<Seq<char>>,
) -> Seq<Seq<char>> {
    match canonical {
        Some(c) => seq![c] + hosts + aliases,
        None => hosts + aliases,
    }
}

/// Assembles the hostnames of `entry add`.
pub fn add_hostnames(hosts: &[String], canonical: Option<&str>, aliases: &[String]) -> (all: Vec<
    String,
>)
    ensures
        all.deep_view() == add_hosts_spec(
            strs(hosts@),
            crate::edit::opt_str_view(canonical),
            strs(aliases@),
        ),
{
    let mut all: Vec<String> = Vec::new();
    match canonical {
        Some(c) => all.push(c.to_owned()),
        None => {},
    }
    let ghost head = all.deep_view();
    let h0 = all.len();
    for k in 0..hosts.len()
        invariant
            h0 == head.len(),
            all@.len() == h0 + k,
            forall|m: int| 0 <= m < h0 ==> #[trigger] all@[m]@ == head[m],
            forall|m: int| h0 <= m < h0 + k ==> #[trigger] all@[m]@ == hosts@[m - h0]@,
    {
        all.push(hosts[k].clone());
    }
    let h1 = all.len();
    let ghost mid = all.deep_view();
    for k in 0..aliases.len()
        invariant
            h1 == mid.len(),
            all@.len() == h1 + k,
            forall|m: int| 0 <= m < h1 ==> #[trigger] all@[m]@ == mid[m],
            forall|m: int| h1 <= m < h1 + k ==> #[trigger] all@[m]@ == aliases@[m - h1]@,
    {
        all.push(aliases[k].clone());
    }
    assert(mid =~= head + strs(hosts@));
    assert(all.deep_view() =~= mid + strs(aliases@));
    match canonical {
        Some(c) => {
            assert(head =~= seq![c@]);
        },
        None => {
            assert(head =~= Seq::<Seq<char>>::empty());
        },
    }
    all
}

/// Whether a command only reads the hosts file (a merge with an explicit
/// target counts as one, as do completion and version).
pub open spec fn is_read_only(cmd: Commands) -> bool {
    match cmd {
        Commands::Entry(EntryCommands::List { .. }) => true,
        Commands::Resolve { .. } => true,
        Commands::Verify { .. } => true,
        Commands::Merge { target, .. } => target is Some,
        Commands::Completion { .. } => true,
        Commands::Version => true,
        Commands::Cat => true,
        _ => false,
    }
}

/// `etc/hosts`.
pub open spec fn system_hosts_marker() -> Seq<char> {
    seq!['e', 't', 'c', '/', 'h', 'o', 's', 't', 's']
}

/// `Warning: modifying <path> may require root privileges.`
pub open spec fn privilege_message(path: Seq<char>) -> Seq<char> {
    "Warning: modifying "@ + path + " may require root privileges."@
}

/// The warning shown before a command that may modify the system hosts
/// file is run without root privileges.
pub fn privilege_warning(cli: &Cli, is_root: bool) -> (w: Option<String>)
    ensures
        match w {
            Some(m) => contains_seq(cli.hosts_file@, system_hosts_marker()) && !is_root
                && !is_read_only(cli.command) && m@ == privilege_message(cli.hosts_file@),
            None => !(contains_seq(cli.hosts_file@, system_hosts_marker()) && !is_root
                && !is_read_only(cli.command)),
        },
{
    let marker = vec!['e', 't', 'c', '/', 'h', 'o', 's', 't', 's'];
    assert(marker@ =~= system_hosts_marker());
    let path = chars_of(cli.hosts_file.as_str());
    if is_root || !contains_chars(&path, &marker) {
        return None;
    }
    let read_only = match &cli.command {
        Commands::Entry(EntryCommands::List { .. }) => true,
        Commands::Resolve { .. } => true,
        Commands::Verify { .. } => true,
        Commands::Merge { target, .. } => target.is_some(),
        Commands::Completion { .. } => true,
        Commands::Version => true,
        Commands::Cat => true,
        _ => false,
    };
    if read_only {
        return None;
    }
    let mut m = "Warning: modifying ".to_owned();
    m.append(cli.hosts_file.as_str());
    m.append(" may require root privileges.");
    Some(m)
}

} // verus!
