//! The `entry` commands and `verify` on a loaded hosts file: what each one
//! changes and what it reports. Reading and writing the file, and printing,
//! are the caller's part.
use crate::check::issues_spec;
use crate::cli::{add_hostnames, add_hosts_spec, join_strings, join_with};
use crate::edit::{
    clamp, count_ip_state, disable_hostname_spec, duplicates_spec, enable_hostname_spec,
    move_hostname_spec, opt_str_view, other_ips, removed_total, set_ip_state, strs,
};
use crate::parser::parse_spec;
use crate::store::{decimal, decimal_text, Store};
use crate::table::{format_issue_table, issue_records, rounded_table};
use vstd::prelude::*;

verus! {

/// What a command reports: lines for standard output, lines for standard
/// error, and whether it ends with a failure status.
pub struct Outcome {
    pub out: Vec<String>,
    pub err: Vec<String>,
    pub failed: bool,
}

/// The value of an [`Outcome`].
pub struct OutcomeView {
    pub out: Seq<Seq<char>>,
    pub err: Seq<Seq<char>>,
    pub failed: bool,
}

impl View for Outcome {
    type V = OutcomeView;

    open spec fn view(&self) -> OutcomeView {
        OutcomeView { out: self.out.deep_view(), err: self.err.deep_view(), failed: self.failed }
    }
}

/// One line, or none when quiet.
pub open spec fn unless_quiet(quiet: bool, line: Seq<char>) -> Seq<Seq<char>> {
    if quiet {
        Seq::empty()
    } else {
        seq![line]
    }
}

/// An outcome with at most one line of output.
fn report(quiet: bool, line: String) -> (o: Outcome)
    ensures
        o@ == (OutcomeView { out: unless_quiet(quiet, line@), err: Seq::empty(), failed: false }),
{
    let mut out: Vec<String> = Vec::new();
    if !quiet {
        out.push(line);
    }
    let o = Outcome { out, err: Vec::new(), failed: false };
    assert(o@.out =~= unless_quiet(quiet, line@));
    assert(o@.err =~= Seq::<Seq<char>>::empty());
    o
}

/// `Added <ip> <hostnames>`.
pub open spec fn added_message(ip: Seq<char>, hosts: Seq<Seq<char>>) -> Seq<char> {
    "Added "@ + ip + " "@ + join_with(hosts, " "@)
}

/// `Warning: '<hostname>' already exists on another IP`.
pub open spec fn duplicate_warning(h: Seq<char>) -> Seq<char> {
    "Warning: '"@ + h + "' already exists on another IP"@
}

/// `<verb> <n> entry(s) for IP <ip>`.
pub open spec fn ip_count_message(verb: Seq<char>, n: nat, ip: Seq<char>) -> Seq<char> {
    verb + decimal(n) + " entry(s) for IP "@ + ip
}

/// `<verb> <n> hostname(s)`.
pub open spec fn host_count_message(verb: Seq<char>, n: nat) -> Seq<char> {
    verb + decimal(n) + " hostname(s)"@
}

/// `Hostname '<hostname>' not found`.
pub open spec fn not_found_message(h: Seq<char>) -> Seq<char> {
    "Hostname '"@ + h + "' not found"@
}

/// `Moved '<hostname>' to <ip>`.
pub open spec fn moved_message(h: Seq<char>, ip: Seq<char>) -> Seq<char> {
    "Moved '"@ + h + "' to "@ + ip
}

/// Builds `<verb> <n> entry(s) for IP <ip>`.
fn ip_count_text(verb: &str, n: usize, ip: &str) -> (r: String)
    ensures
        r@ == ip_count_message(verb@, n as nat, ip@),
{
    let mut r = verb.to_owned();
    let d = decimal_text(n);
    r.append(d.as_str());
    r.append(" entry(s) for IP ");
    r.append(ip);
    r
}

/// Builds `<verb> <n> hostname(s)`.
fn host_count_text(verb: &str, n: usize) -> (r: String)
    ensures
        r@ == host_count_message(verb@, n as nat),
{
    let mut r = verb.to_owned();
    let d = decimal_text(n);
    r.append(d.as_str());
    r.append(" hostname(s)");
    r
}

/// Builds `Hostname '<hostname>' not found`.
pub fn not_found_text(h: &str) -> (r: String)
    ensures
        r@ == not_found_message(h@),
{
    let mut r = "Hostname '".to_owned();
    r.append(h);
    r.append("' not found");
    r
}

/// The duplicate warnings, one per hostname.
pub open spec fn duplicate_warnings(ds: Seq<Seq<char>>) -> Seq<Seq<char>> {
    ds.map_values(|d: Seq<char>| duplicate_warning(d))
}

/// `entry add`: adds the hostnames (an explicit canonical name first, then
/// the positional ones, then the aliases) for `ip`; reports what was added
/// and warns of each hostname already named by another address.
pub fn handle_add(
    store: &mut Store,
    ip: &str,
    hosts: &[String],
    canonical: Option<&str>,
    aliases: &[String],
    comment: Option<&str>,
    quiet: bool,
) -> (o: Outcome)
    ensures
        ({
            let all = add_hosts_spec(strs(hosts@), opt_str_view(canonical), strs(aliases@));
            let es = parse_spec(old(store)@.content);
            &&& final(store)@.path == old(store)@.path
            &&& final(store)@.content == crate::serializer::serialize_spec(
                crate::edit::add_entry_spec(es, ip@, all, opt_str_view(comment)),
            )
            &&& o@.out == unless_quiet(quiet, added_message(ip@, all))
            &&& o@.err == duplicate_warnings(duplicates_spec(es, ip@, all))
            &&& !o@.failed
        }),
{
    let all = add_hostnames(hosts, canonical, aliases);
    assert(strs(all@) =~= all.deep_view());
    let dups = store.add_entry(ip, all.as_slice(), comment);
    let mut line = "Added ".to_owned();
    line.append(ip);
    line.append(" ");
    let joined = join_strings(&all, " ");
    line.append(joined.as_str());
    let ghost line_v = line@;
    let mut o = report(quiet, line);
    let mut k: usize = 0;
    while k < dups.len()
        invariant
            k <= dups.len(),
            o.out.deep_view() == unless_quiet(quiet, line_v),
            !o.failed,
            o.err.deep_view() =~= duplicate_warnings(dups.deep_view().take(k as int)),
        decreases dups.len() - k,
    {
        let mut w = "Warning: '".to_owned();
        w.append(dups[k].as_str());
        w.append("' already exists on another IP");
        let ghost prev = o.err.deep_view();
        o.err.push(w);
        assert(o.err.deep_view() =~= prev.push(w@));
        assert(dups.deep_view().take(k + 1) =~= dups.deep_view().take(k as int).push(
            dups@[k as int]@,
        ));
        k += 1;
    }
    assert(dups.deep_view().take(dups.len() as int) =~= dups.deep_view());
    o
}

/// `entry rm`: removes every entry of `ip` when one is given, else the
/// hostnames; reports how many went.
pub fn handle_rm(store: &mut Store, hosts: &[String], ip: Option<&str>, quiet: bool) -> (o: Outcome)
    ensures
        final(store)@.path == old(store)@.path,
        !o@.failed,
        o@.err == Seq::<Seq<char>>::empty(),
        ({
            let es = parse_spec(old(store)@.content);
            match ip {
                Some(a) => {
                    &&& final(store)@.content == crate::serializer::serialize_spec(
                        other_ips(es, a@),
                    )
                    &&& o@.out == unless_quiet(
                        quiet,
                        ip_count_message("Removed "@, (es.len() - other_ips(es, a@).len()) as nat, a@),
                    )
                },
                None => {
                    &&& final(store)@.content == crate::serializer::serialize_spec(
                        crate::edit::remove_hostnames_spec(es, strs(hosts@)),
                    )
                    &&& o@.out == unless_quiet(
                        quiet,
                        host_count_message(
                            "Removed "@,
                            clamp(removed_total(es, strs(hosts@)) as int),
                        ),
                    )
                },
            }
        }),
{
    match ip {
        Some(a) => {
            let n = store.remove_by_ip(a);
            report(quiet, ip_count_text("Removed ", n, a))
        },
        None => {
            let n = store.remove_hostnames(hosts);
            report(quiet, host_count_text("Removed ", n))
        },
    }
}

/// `entry disable`: disables every entry of `ip` when one is given, else
/// the hostnames; reports how many were.
pub fn handle_disable(store: &mut Store, hosts: &[String], ip: Option<&str>, quiet: bool) -> (o:
    Outcome)
    ensures
        final(store)@.path == old(store)@.path,
        !o@.failed,
        o@.err == Seq::<Seq<char>>::empty(),
        ({
            let es = parse_spec(old(store)@.content);
            match ip {
                Some(a) => {
                    let n = count_ip_state(es, a@, false);
                    &&& final(store)@.content == if n > 0 {
                        crate::serializer::serialize_spec(set_ip_state(es, a@, true))
                    } else {
                        old(store)@.content
                    }
                    &&& o@.out == unless_quiet(quiet, ip_count_message("Disabled "@, n, a@))
                },
                None => {
                    let r = disable_hostname_spec(es, strs(hosts@));
                    &&& final(store)@.content == crate::serializer::serialize_spec(r.0)
                    &&& o@.out == unless_quiet(quiet, host_count_message("Disabled "@, r.1))
                },
            }
        }),
{
    match ip {
        Some(a) => {
            let n = store.disable_by_ip(a);
            report(quiet, ip_count_text("Disabled ", n, a))
        },
        None => {
            let n = store.disable_hostname(hosts);
            report(quiet, host_count_text("Disabled ", n))
        },
    }
}

/// `entry enable`: enables every disabled entry of `ip` when one is given,
/// else the hostnames; reports how many were.
pub fn handle_enable(store: &mut Store, hosts: &[String], ip: Option<&str>, quiet: bool) -> (o:
    Outcome)
    ensures
        final(store)@.path == old(store)@.path,
        !o@.failed,
        o@.err == Seq::<Seq<char>>::empty(),
        ({
            let es = parse_spec(old(store)@.content);
            match ip {
                Some(a) => {
                    let n = count_ip_state(es, a@, true);
                    &&& final(store)@.content == if n > 0 {
                        crate::serializer::serialize_spec(set_ip_state(es, a@, false))
                    } else {
                        old(store)@.content
                    }
                    &&& o@.out == unless_quiet(quiet, ip_count_message("Enabled "@, n, a@))
                },
                None => {
                    let r = enable_hostname_spec(es, strs(hosts@));
                    &&& final(store)@.content == crate::serializer::serialize_spec(r.0)
                    &&& o@.out == unless_quiet(quiet, host_count_message("Enabled "@, r.1))
                },
            }
        }),
{
    match ip {
        Some(a) => {
            let n = store.enable_by_ip(a);
            report(quiet, ip_count_text("Enabled ", n, a))
        },
        None => {
            let n = store.enable_hostname(hosts);
            report(quiet, host_count_text("Enabled ", n))
        },
    }
}

/// `entry toggle`: toggles every entry of `ip` when one is given, else the
/// hostname; reports the store's message.
pub fn handle_toggle(store: &mut Store, host: &str, ip: Option<&str>, quiet: bool) -> (o: Outcome)
    ensures
        final(store)@.path == old(store)@.path,
        !o@.failed,
        o@.err == Seq::<Seq<char>>::empty(),
        ({
            let es = parse_spec(old(store)@.content);
            match ip {
                Some(a) => {
                    let d = crate::store::any_enabled_ip(es, a@);
                    let n = count_ip_state(es, a@, !d);
                    &&& o@.out == unless_quiet(quiet, crate::store::toggle_ip_message(d, n, a@))
                    &&& final(store)@.content == if n > 0 {
                        crate::serializer::serialize_spec(set_ip_state(es, a@, d))
                    } else {
                        old(store)@.content
                    }
                },
                None => {
                    let d = crate::store::any_enabled_host(es, host@);
                    &&& o@.out == unless_quiet(quiet, crate::store::toggle_host_message(d, host@))
                    &&& final(store)@.content == crate::serializer::serialize_spec(
                        if d {
                            disable_hostname_spec(es, seq![host@]).0
                        } else {
                            enable_hostname_spec(es, seq![host@]).0
                        },
                    )
                },
            }
        }),
{
    match ip {
        Some(a) => {
            let msg = store.toggle_by_ip(a);
            report(quiet, msg)
        },
        None => {
            let msg = store.toggle_hostname(host);
            report(quiet, msg)
        },
    }
}

/// `entry edit`: moves the hostname to `ip`; reports the move, or on
/// standard error that no entry names the hostname (which is no failure).
pub fn handle_edit(store: &mut Store, host: &str, ip: &str, quiet: bool) -> (o: Outcome)
    ensures
        ({
            let es = parse_spec(old(store)@.content);
            let r = move_hostname_spec(es, host@, ip@);
            &&& final(store)@.path == old(store)@.path
            &&& final(store)@.content == if r.1 > 0 {
                crate::serializer::serialize_spec(r.0)
            } else {
                old(store)@.content
            }
            &&& !o@.failed
            &&& if r.1 == 0 {
                o@.out == Seq::<Seq<char>>::empty() && o@.err == seq![not_found_message(host@)]
            } else {
                o@.out == unless_quiet(quiet, moved_message(host@, ip@)) && o@.err
                    == Seq::<Seq<char>>::empty()
            }
        }),
{
    let moved = store.move_hostname(host, ip);
    if moved == 0 {
        let mut err: Vec<String> = Vec::new();
        err.push(not_found_text(host));
        let o = Outcome { out: Vec::new(), err, failed: false };
        assert(o@.out =~= Seq::<Seq<char>>::empty());
        assert(o@.err =~= seq![not_found_message(host@)]);
        o
    } else {
        let mut line = "Moved '".to_owned();
        line.append(host);
        line.append("' to ");
        line.append(ip);
        report(quiet, line)
    }
}

/// `Found <n> issue(s)`.
pub open spec fn found_message(n: nat) -> Seq<char> {
    "Found "@ + decimal(n) + " issue(s)"@
}

/// `verify`: reports `No issues found.` for a clean file; otherwise the
/// table of issues (even when quiet) and their count, failing when strict.
pub fn handle_verify(store: &Store, strict: bool, quiet: bool) -> (o: Outcome)
    ensures
        ({
            let issues = issues_spec(store@.content);
            if issues.len() == 0 {
                o@ == (OutcomeView {
                    out: unless_quiet(quiet, "No issues found."@),
                    err: Seq::empty(),
                    failed: false,
                })
            } else {
                &&& o@.out == seq![rounded_table(issue_records(issues))] + unless_quiet(
                    quiet,
                    found_message(issues.len()),
                )
                &&& o@.err == Seq::<Seq<char>>::empty()
                &&& o@.failed == strict
            }
        }),
{
    let issues = store.verify();
    if issues.len() == 0 {
        return report(quiet, "No issues found.".to_owned());
    }
    let mut out: Vec<String> = Vec::new();
    out.push(format_issue_table(issues.as_slice()));
    if !quiet {
        let mut line = "Found ".to_owned();
        line.append(decimal_text(issues.len()).as_str());
        line.append(" issue(s)");
        out.push(line);
    }
    let o = Outcome { out, err: Vec::new(), failed: strict };
    assert(o@.out =~= seq![rounded_table(issue_records(issues_spec(store@.content)))]
        + unless_quiet(quiet, found_message(issues_spec(store@.content).len())));
    assert(o@.err =~= Seq::<Seq<char>>::empty());
    o
}

/// The warning about a refused filter pattern.
pub open spec fn pattern_warning(reason: Seq<char>) -> Seq<char> {
    "Warning: invalid filter pattern: "@ + reason
}

/// `entry list`: the rows of the enabled entries that pass the filter and
/// the family options, one per hostname with `expand` and compacted by
/// address otherwise, and a warning when the pattern is refused (the listing then
/// filters nothing).
pub fn handle_list(
    store: &Store,
    ipv4: bool,
    ipv6: bool,
    expand: bool,
    pattern: Option<&str>,
    ignore_case: bool,
) -> (r: (Vec<crate::model::Row>, Vec<String>))
    ensures
        ({
            let rows = crate::cli::list_spec(
                parse_spec(store@.content),
                crate::api::listing_filter(opt_str_view(pattern), ignore_case),
                ipv4,
                ipv6,
            );
            r.0.deep_view() == if expand {
                crate::cli::expanded_spec(
                    parse_spec(store@.content),
                    crate::api::listing_filter(opt_str_view(pattern), ignore_case),
                    ipv4,
                    ipv6,
                )
            } else {
                crate::cli::compact_spec(rows)
            }
        }),
        match pattern {
            None => r.1@.len() == 0,
            Some(p) => if p@.len() == 0 {
                r.1.deep_view() == seq![pattern_warning("empty pattern"@)]
            } else if crate::validation::utf8_len(p@) > 1024 {
                r.1.deep_view() == seq![
                    pattern_warning("pattern exceeds maximum length of 1024 characters"@),
                ]
            } else if crate::cli::regex_compiles(crate::cli::filter_source(p@), ignore_case) {
                r.1@.len() == 0
            } else {
                r.1@.len() == 1 && exists|t: Seq<char>|
                    r.1@[0]@ == pattern_warning("invalid regex pattern: "@ + t)
            },
        },
{
    let entries = store.load();
    assert(crate::edit::entry_views(entries@) =~= entries.deep_view());
    let mut warnings: Vec<String> = Vec::new();
    let re = match pattern {
        Some(p) => match crate::cli::build_regex(p, ignore_case) {
            Ok(f) => Some(f),
            Err(e) => {
                let mut w = "Warning: invalid filter pattern: ".to_owned();
                let m = e.message();
                w.append(m.as_str());
                warnings.push(w);
                proof {
                    if let crate::cli::PatternError::Invalid(t) = e {
                        assert(warnings@[0]@ == pattern_warning("invalid regex pattern: "@ + t@));
                    }
                }
                None
            },
        },
        None => None,
    };
    let rows = if expand {
        match &re {
            Some(f) => crate::cli::expanded_rows(entries.as_slice(), ipv4, ipv6, Some(f)),
            None => crate::cli::expanded_rows(entries.as_slice(), ipv4, ipv6, None),
        }
    } else {
        let rows = match &re {
            Some(f) => crate::cli::list_rows(entries.as_slice(), ipv4, ipv6, Some(f)),
            None => crate::cli::list_rows(entries.as_slice(), ipv4, ipv6, None),
        };
        assert(crate::table::row_views(rows@) =~= rows.deep_view());
        crate::cli::compact_rows(rows.as_slice())
    };
    proof {
        if warnings@.len() == 1 {
            assert(warnings.deep_view() =~= seq![warnings@[0]@]);
        }
    }
    (rows, warnings)
}

/// `resolve --local`: the table of what the hosts file maps the names to,
/// or `No local match found.`
pub fn handle_resolve_local(store: &Store, hosts: &[String]) -> (o: Outcome)
    ensures
        ({
            let found = crate::resolve::lookup_spec(parse_spec(store@.content), strs(hosts@));
            &&& o@.out == if found.len() == 0 {
                seq!["No local match found."@]
            } else {
                seq![rounded_table(crate::table::resolve_records(found))]
            }
            &&& o@.err == Seq::<Seq<char>>::empty()
            &&& !o@.failed
        }),
{
    let entries = store.load();
    assert(crate::edit::entry_views(entries@) =~= entries.deep_view());
    let found = crate::resolve::resolve_local(entries.as_slice(), hosts);
    let line = if found.len() == 0 {
        "No local match found.".to_owned()
    } else {
        crate::table::format_resolve_table(found.as_slice())
    };
    let mut out: Vec<String> = Vec::new();
    out.push(line);
    let o = Outcome { out, err: Vec::new(), failed: false };
    assert(o@.out =~= seq![line@]);
    assert(o@.err =~= Seq::<Seq<char>>::empty());
    o
}

} // verus!
