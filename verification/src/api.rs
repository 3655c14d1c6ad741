//! The HTTP API on a loaded hosts file: what each request changes, and the
//! status and body it is answered with. Serving, reading and writing the
//! file, and encoding the body as JSON, are the caller's part.
use crate::cli::{api_rows, api_spec, build_regex, compact_spec, filter_source, join_strings};
use crate::commands::{moved_message, not_found_message, not_found_text};
use crate::edit::{
    add_entry_spec, disable_hostname_spec, duplicates_spec, enable_hostname_spec, entry_has_host,
    has_host, move_hostname_spec, opt_str_view, other_ips, remove_hostnames_spec, removed_total,
    strs, clamp,
};
use crate::addr::is_ip_text;
use crate::model::{clone_entry, Entry, EntryView, Row, RowView};
use crate::validation::{
    is_comment_text, is_hostname_text, is_valid_comment, is_valid_hostname, is_valid_ip,
};
use crate::parser::parse_spec;
use crate::serializer::serialize_spec;
use crate::store::{decimal_text, Store};
use vstd::prelude::*;

verus! {

/// The body of an answer.
pub enum ApiBody {
    /// A list of rows.
    Rows(Vec<Row>),
    /// What was added, and the hostnames already named by another address.
    Added { message: String, duplicates: Vec<String> },
    /// How many went, with a message.
    Count { count: usize, message: String },
    /// A message.
    Message(String),
    /// An error.
    Error(String),
}

/// An answer: an HTTP status and a body.
pub struct ApiReply {
    pub status: u16,
    pub body: ApiBody,
}

/// The value of an [`ApiBody`].
pub enum ApiBodyView {
    Rows(Seq<RowView>),
    Added { message: Seq<char>, duplicates: Seq<Seq<char>> },
    Count { count: nat, message: Seq<char> },
    Message(Seq<char>),
    Error(Seq<char>),
}

impl View for ApiBody {
    type V = ApiBodyView;

    open spec fn view(&self) -> ApiBodyView {
        match self {
            ApiBody::Rows(rows) => ApiBodyView::Rows(rows.deep_view()),
            ApiBody::Added { message, duplicates } => ApiBodyView::Added {
                message: message@,
                duplicates: duplicates.deep_view(),
            },
            ApiBody::Count { count, message } => ApiBodyView::Count {
                count: *count as nat,
                message: message@,
            },
            ApiBody::Message(m) => ApiBodyView::Message(m@),
            ApiBody::Error(e) => ApiBodyView::Error(e@),
        }
    }
}

/// The filter a listing applies: none when no pattern is given or the
/// pattern is refused, else the one the pattern compiles to.
pub open spec fn listing_filter(pattern: Option<Seq<char>>, ignore_case: bool) -> Option<
    crate::cli::FilterView,
> {
    match pattern {
        None => None,
        Some(p) => if p.len() > 0 && crate::validation::utf8_len(p) <= 1024
            && crate::cli::regex_compiles(filter_source(p), ignore_case) {
            Some(crate::cli::FilterView { source: filter_source(p), ignore_case })
        } else {
            None
        },
    }
}

/// The entries a listing looks at: those of address `ip` and naming
/// `hostname`, each where given.
pub open spec fn selected(es: Seq<EntryView>, ip: Option<Seq<char>>, hostname: Option<Seq<char>>) -> Seq<
    EntryView,
>
    decreases es.len(),
{
    if es.len() == 0 {
        Seq::empty()
    } else if is_selected(es.last(), ip, hostname) {
        selected(es.drop_last(), ip, hostname).push(es.last())
    } else {
        selected(es.drop_last(), ip, hostname)
    }
}

/// Whether an entry has address `ip` and names `hostname`, each where given.
pub open spec fn is_selected(e: EntryView, ip: Option<Seq<char>>, hostname: Option<Seq<char>>) -> bool {
    (match ip {
        Some(a) => e.ip == a,
        None => true,
    }) && (match hostname {
        Some(h) => has_host(e, h),
        None => true,
    })
}

/// The entries of address `ip` and naming `hostname`, each where given.
fn select_entries(entries: &Vec<Entry>, ip: Option<&str>, hostname: Option<&str>) -> (r: Vec<Entry>)
    ensures
        r.deep_view() == selected(entries.deep_view(), opt_str_view(ip), opt_str_view(hostname)),
{
    let ghost ev = entries.deep_view();
    let ip_s = match ip {
        Some(a) => Some(a.to_owned()),
        None => None,
    };
    let host_s = match hostname {
        Some(h) => Some(h.to_owned()),
        None => None,
    };
    let mut r: Vec<Entry> = Vec::new();
    for i in 0..entries.len()
        invariant
            ev == entries.deep_view(),
            crate::model::opt_view(ip_s) == opt_str_view(ip),
            crate::model::opt_view(host_s) == opt_str_view(hostname),
            r.deep_view() == selected(ev.take(i as int), opt_str_view(ip), opt_str_view(hostname)),
    {
        let e = &entries[i];
        assert(ev.take(i + 1).drop_last() =~= ev.take(i as int));
        assert(ev.take(i + 1).last() == e@);
        let ip_ok = match &ip_s {
            Some(a) => e.ip == *a,
            None => true,
        };
        let host_ok = match &host_s {
            Some(h) => entry_has_host(e, h),
            None => true,
        };
        if ip_ok && host_ok {
            let ghost prev = r.deep_view();
            r.push(clone_entry(e));
            assert(r.deep_view() =~= prev.push(e@));
        }
    }
    assert(ev.take(entries.len() as int) =~= ev);
    r
}

/// `GET /api/entries`: among the entries of the `ip` and naming the
/// `hostname` (each where given), one row per hostname of each entry that
/// passes the filter (a refused pattern filters nothing) and the family
/// options, compacted by address unless `expand`.
pub fn list_entries(
    store: &Store,
    ip: Option<&str>,
    hostname: Option<&str>,
    filter: Option<&str>,
    ipv4: bool,
    ipv6: bool,
    expand: bool,
    ignore_case: bool,
) -> (r: ApiReply)
    ensures
        r.status == 200,
        ({
            let rows = api_spec(
                selected(parse_spec(store@.content), opt_str_view(ip), opt_str_view(hostname)),
                listing_filter(opt_str_view(filter), ignore_case),
                ipv4,
                ipv6,
            );
            r.body@ == ApiBodyView::Rows(
                if expand {
                    rows
                } else {
                    compact_spec(rows)
                },
            )
        }),
{
    let all = store.load();
    let entries = select_entries(&all, ip, hostname);
    let re = match filter {
        Some(p) => match build_regex(p, ignore_case) {
            Ok(f) => Some(f),
            Err(_) => None,
        },
        None => None,
    };
    let rows = match &re {
        Some(f) => api_rows(entries.as_slice(), ipv4, ipv6, Some(f), expand),
        None => api_rows(entries.as_slice(), ipv4, ipv6, None, expand),
    };
    assert(crate::edit::entry_views(entries@) =~= entries.deep_view());
    ApiReply { status: 200, body: ApiBody::Rows(rows) }
}

/// `invalid IP address: <ip>`.
pub open spec fn invalid_ip_message(ip: Seq<char>) -> Seq<char> {
    "invalid IP address: "@ + ip
}

/// `invalid hostname: <hostname>`.
pub open spec fn invalid_host_message(h: Seq<char>) -> Seq<char> {
    "invalid hostname: "@ + h
}

/// Index of the first hostname that is not valid, or `hs.len()`.
pub open spec fn first_invalid_host(hs: Seq<Seq<char>>, i: int) -> int
    decreases hs.len() - i,
{
    if i < 0 || i >= hs.len() {
        hs.len() as int
    } else if !is_hostname_text(hs[i]) {
        i
    } else {
        first_invalid_host(hs, i + 1)
    }
}

proof fn lemma_first_invalid_host(hs: Seq<Seq<char>>, i: int)
    requires
        0 <= i <= hs.len(),
    ensures
        i <= first_invalid_host(hs, i) <= hs.len(),
        first_invalid_host(hs, i) < hs.len() ==> !is_hostname_text(hs[first_invalid_host(hs, i)]),
        forall|k: int| i <= k < first_invalid_host(hs, i) ==> is_hostname_text(#[trigger] hs[k]),
    decreases hs.len() - i,
{
    if i < hs.len() && is_hostname_text(hs[i]) {
        lemma_first_invalid_host(hs, i + 1);
    }
}

/// `POST /api/entries`: refuses with 400 an address that is not an IP
/// address, then the first hostname that is not valid, then a comment that
/// is not valid; otherwise adds the hostnames for the address and answers
/// 201 with `Added <ip> <hostnames>` and the duplicates.
pub fn add_entry(store: &mut Store, ip: &str, hosts: &[String], comment: Option<&str>) -> (r:
    ApiReply)
    ensures
        ({
            let es = parse_spec(old(store)@.content);
            let bad = first_invalid_host(strs(hosts@), 0);
            &&& final(store)@.path == old(store)@.path
            &&& if !is_ip_text(ip@) {
                &&& final(store)@.content == old(store)@.content
                &&& r.status == 400
                &&& r.body@ == ApiBodyView::Error(invalid_ip_message(ip@))
            } else if bad < hosts@.len() {
                &&& final(store)@.content == old(store)@.content
                &&& r.status == 400
                &&& r.body@ == ApiBodyView::Error(invalid_host_message(hosts@[bad]@))
            } else if comment matches Some(c) && !is_comment_text(c@) {
                &&& final(store)@.content == old(store)@.content
                &&& r.status == 400
                &&& r.body@ == ApiBodyView::Error("invalid comment"@)
            } else {
                &&& final(store)@.content == serialize_spec(
                    add_entry_spec(es, ip@, strs(hosts@), opt_str_view(comment)),
                )
                &&& r.status == 201
                &&& r.body@ == ApiBodyView::Added {
                    message: crate::commands::added_message(ip@, strs(hosts@)),
                    duplicates: duplicates_spec(es, ip@, strs(hosts@)),
                }
            }
        }),
{
    if !is_valid_ip(ip) {
        let mut m = "invalid IP address: ".to_owned();
        m.append(ip);
        return ApiReply { status: 400, body: ApiBody::Error(m) };
    }
    let ghost hv_spec = strs(hosts@);
    proof {
        lemma_first_invalid_host(hv_spec, 0);
    }
    let mut k: usize = 0;
    while k < hosts.len()
        invariant
            k <= hosts@.len(),
            is_ip_text(ip@),
            *store == *old(store),
            hv_spec == strs(hosts@),
            first_invalid_host(hv_spec, 0) >= k,
            forall|m: int| 0 <= m < k ==> is_hostname_text(#[trigger] hv_spec[m]),
        decreases hosts.len() - k,
    {
        proof {
            lemma_first_invalid_host(hv_spec, 0);
        }
        assert(hv_spec[k as int] == hosts@[k as int]@);
        if !is_valid_hostname(hosts[k].as_str()) {
            assert(first_invalid_host(hv_spec, 0) == k);
            let mut m = "invalid hostname: ".to_owned();
            m.append(hosts[k].as_str());
            return ApiReply { status: 400, body: ApiBody::Error(m) };
        }
        k += 1;
    }
    proof {
        lemma_first_invalid_host(hv_spec, 0);
    }
    match comment {
        Some(c) => {
            if !is_valid_comment(c) {
                return ApiReply { status: 400, body: ApiBody::Error("invalid comment".to_owned()) };
            }
        },
        None => {},
    }
    let dups = store.add_entry(ip, hosts, comment);
    let mut message = "Added ".to_owned();
    message.append(ip);
    message.append(" ");
    let mut hv: Vec<String> = Vec::new();
    for j in 0..hosts.len()
        invariant
            hv@.len() == j,
            forall|m: int| 0 <= m < j ==> #[trigger] hv@[m]@ == hosts@[m]@,
    {
        hv.push(hosts[j].clone());
    }
    assert(hv.deep_view() =~= strs(hosts@));
    let joined = join_strings(&hv, " ");
    message.append(joined.as_str());
    ApiReply { status: 201, body: ApiBody::Added { message, duplicates: dups } }
}

/// `DELETE /api/entries/{hostname}`: removes the hostname; answers 200 with
/// how many hostnames went.
pub fn remove_hostname(store: &mut Store, hostname: &str) -> (r: ApiReply)
    ensures
        ({
            let es = parse_spec(old(store)@.content);
            let n = clamp(removed_total(es, seq![hostname@]) as int);
            &&& final(store)@.path == old(store)@.path
            &&& final(store)@.content == serialize_spec(remove_hostnames_spec(es, seq![hostname@]))
            &&& r.status == 200
            &&& r.body@ == ApiBodyView::Count {
                count: n,
                message: crate::commands::host_count_message("Removed "@, n),
            }
        }),
{
    let names = vec![hostname.to_owned()];
    assert(strs(names@) =~= seq![hostname@]);
    let n = store.remove_hostnames(names.as_slice());
    let mut message = "Removed ".to_owned();
    message.append(decimal_text(n).as_str());
    message.append(" hostname(s)");
    ApiReply { status: 200, body: ApiBody::Count { count: n, message } }
}

/// `DELETE /api/entries?ip=`: removes every entry of the address; answers
/// 200 with how many went, or 400 when no address is given.
pub fn remove_by_ip(store: &mut Store, ip: Option<&str>) -> (r: ApiReply)
    ensures
        final(store)@.path == old(store)@.path,
        match ip {
            None => {
                &&& final(store)@.content == old(store)@.content
                &&& r.status == 400
                &&& r.body@ == ApiBodyView::Error("missing ip query parameter"@)
            },
            Some(a) => {
                let es = parse_spec(old(store)@.content);
                let n = (es.len() - other_ips(es, a@).len()) as nat;
                &&& final(store)@.content == serialize_spec(other_ips(es, a@))
                &&& r.status == 200
                &&& r.body@ == ApiBodyView::Count {
                    count: n,
                    message: crate::commands::ip_count_message("Removed "@, n, a@),
                }
            },
        },
{
    match ip {
        None => ApiReply {
            status: 400,
            body: ApiBody::Error("missing ip query parameter".to_owned()),
        },
        Some(a) => {
            let n = store.remove_by_ip(a);
            let mut message = "Removed ".to_owned();
            message.append(decimal_text(n).as_str());
            message.append(" entry(s) for IP ");
            message.append(a);
            ApiReply { status: 200, body: ApiBody::Count { count: n, message } }
        },
    }
}

/// `PUT /api/entries/{hostname}`: refuses with 400 an address that is not
/// an IP address; otherwise moves the hostname to the address and answers
/// 200 with the move, or 404 when no entry names it.
pub fn edit_entry(store: &mut Store, hostname: &str, ip: &str) -> (r: ApiReply)
    ensures
        ({
            let m = move_hostname_spec(parse_spec(old(store)@.content), hostname@, ip@);
            &&& final(store)@.path == old(store)@.path
            &&& if !is_ip_text(ip@) {
                &&& final(store)@.content == old(store)@.content
                &&& r.status == 400
                &&& r.body@ == ApiBodyView::Error(invalid_ip_message(ip@))
            } else {
                &&& final(store)@.content == if m.1 > 0 {
                    serialize_spec(m.0)
                } else {
                    old(store)@.content
                }
                &&& if m.1 == 0 {
                    r.status == 404 && r.body@ == ApiBodyView::Error(not_found_message(hostname@))
                } else {
                    r.status == 200 && r.body@ == ApiBodyView::Message(
                        moved_message(hostname@, ip@),
                    )
                }
            }
        }),
{
    if !is_valid_ip(ip) {
        let mut m = "invalid IP address: ".to_owned();
        m.append(ip);
        return ApiReply { status: 400, body: ApiBody::Error(m) };
    }
    let moved = store.move_hostname(hostname, ip);
    if moved == 0 {
        ApiReply { status: 404, body: ApiBody::Error(not_found_text(hostname)) }
    } else {
        let mut message = "Moved '".to_owned();
        message.append(hostname);
        message.append("' to ");
        message.append(ip);
        ApiReply { status: 200, body: ApiBody::Message(message) }
    }
}

/// `<verb> <hostname>`.
pub open spec fn state_message(disabled: bool, h: Seq<char>) -> Seq<char> {
    (if disabled {
        "Disabled "@
    } else {
        "Enabled "@
    }) + h
}

/// `PUT /api/entries/{hostname}/disable`: disables the hostname; answers 200,
/// or 404 when nothing was disabled.
pub fn disable_entry(store: &mut Store, hostname: &str) -> (r: ApiReply)
    ensures
        ({
            let d = disable_hostname_spec(parse_spec(old(store)@.content), seq![hostname@]);
            &&& final(store)@.path == old(store)@.path
            &&& final(store)@.content == serialize_spec(d.0)
            &&& if d.1 > 0 {
                r.status == 200 && r.body@ == ApiBodyView::Message(state_message(true, hostname@))
            } else {
                r.status == 404 && r.body@ == ApiBodyView::Error(not_found_message(hostname@))
            }
        }),
{
    let names = vec![hostname.to_owned()];
    assert(strs(names@) =~= seq![hostname@]);
    let n = store.disable_hostname(names.as_slice());
    if n > 0 {
        let mut message = "Disabled ".to_owned();
        message.append(hostname);
        ApiReply { status: 200, body: ApiBody::Message(message) }
    } else {
        ApiReply { status: 404, body: ApiBody::Error(not_found_text(hostname)) }
    }
}

/// `PUT /api/entries/{hostname}/enable`: enables the hostname; answers 200,
/// or 404 when nothing was enabled.
pub fn enable_entry(store: &mut Store, hostname: &str) -> (r: ApiReply)
    ensures
        ({
            let d = enable_hostname_spec(parse_spec(old(store)@.content), seq![hostname@]);
            &&& final(store)@.path == old(store)@.path
            &&& final(store)@.content == serialize_spec(d.0)
            &&& if d.1 > 0 {
                r.status == 200 && r.body@ == ApiBodyView::Message(state_message(false, hostname@))
            } else {
                r.status == 404 && r.body@ == ApiBodyView::Error(not_found_message(hostname@))
            }
        }),
{
    let names = vec![hostname.to_owned()];
    assert(strs(names@) =~= seq![hostname@]);
    let n = store.enable_hostname(names.as_slice());
    if n > 0 {
        let mut message = "Enabled ".to_owned();
        message.append(hostname);
        ApiReply { status: 200, body: ApiBody::Message(message) }
    } else {
        ApiReply { status: 404, body: ApiBody::Error(not_found_text(hostname)) }
    }
}

/// `PUT /api/entries/{hostname}/toggle`: toggles the hostname; answers 200
/// with the store's message.
pub fn toggle_entry(store: &mut Store, hostname: &str) -> (r: ApiReply)
    ensures
        ({
            let es = parse_spec(old(store)@.content);
            let d = crate::store::any_enabled_host(es, hostname@);
            &&& final(store)@.path == old(store)@.path
            &&& final(store)@.content == serialize_spec(
                if d {
                    disable_hostname_spec(es, seq![hostname@]).0
                } else {
                    enable_hostname_spec(es, seq![hostname@]).0
                },
            )
            &&& r.status == 200
            &&& r.body@ == ApiBodyView::Message(crate::store::toggle_host_message(d, hostname@))
        }),
{
    let msg = store.toggle_hostname(hostname);
    ApiReply { status: 200, body: ApiBody::Message(msg) }
}

} // verus!
