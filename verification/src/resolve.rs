//! Resolving names against the hosts file, and what a DNS lookup is asked
//! and how its answers are shown.
use crate::addr::is_ip_text;
use crate::edit::{has_host, strs};
use crate::model::{Entry, EntryView};
use crate::serializer::hostnames;
use crate::text::chars_of;
use crate::validation::is_valid_ip;
use vstd::prelude::*;

verus! {

/// A text without its trailing dots (`str::trim_end_matches('.')`).
pub open spec fn strip_dots(s: Seq<char>) -> Seq<char>
    decreases s.len(),
{
    if s.len() > 0 && s.last() == '.' {
        strip_dots(s.drop_last())
    } else {
        s
    }
}

/// Removes trailing dots.
pub fn trim_trailing_dots(s: &str) -> (r: String)
    ensures
        r@ == strip_dots(s@),
{
    let c = chars_of(s);
    let mut e = c.len();
    assert(c@.take(e as int) =~= c@);
    while e > 0 && c[e - 1] == '.'
        invariant
            e <= c.len(),
            strip_dots(c@.take(e as int)) == strip_dots(s@),
            c@ == s@,
        decreases e,
    {
        assert(c@.take(e as int).drop_last() =~= c@.take(e - 1));
        e -= 1;
    }
    if e == c.len() {
        assert(c@.take(e as int) =~= c@);
    }
    assert(c@.take(e as int) == c@.subrange(0, e as int));
    crate::text::string_of(&c, 0, e)
}

/// What a local lookup of one name finds among the entries: for an address,
/// every hostname of its enabled entries; for a hostname, the address of
/// every enabled entry that names it. Pairs are (name, address).
pub open spec fn lookup_one(es: Seq<EntryView>, host: Seq<char>) -> Seq<(Seq<char>, Seq<char>)>
    decreases es.len(),
{
    if es.len() == 0 {
        Seq::empty()
    } else {
        let e = es.last();
        let q = strip_dots(host);
        lookup_one(es.drop_last(), host) + if is_ip_text(q) {
            if e.ip == q && !e.disabled {
                hostnames(e).map_values(|h: Seq<char>| (h, e.ip))
            } else {
                Seq::empty()
            }
        } else if hostnames(e).contains(q) && !e.disabled {
            seq![(host, e.ip)]
        } else {
            Seq::empty()
        }
    }
}

/// What a local lookup of several names finds, name by name.
pub open spec fn lookup_spec(es: Seq<EntryView>, hosts: Seq<Seq<char>>) -> Seq<
    (Seq<char>, Seq<char>),
>
    decreases hosts.len(),
{
    if hosts.len() == 0 {
        Seq::empty()
    } else {
        lookup_spec(es, hosts.drop_last()) + lookup_one(es, hosts.last())
    }
}

/// The value of a (name, address) pair.
pub open spec fn pair_views(v: Seq<(String, String)>) -> Seq<(Seq<char>, Seq<char>)> {
    v.map_values(|p: (String, String)| (p.0@, p.1@))
}

/// Resolve names against the hosts file only (`resolve --local`).
pub fn resolve_local(entries: &[Entry], hosts: &[String]) -> (found: Vec<(String, String)>)
    ensures
        pair_views(found@) == lookup_spec(crate::edit::entry_views(entries@), strs(hosts@)),
{
    let ghost ev = crate::edit::entry_views(entries@);
    let ghost hv = strs(hosts@);
    let mut found: Vec<(String, String)> = Vec::new();
    for j in 0..hosts.len()
        invariant
            ev == crate::edit::entry_views(entries@),
            hv == strs(hosts@),
            pair_views(found@) == lookup_spec(ev, hv.take(j as int)),
    {
        let host = &hosts[j];
        assert(hv.take(j + 1).drop_last() =~= hv.take(j as int));
        assert(hv.take(j + 1).last() == host@);
        let q = trim_trailing_dots(host.as_str());
        let is_ip = is_valid_ip(q.as_str());
        let ghost base = pair_views(found@);
        for i in 0..entries.len()
            invariant
                ev == crate::edit::entry_views(entries@),
                q@ == strip_dots(host@),
                is_ip == is_ip_text(q@),
                pair_views(found@) == base + lookup_one(ev.take(i as int), host@),
        {
            let e = &entries[i];
            assert(ev.take(i + 1).drop_last() =~= ev.take(i as int));
            assert(ev.take(i + 1).last() == e@);
            let ghost prev = pair_views(found@);
            if is_ip {
                if e.ip == q && !e.disabled {
                    let ghost hs = hostnames(e@);
                    found.push((e.canonical.clone(), e.ip.clone()));
                    for k in 0..e.aliases.len()
                        invariant
                            hs == hostnames(e@),
                            found@.len() == prev.len() + 1 + k,
                            forall|m: int| 0 <= m < prev.len() ==> (#[trigger] found@[m].0@, found@[m].1@) == prev[m],
                            forall|m: int|
                                prev.len() <= m < prev.len() + 1 + k ==> (#[trigger] found@[m].0@, found@[m].1@) == (
                                    hs[m - prev.len()],
                                    e@.ip,
                                ),
                    {
                        let h = e.aliases[k].clone();
                        assert(h@ == hs[k + 1]);
                        found.push((h, e.ip.clone()));
                    }
                    assert(pair_views(found@) =~= prev + hs.map_values(|h: Seq<char>| (h, e@.ip)));
                } else {
                    assert(pair_views(found@) =~= prev + Seq::<(Seq<char>, Seq<char>)>::empty());
                }
            } else {
                let named = crate::edit::entry_has_host(e, &q);
                assert(named == hostnames(e@).contains(q@)) by {
                    if has_host(e@, q@) {
                        if e@.canonical == q@ {
                            assert(hostnames(e@)[0] == q@);
                        } else {
                            let k = choose|k: int| 0 <= k < e@.aliases.len() && e@.aliases[k] == q@;
                            assert(hostnames(e@)[k + 1] == q@);
                        }
                    }
                    if hostnames(e@).contains(q@) {
                        let k = choose|k: int| 0 <= k < hostnames(e@).len() && hostnames(e@)[k] == q@;
                        if k > 0 {
                            assert(e@.aliases[k - 1] == q@);
                        }
                    }
                }
                if named && !e.disabled {
                    found.push((host.clone(), e.ip.clone()));
                    assert(pair_views(found@) =~= prev + seq![(host@, e@.ip)]);
                } else {
                    assert(pair_views(found@) =~= prev + Seq::<(Seq<char>, Seq<char>)>::empty());
                }
            }
        }
        assert(ev.take(entries.len() as int) =~= ev);
    }
    assert(hv.take(hosts.len() as int) =~= hv);
    found
}

/// What a DNS lookup of a name asks: the name without trailing dots, looked
/// up in reverse when it is an IP address.
pub enum Lookup {
    /// Reverse lookup of an address.
    Reverse(String),
    /// Forward lookup of a hostname.
    Forward(String),
}

/// What a DNS lookup of `host` asks.
pub fn lookup_for(host: &str) -> (q: Lookup)
    ensures
        match q {
            Lookup::Reverse(a) => is_ip_text(strip_dots(host@)) && a@ == strip_dots(host@),
            Lookup::Forward(n) => !is_ip_text(strip_dots(host@)) && n@ == strip_dots(host@),
        },
{
    let q = trim_trailing_dots(host);
    if is_valid_ip(q.as_str()) {
        Lookup::Reverse(q)
    } else {
        Lookup::Forward(q)
    }
}

/// The rows a reverse lookup of `host` shows: each name found (without
/// trailing dots) with `host` as written.
pub fn reverse_rows(host: &str, names: &[String]) -> (rows: Vec<(String, String)>)
    ensures
        pair_views(rows@) == strs(names@).map_values(|n: Seq<char>| (strip_dots(n), host@)),
{
    let mut rows: Vec<(String, String)> = Vec::new();
    for i in 0..names.len()
        invariant
            pair_views(rows@) == strs(names@).take(i as int).map_values(
                |n: Seq<char>| (strip_dots(n), host@),
            ),
    {
        let ghost prev = pair_views(rows@);
        let name = trim_trailing_dots(names[i].as_str());
        rows.push((name, host.to_owned()));
        assert(pair_views(rows@) =~= prev.push((strip_dots(names@[i as int]@), host@)));
        assert(strs(names@).take(i + 1) =~= strs(names@).take(i as int).push(names@[i as int]@));
    }
    assert(strs(names@).take(names.len() as int) =~= strs(names@));
    rows
}

/// The rows a forward lookup of `host` shows: `host` as written with each
/// address found.
pub fn forward_rows(host: &str, addrs: &[String]) -> (rows: Vec<(String, String)>)
    ensures
        pair_views(rows@) == strs(addrs@).map_values(|a: Seq<char>| (host@, a)),
{
    let mut rows: Vec<(String, String)> = Vec::new();
    for i in 0..addrs.len()
        invariant
            pair_views(rows@) == strs(addrs@).take(i as int).map_values(
                |a: Seq<char>| (host@, a),
            ),
    {
        let ghost prev = pair_views(rows@);
        rows.push((host.to_owned(), addrs[i].clone()));
        assert(pair_views(rows@) =~= prev.push((host@, addrs@[i as int]@)));
        assert(strs(addrs@).take(i + 1) =~= strs(addrs@).take(i as int).push(addrs@[i as int]@));
    }
    assert(strs(addrs@).take(addrs.len() as int) =~= strs(addrs@));
    rows
}

/// What a lookup asks, as a value: whether it is a reverse lookup, and the
/// address or name it looks up.
pub open spec fn lookup_view(q: Lookup) -> (bool, Seq<char>) {
    match q {
        Lookup::Reverse(a) => (true, a@),
        Lookup::Forward(n) => (false, n@),
    }
}

/// What a DNS lookup of `host` asks.
pub open spec fn lookup_of(host: Seq<char>) -> (bool, Seq<char>) {
    (is_ip_text(strip_dots(host)), strip_dots(host))
}

/// How `resolve` answers: from the hosts file, or by the DNS lookups to make
/// (one per name, in order).
pub enum ResolvePlan {
    Local(crate::commands::Outcome),
    Dns(Vec<Lookup>),
}

/// `resolve`: against the hosts file the store holds when `local`,
/// otherwise the DNS lookups to make.
pub fn handle(store: &crate::store::Store, hosts: &[String], local: bool) -> (p: ResolvePlan)
    ensures
        local ==> (p matches ResolvePlan::Local(o) && ({
            let found = lookup_spec(crate::parser::parse_spec(store@.content), strs(hosts@));
            &&& o@.out == if found.len() == 0 {
                seq!["No local match found."@]
            } else {
                seq![crate::table::rounded_table(crate::table::resolve_records(found))]
            }
            &&& o@.err == Seq::<Seq<char>>::empty()
            &&& !o@.failed
        })),
        !local ==> (p matches ResolvePlan::Dns(qs) && qs@.len() == hosts@.len() && forall|k: int|
            0 <= k < hosts@.len() ==> lookup_view(#[trigger] qs@[k]) == lookup_of(hosts@[k]@)),
{
    if local {
        return ResolvePlan::Local(crate::commands::handle_resolve_local(store, hosts));
    }
    let mut qs: Vec<Lookup> = Vec::new();
    for k in 0..hosts.len()
        invariant
            qs@.len() == k,
            forall|m: int| 0 <= m < k ==> lookup_view(#[trigger] qs@[m]) == lookup_of(hosts@[m]@),
    {
        let q = lookup_for(hosts[k].as_str());
        qs.push(q);
    }
    ResolvePlan::Dns(qs)
}

} // verus!
