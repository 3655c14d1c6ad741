//! Properties that relate the edits of a hosts file to one another and to
//! the state they leave behind.
use crate::check::dedup;
use crate::cli::{compact_spec, row_ips};
use crate::edit::{
    add_dups, add_entry_spec, add_host, apply_merge, apply_merges, count_ip_state, count_with_host,
    disable_hostname_spec, disable_rest, drop_canonical, duplicates_spec, enable_hostname_spec,
    extend_hosts, find_enabled, find_entry, find_ip, first_host, merge_hosts, merges, within,
    has_host, lemma_find_ip, move_hostname_spec, nonblank, other_ips, remove_hostnames_spec,
    set_ip_state, split_off_hosts, split_pairs, is_matched, leftover, leftovers, max_id, clamp,
    remaining_hosts, unmatched, strip_host, strip_names, with_names, without,
    lemma_without_len, removed_hosts, removed_total,
};
use crate::model::{EntryView, RowView};
use crate::serializer::hostnames;
use crate::store::{any_enabled_ip, toggle_host_spec};
use vstd::prelude::*;

verus! {

/// Setting the state of an address commutes with dropping the last entry.
proof fn lemma_set_ip_state_drop_last(es: Seq<EntryView>, ip: Seq<char>, d: bool)
    requires
        es.len() > 0,
    ensures
        set_ip_state(es, ip, d).drop_last() == set_ip_state(es.drop_last(), ip, d),
        set_ip_state(es, ip, d).last() == set_ip_state(seq![es.last()], ip, d)[0],
{
    assert(set_ip_state(es, ip, d).drop_last() =~= set_ip_state(es.drop_last(), ip, d));
}

/// No entry of `ip` has state `d` when none is counted.
proof fn lemma_count_zero(es: Seq<EntryView>, ip: Seq<char>, d: bool)
    requires
        count_ip_state(es, ip, d) == 0,
    ensures
        forall|k: int| 0 <= k < es.len() && #[trigger] es[k].ip == ip ==> es[k].disabled != d,
    decreases es.len(),
{
    if es.len() > 0 {
        lemma_count_zero(es.drop_last(), ip, d);
        assert forall|k: int| 0 <= k < es.len() && #[trigger] es[k].ip == ip implies es[k].disabled
            != d by {
            if k < es.len() - 1 {
                assert(es.drop_last()[k] == es[k]);
            }
        }
    }
}

/// Once every entry of `ip` has state `d`, they all count for `d`.
proof fn lemma_count_after_set(es: Seq<EntryView>, ip: Seq<char>, d: bool)
    ensures
        count_ip_state(set_ip_state(es, ip, d), ip, d) == count_ip_state(es, ip, d)
            + count_ip_state(es, ip, !d),
        count_ip_state(set_ip_state(es, ip, d), ip, !d) == 0,
    decreases es.len(),
{
    if es.len() > 0 {
        lemma_set_ip_state_drop_last(es, ip, d);
        lemma_count_after_set(es.drop_last(), ip, d);
    }
}

/// Disabling an address and then enabling it again gives the entries back,
/// and the enabling reports as many entries as the disabling did, when no
/// entry of that address was disabled before.
pub proof fn lemma_disable_then_enable_ip(es: Seq<EntryView>, ip: Seq<char>)
    requires
        count_ip_state(es, ip, true) == 0,
    ensures
        set_ip_state(set_ip_state(es, ip, true), ip, false) == es,
        count_ip_state(set_ip_state(es, ip, true), ip, true) == count_ip_state(es, ip, false),
{
    lemma_count_zero(es, ip, true);
    lemma_count_after_set(es, ip, true);
    assert(set_ip_state(set_ip_state(es, ip, true), ip, false) =~= es);
}

/// Toggling an address whose entries are all enabled disables them, after
/// which no entry of it is enabled, so toggling again enables them and gives
/// the entries back.
pub proof fn lemma_toggle_ip_twice(es: Seq<EntryView>, ip: Seq<char>)
    requires
        any_enabled_ip(es, ip),
        count_ip_state(es, ip, true) == 0,
    ensures
        !any_enabled_ip(set_ip_state(es, ip, true), ip),
        set_ip_state(set_ip_state(es, ip, true), ip, false) == es,
{
    lemma_disable_then_enable_ip(es, ip);
    let es1 = set_ip_state(es, ip, true);
    assert forall|k: int| 0 <= k < es1.len() && !es1[k].disabled implies #[trigger] es1[k].ip
        != ip by {}
}

/// Removing an address removes exactly its entries: none of that address is
/// left, and as many went as it had, enabled or disabled.
pub proof fn lemma_remove_ip(es: Seq<EntryView>, ip: Seq<char>)
    ensures
        forall|k: int| 0 <= k < other_ips(es, ip).len() ==> #[trigger] other_ips(es, ip)[k].ip != ip,
        es.len() - other_ips(es, ip).len() == count_ip_state(es, ip, true) + count_ip_state(
            es,
            ip,
            false,
        ),
    decreases es.len(),
{
    if es.len() > 0 {
        lemma_remove_ip(es.drop_last(), ip);
        let prev = other_ips(es.drop_last(), ip);
        if es.last().ip != ip {
            assert forall|k: int| 0 <= k < other_ips(es, ip).len() implies #[trigger] other_ips(
                es,
                ip,
            )[k].ip != ip by {
                if k < prev.len() {
                    assert(other_ips(es, ip)[k] == prev[k]);
                }
            }
        }
    }
}

/// `find_entry` finds an entry of the address and canonical name, or none.
proof fn lemma_find_entry(es: Seq<EntryView>, ip: Seq<char>, c: Seq<char>, i: int)
    requires
        0 <= i <= es.len(),
    ensures
        i <= find_entry(es, ip, c, i) <= es.len(),
        find_entry(es, ip, c, i) < es.len() ==> es[find_entry(es, ip, c, i)].ip == ip,
    decreases es.len() - i,
{
    if i < es.len() && !(es[i].ip == ip && es[i].canonical == c) {
        lemma_find_entry(es, ip, c, i + 1);
    }
}

/// Adding a hostname to an entry keeps its address, state and hostnames, and
/// leaves it naming the added one.
proof fn lemma_add_host(e: EntryView, h: Seq<char>)
    ensures
        add_host(e, h).ip == e.ip,
        add_host(e, h).disabled == e.disabled,
        has_host(add_host(e, h), h),
        forall|g: Seq<char>| has_host(e, g) ==> has_host(add_host(e, h), g),
{
    if e.canonical != h && !e.aliases.contains(h) {
        assert(e.aliases.push(h)[e.aliases.len() as int] == h);
        assert forall|g: Seq<char>| has_host(e, g) implies has_host(add_host(e, h), g) by {
            if e.aliases.contains(g) {
                let j = choose|j: int| 0 <= j < e.aliases.len() && e.aliases[j] == g;
                assert(e.aliases.push(h)[j] == g);
            }
        }
    }
}

/// Adding hostnames to an entry keeps its address and the hostnames it had,
/// and leaves it naming every added one.
proof fn lemma_extend_hosts(e: EntryView, hosts: Seq<Seq<char>>)
    ensures
        extend_hosts(e, hosts).ip == e.ip,
        forall|h: Seq<char>| has_host(e, h) ==> has_host(extend_hosts(e, hosts), h),
        forall|i: int| 0 <= i < hosts.len() ==> has_host(extend_hosts(e, hosts), #[trigger] hosts[i]),
    decreases hosts.len(),
{
    if hosts.len() > 0 {
        let prev = extend_hosts(e, hosts.drop_last());
        lemma_extend_hosts(e, hosts.drop_last());
        lemma_add_host(prev, hosts.last());
        assert forall|i: int| 0 <= i < hosts.len() implies has_host(
            extend_hosts(e, hosts),
            #[trigger] hosts[i],
        ) by {
            if i < hosts.len() - 1 {
                assert(hosts.drop_last()[i] == hosts[i]);
            }
        }
    }
}

/// After adding hostnames for an address, one entry of that address names
/// all of them; every other entry stays as it was.
pub proof fn lemma_add_entry_names(
    es: Seq<EntryView>,
    ip: Seq<char>,
    hosts: Seq<Seq<char>>,
    comment: Option<Seq<char>>,
)
    ensures
        ({
            let r = add_entry_spec(es, ip, hosts, comment);
            exists|t: int|
                0 <= t < r.len() && r[t].ip == ip && (forall|i: int|
                    0 <= i < hosts.len() ==> has_host(r[t], #[trigger] hosts[i])) && (forall|k: int|
                    0 <= k < es.len() && k != t ==> #[trigger] r[k] == es[k])
        }),
{
    let r = add_entry_spec(es, ip, hosts, comment);
    let c = first_host(hosts);
    let t = find_entry(es, ip, c, 0);
    lemma_find_entry(es, ip, c, 0);
    if t < es.len() {
        lemma_extend_hosts(es[t], hosts);
        assert forall|i: int| 0 <= i < hosts.len() implies has_host(r[t], #[trigger] hosts[i]) by {
            assert(has_host(extend_hosts(es[t], hosts), hosts[i]));
        }
    } else {
        let n = es.len() as int;
        assert forall|i: int| 0 <= i < hosts.len() implies has_host(r[n], #[trigger] hosts[i]) by {
            if i > 0 {
                assert(r[n].aliases[i - 1] == hosts[i]);
            }
        }
        assert(r[n].ip == ip);
    }
}

/// The duplicates `add_dups` collects: those `acc` held, and the hosts the
/// entry names.
proof fn lemma_add_dups(acc: Seq<Seq<char>>, e: EntryView, hosts: Seq<Seq<char>>, h: Seq<char>)
    ensures
        add_dups(acc, e, hosts).contains(h) <==> (acc.contains(h) || (hosts.contains(h)
            && has_host(e, h))),
    decreases hosts.len(),
{
    if hosts.len() > 0 {
        lemma_add_dups(acc, e, hosts.drop_last(), h);
        let p = add_dups(acc, e, hosts.drop_last());
        let g = hosts.last();
        if hosts.contains(h) && !hosts.drop_last().contains(h) {
            let j = choose|j: int| 0 <= j < hosts.len() && hosts[j] == h;
            if j < hosts.len() - 1 {
                assert(hosts.drop_last()[j] == h);
            }
            assert(g == h);
        }
        if hosts.drop_last().contains(h) {
            let j = choose|j: int| 0 <= j < hosts.len() - 1 && hosts.drop_last()[j] == h;
            assert(hosts[j] == h);
        }
        if has_host(e, g) && !p.contains(g) {
            if p.contains(h) {
                let j = choose|j: int| 0 <= j < p.len() && p[j] == h;
                assert(p.push(g)[j] == h);
            }
            if h == g {
                assert(p.push(g)[p.len() as int] == h);
            }
            if p.push(g).contains(h) && h != g {
                let j = choose|j: int| 0 <= j < p.len() + 1 && p.push(g)[j] == h;
                assert(p[j] == h);
            }
        }
    }
}

/// Adding reports a hostname as a duplicate exactly when it is among the
/// added hostnames and an entry of another address names it.
pub proof fn lemma_duplicates(es: Seq<EntryView>, ip: Seq<char>, hosts: Seq<Seq<char>>, h: Seq<char>)
    ensures
        duplicates_spec(es, ip, hosts).contains(h) <==> (hosts.contains(h) && exists|k: int|
            0 <= k < es.len() && es[k].ip != ip && #[trigger] has_host(es[k], h)),
    decreases es.len(),
{
    if es.len() > 0 {
        lemma_duplicates(es.drop_last(), ip, hosts, h);
        let p = duplicates_spec(es.drop_last(), ip, hosts);
        let e = es.last();
        if e.ip != ip {
            lemma_add_dups(p, e, hosts, h);
        }
        if exists|k: int| 0 <= k < es.len() && es[k].ip != ip && #[trigger] has_host(es[k], h) {
            let k = choose|k: int| 0 <= k < es.len() && es[k].ip != ip && #[trigger] has_host(es[k], h);
            if k < es.len() - 1 {
                assert(es.drop_last()[k] == es[k]);
            }
        }
        if exists|k: int|
            0 <= k < es.len() - 1 && es.drop_last()[k].ip != ip && #[trigger] has_host(
                es.drop_last()[k],
                h,
            ) {
            let k = choose|k: int|
                0 <= k < es.len() - 1 && es.drop_last()[k].ip != ip && #[trigger] has_host(
                    es.drop_last()[k],
                    h,
                );
            assert(es[k] == es.drop_last()[k]);
        }
    }
}

/// The distinct elements hold each element once, and hold what the sequence holds.
proof fn lemma_dedup(s: Seq<Seq<char>>)
    ensures
        dedup(s).len() <= s.len(),
        forall|i: int, j: int| 0 <= i < j < dedup(s).len() ==> dedup(s)[i] != dedup(s)[j],
        forall|x: Seq<char>| dedup(s).contains(x) <==> s.contains(x),
    decreases s.len(),
{
    if s.len() > 0 {
        lemma_dedup(s.drop_last());
        let p = dedup(s.drop_last());
        assert forall|x: Seq<char>| dedup(s).contains(x) <==> s.contains(x) by {
            if s.contains(x) {
                let j = choose|j: int| 0 <= j < s.len() && s[j] == x;
                if j < s.len() - 1 {
                    assert(s.drop_last()[j] == x);
                    assert(s.drop_last().contains(x));
                    assert(p.contains(x));
                    let m = choose|m: int| 0 <= m < p.len() && p[m] == x;
                    if !p.contains(s.last()) {
                        assert(p.push(s.last())[m] == x);
                    }
                } else {
                    if !p.contains(s.last()) {
                        assert(p.push(s.last())[p.len() as int] == x);
                    }
                }
                assert(dedup(s).contains(x));
            }
            if dedup(s).contains(x) {
                let j = choose|j: int| 0 <= j < dedup(s).len() && dedup(s)[j] == x;
                if j < p.len() {
                    assert(p[j] == x);
                    assert(p.contains(x));
                    assert(s.drop_last().contains(x));
                    let m = choose|m: int| 0 <= m < s.len() - 1 && s.drop_last()[m] == x;
                    assert(s[m] == x);
                } else {
                    assert(s[s.len() - 1] == x);
                }
                assert(s.contains(x));
            }
        }
    }
}

/// Compacting gives one row per address, no address twice, and a row for
/// every address among the rows; the hosts and comments of each address's
/// rows make up its row.
pub proof fn lemma_compact_rows(rows: Seq<RowView>)
    ensures
        compact_spec(rows).len() <= rows.len(),
        forall|i: int, j: int|
            0 <= i < j < compact_spec(rows).len() ==> compact_spec(rows)[i].ip != compact_spec(
                rows,
            )[j].ip,
        forall|k: int|
            0 <= k < rows.len() ==> exists|j: int|
                0 <= j < compact_spec(rows).len() && #[trigger] compact_spec(rows)[j].ip
                    == #[trigger] rows[k].ip,
{
    let ips = row_ips(rows);
    lemma_dedup(ips);
    assert forall|k: int| 0 <= k < rows.len() implies exists|j: int|
        0 <= j < compact_spec(rows).len() && #[trigger] compact_spec(rows)[j].ip
            == #[trigger] rows[k].ip by {
        assert(ips[k] == rows[k].ip);
        assert(ips.contains(rows[k].ip));
        let j = choose|j: int| 0 <= j < dedup(ips).len() && dedup(ips)[j] == rows[k].ip;
        assert(compact_spec(rows)[j].ip == rows[k].ip);
    }
}

/// The entries that hold a hostname are entries of the sequence.
proof fn lemma_nonblank(es: Seq<EntryView>)
    ensures
        nonblank(es).len() <= es.len(),
        forall|k: int|
            0 <= k < nonblank(es).len() ==> exists|j: int|
                0 <= j < es.len() && #[trigger] nonblank(es)[k] == es[j],
    decreases es.len(),
{
    if es.len() > 0 {
        lemma_nonblank(es.drop_last());
        let p = nonblank(es.drop_last());
        assert forall|k: int| 0 <= k < nonblank(es).len() implies exists|j: int|
            0 <= j < es.len() && #[trigger] nonblank(es)[k] == es[j] by {
            if k < p.len() {
                let j = choose|j: int| 0 <= j < es.len() - 1 && #[trigger] p[k] == es.drop_last()[j];
                assert(nonblank(es)[k] == es[j]);
            } else {
                assert(nonblank(es)[k] == es[es.len() - 1]);
            }
        }
    }
}

/// What `without` keeps it had, and none of the names.
proof fn lemma_without(hs: Seq<Seq<char>>, names: Seq<Seq<char>>, x: Seq<char>)
    ensures
        without(hs, names).contains(x) ==> hs.contains(x) && !names.contains(x),
    decreases hs.len(),
{
    if hs.len() > 0 {
        lemma_without(hs.drop_last(), names, x);
        let p = without(hs.drop_last(), names);
        if without(hs, names).contains(x) {
            let j = choose|j: int| 0 <= j < without(hs, names).len() && without(hs, names)[j] == x;
            if j < p.len() {
                assert(p[j] == x);
                let m = choose|m: int| 0 <= m < hs.len() - 1 && hs.drop_last()[m] == x;
                assert(hs[m] == x);
            } else {
                assert(hs[hs.len() - 1] == x);
            }
        }
    }
}

/// An entry with one hostname taken out no longer names it, provided the
/// hostname is not empty and does not also stand first among the aliases of
/// an entry whose canonical name it is.
proof fn lemma_strip_host(e: EntryView, h: Seq<char>)
    requires
        h.len() > 0,
        e.canonical == h && e.aliases.len() > 0 ==> e.aliases[0] != h,
    ensures
        !has_host(strip_host(e, h), h),
{
    let e1 = if e.canonical == h {
        drop_canonical(e)
    } else {
        e
    };
    lemma_without(e1.aliases, seq![h], h);
    assert(seq![h].contains(h)) by {
        assert(seq![h][0] == h);
    }
}

/// Once a hostname moves to a new address, exactly one entry names it, and
/// that entry has the new address; provided some entry named it, it is not
/// empty, and no entry holds it both as canonical name and as first alias.
pub proof fn lemma_move_hostname(es: Seq<EntryView>, h: Seq<char>, new_ip: Seq<char>)
    requires
        count_with_host(es, h) > 0,
        h.len() > 0,
        forall|k: int|
            0 <= k < es.len() && #[trigger] es[k].canonical == h && es[k].aliases.len() > 0
                ==> es[k].aliases[0] != h,
    ensures
        ({
            let r = move_hostname_spec(es, h, new_ip).0;
            exists|t: int|
                0 <= t < r.len() && r[t].ip == new_ip && has_host(r[t], h) && forall|k: int|
                    0 <= k < r.len() && #[trigger] has_host(r[k], h) ==> k == t
        }),
{
    let stripped = es.map_values(|e: EntryView| strip_host(e, h));
    let kept = nonblank(stripped);
    lemma_nonblank(stripped);
    assert forall|k: int| 0 <= k < kept.len() implies !has_host(#[trigger] kept[k], h) by {
        let j = choose|j: int| 0 <= j < stripped.len() && #[trigger] kept[k] == stripped[j];
        lemma_strip_host(es[j], h);
    }
    let r = move_hostname_spec(es, h, new_ip).0;
    let t = find_ip(kept, new_ip, 0);
    lemma_find_ip(kept, new_ip, 0);
    if t < kept.len() {
        lemma_add_host(kept[t], h);
        assert(r[t].ip == new_ip && has_host(r[t], h));
        assert forall|k: int| 0 <= k < r.len() && #[trigger] has_host(r[k], h) implies k == t by {
            if k != t {
                assert(r[k] == kept[k]);
            }
        }
    } else {
        let n = kept.len() as int;
        assert(r[n].ip == new_ip && has_host(r[n], h));
        assert forall|k: int| 0 <= k < r.len() && #[trigger] has_host(r[k], h) implies k == n by {
            if k != n {
                assert(r[k] == kept[k]);
            }
        }
    }
}

/// An entry given some hostnames names none of those that are not among them
/// (an empty canonical name aside).
proof fn lemma_with_names(e: EntryView, hs: Seq<Seq<char>>, x: Seq<char>)
    requires
        x.len() > 0,
        !hs.contains(x),
    ensures
        !has_host(with_names(e, hs), x),
{
    if hs.len() > 0 {
        assert(hs[0] != x);
        if with_names(e, hs).aliases.contains(x) {
            let j = choose|j: int|
                0 <= j < hs.drop_first().len() && hs.drop_first()[j] == x;
            assert(hs[j + 1] == x);
        }
    }
}

/// An entry with the names taken out no longer names any of them, provided
/// none is empty.
proof fn lemma_strip_names(e: EntryView, names: Seq<Seq<char>>, i: int)
    requires
        0 <= i < names.len(),
        names[i].len() > 0,
    ensures
        !has_host(strip_names(e, names), names[i]),
        !has_host(disable_rest(e, names), names[i]),
{
    let x = names[i];
    assert(names.contains(x));
    lemma_without(e.aliases, names, x);
    if names.contains(e.canonical) {
        lemma_with_names(e, without(e.aliases, names), x);
    }
}

/// After removing hostnames no entry names any of them, provided none is
/// empty.
pub proof fn lemma_remove_hostnames(es: Seq<EntryView>, names: Seq<Seq<char>>)
    requires
        forall|i: int| 0 <= i < names.len() ==> (#[trigger] names[i]).len() > 0,
    ensures
        forall|k: int, i: int|
            0 <= k < remove_hostnames_spec(es, names).len() && 0 <= i < names.len() ==> !has_host(
                #[trigger] remove_hostnames_spec(es, names)[k],
                #[trigger] names[i],
            ),
{
    let stripped = es.map_values(|e: EntryView| strip_names(e, names));
    let r = remove_hostnames_spec(es, names);
    lemma_nonblank(stripped);
    assert forall|k: int, i: int| 0 <= k < r.len() && 0 <= i < names.len() implies !has_host(
        #[trigger] r[k],
        #[trigger] names[i],
    ) by {
        let j = choose|j: int| 0 <= j < stripped.len() && #[trigger] r[k] == stripped[j];
        lemma_strip_names(es[j], names, i);
    }
}

/// After disabling hostnames no enabled entry names any of them, provided
/// none is empty.
pub proof fn lemma_disable_hostnames(es: Seq<EntryView>, names: Seq<Seq<char>>)
    requires
        forall|i: int| 0 <= i < names.len() ==> (#[trigger] names[i]).len() > 0,
    ensures
        forall|k: int, i: int|
            0 <= k < disable_hostname_spec(es, names).0.len() && 0 <= i < names.len()
                && !disable_hostname_spec(es, names).0[k].disabled ==> !has_host(
                #[trigger] disable_hostname_spec(es, names).0[k],
                #[trigger] names[i],
            ),
{
    let rest = es.map_values(|e: EntryView| disable_rest(e, names));
    let kept = nonblank(rest);
    let r = disable_hostname_spec(es, names).0;
    lemma_nonblank(rest);
    assert forall|k: int, i: int|
        0 <= k < r.len() && 0 <= i < names.len() && !r[k].disabled implies !has_host(
        #[trigger] r[k],
        #[trigger] names[i],
    ) by {
        if k < kept.len() {
            assert(r[k] == kept[k]);
            let j = choose|j: int| 0 <= j < rest.len() && #[trigger] kept[k] == rest[j];
            lemma_strip_names(es[j], names, i);
        }
    }
}

/// How many times the entries name one of `names`, counting each hostname
/// of each entry.
pub open spec fn listed_total(es: Seq<EntryView>, names: Seq<Seq<char>>) -> nat
    decreases es.len(),
{
    if es.len() == 0 {
        0
    } else {
        listed_total(es.drop_last(), names) + within(hostnames(es.last()), names).len()
    }
}

/// The listed hostnames of two lists one after the other.
proof fn lemma_within_append(a: Seq<Seq<char>>, b: Seq<Seq<char>>, names: Seq<Seq<char>>)
    ensures
        within(a + b, names) == within(a, names) + within(b, names),
    decreases b.len(),
{
    if b.len() == 0 {
        assert(a + b =~= a);
        assert(within(a, names) + within(b, names) =~= within(a, names));
    } else {
        assert((a + b).drop_last() =~= a + b.drop_last());
        assert((a + b).last() == b.last());
        lemma_within_append(a, b.drop_last(), names);
        assert(within(a + b, names) =~= within(a, names) + within(b, names));
    }
}

/// The hostnames disabling splits off an entry are its listed hostnames.
proof fn lemma_split_off(e: EntryView, names: Seq<Seq<char>>)
    ensures
        split_off_hosts(e, names) == within(hostnames(e), names),
{
    lemma_within_append(seq![e.canonical], e.aliases, names);
    let one = seq![e.canonical];
    assert(one.drop_last() =~= Seq::<Seq<char>>::empty());
    assert(within(one.drop_last(), names) =~= Seq::<Seq<char>>::empty());
    if names.contains(e.canonical) {
        assert(within(one, names) =~= seq![e.canonical]);
    } else {
        assert(within(one, names) =~= Seq::<Seq<char>>::empty());
        assert(within(one, names) + within(e.aliases, names) =~= within(e.aliases, names));
    }
}

/// Disabling counts, and splits off onto lines of their own, exactly the
/// times the entries name one of the listed hostnames.
pub proof fn lemma_disable_hostnames_count(es: Seq<EntryView>, names: Seq<Seq<char>>)
    ensures
        disable_hostname_spec(es, names).1 == listed_total(es, names),
        disable_hostname_spec(es, names).0.len() == nonblank(
            es.map_values(|e: EntryView| disable_rest(e, names)),
        ).len() + listed_total(es, names),
{
    lemma_split_pairs_len(es, names);
}

/// The split-off pairs are as many as the listed hostnames named.
proof fn lemma_split_pairs_len(es: Seq<EntryView>, names: Seq<Seq<char>>)
    ensures
        split_pairs(es, names).len() == listed_total(es, names),
    decreases es.len(),
{
    if es.len() > 0 {
        lemma_split_pairs_len(es.drop_last(), names);
        lemma_split_off(es.last(), names);
    }
}

/// Whether no hostname of the entries is empty, as in a parsed file.
pub open spec fn names_nonempty(es: Seq<EntryView>) -> bool {
    forall|k: int|
        0 <= k < es.len() ==> (#[trigger] es[k]).canonical.len() > 0 && forall|m: int|
            0 <= m < es[k].aliases.len() ==> (#[trigger] es[k].aliases[m]).len() > 0
}

/// Removing takes from one entry exactly its listed hostnames.
proof fn lemma_removed_hosts(e: EntryView, names: Seq<Seq<char>>)
    requires
        e.canonical.len() > 0,
        forall|m: int| 0 <= m < e.aliases.len() ==> (#[trigger] e.aliases[m]).len() > 0,
    ensures
        removed_hosts(e, names) == within(hostnames(e), names).len(),
{
    lemma_split_off(e, names);
    lemma_without_len(e.aliases, names);
    let w = without(e.aliases, names);
    if names.contains(e.canonical) && w.len() > 0 {
        assert(w.contains(w[0]));
        lemma_without(e.aliases, names, w[0]);
        let m = choose|m: int| 0 <= m < e.aliases.len() && e.aliases[m] == w[0];
        assert(e.aliases[m].len() > 0);
    }
}

/// Removing counts exactly the times the entries name one of the listed
/// hostnames, when no hostname of theirs is empty.
pub proof fn lemma_remove_hostnames_count(es: Seq<EntryView>, names: Seq<Seq<char>>)
    requires
        names_nonempty(es),
    ensures
        removed_total(es, names) == listed_total(es, names),
    decreases es.len(),
{
    if es.len() > 0 {
        assert(names_nonempty(es.drop_last())) by {
            assert forall|k: int| 0 <= k < es.drop_last().len() implies (
            #[trigger] es.drop_last()[k]).canonical.len() > 0 && forall|m: int|
                0 <= m < es.drop_last()[k].aliases.len() ==> (
                #[trigger] es.drop_last()[k].aliases[m]).len() > 0 by {
                assert(es.drop_last()[k] == es[k]);
            }
        }
        lemma_remove_hostnames_count(es.drop_last(), names);
        let e = es.last();
        assert(e == es[es.len() - 1]);
        lemma_removed_hosts(e, names);
    }
}

/// Whether some enabled entry of address `ip` names `h`.
pub open spec fn enabled_on(es: Seq<EntryView>, ip: Seq<char>, h: Seq<char>) -> bool {
    exists|k: int| 0 <= k < es.len() && es[k].ip == ip && !es[k].disabled && #[trigger] has_host(es[k], h)
}

/// `find_enabled` finds an enabled entry of the address, or none.
proof fn lemma_find_enabled(es: Seq<EntryView>, ip: Seq<char>, i: int)
    requires
        0 <= i <= es.len(),
    ensures
        i <= find_enabled(es, ip, i) <= es.len(),
        find_enabled(es, ip, i) < es.len() ==> es[find_enabled(es, ip, i)].ip == ip
            && !es[find_enabled(es, ip, i)].disabled,
    decreases es.len() - i,
{
    if i < es.len() && !(es[i].ip == ip && !es[i].disabled) {
        lemma_find_enabled(es, ip, i + 1);
    }
}

/// Merging a hostname back leaves it on an enabled entry of its address, and
/// keeps every hostname that was on an enabled entry of an address there.
proof fn lemma_apply_merge(es: Seq<EntryView>, m: (Seq<char>, Seq<char>))
    ensures
        enabled_on(apply_merge(es, m), m.0, m.1),
        forall|ip: Seq<char>, h: Seq<char>|
            enabled_on(es, ip, h) ==> #[trigger] enabled_on(apply_merge(es, m), ip, h),
{
    let r = apply_merge(es, m);
    let t = find_enabled(es, m.0, 0);
    lemma_find_enabled(es, m.0, 0);
    if t < es.len() {
        lemma_add_host(es[t], m.1);
        assert(r[t].ip == m.0 && !r[t].disabled && has_host(r[t], m.1));
        assert forall|ip: Seq<char>, h: Seq<char>| enabled_on(es, ip, h) implies #[trigger] enabled_on(
            r,
            ip,
            h,
        ) by {
            let k = choose|k: int|
                0 <= k < es.len() && es[k].ip == ip && !es[k].disabled && #[trigger] has_host(es[k], h);
            if k == t {
                assert(has_host(r[t], h));
            } else {
                assert(r[k] == es[k]);
            }
        }
    } else {
        let n = es.len() as int;
        assert(r[n].ip == m.0 && !r[n].disabled && has_host(r[n], m.1));
        assert forall|ip: Seq<char>, h: Seq<char>| enabled_on(es, ip, h) implies #[trigger] enabled_on(
            r,
            ip,
            h,
        ) by {
            let k = choose|k: int|
                0 <= k < es.len() && es[k].ip == ip && !es[k].disabled && #[trigger] has_host(es[k], h);
            assert(r[k] == es[k]);
        }
    }
}

/// Merging hostnames back one after the other leaves each on an enabled
/// entry of its address.
proof fn lemma_apply_merges(es: Seq<EntryView>, ms: Seq<(Seq<char>, Seq<char>)>)
    ensures
        forall|j: int|
            0 <= j < ms.len() ==> enabled_on(apply_merges(es, ms), (#[trigger] ms[j]).0, ms[j].1),
    decreases ms.len(),
{
    if ms.len() > 0 {
        let prev = apply_merges(es, ms.drop_last());
        lemma_apply_merges(es, ms.drop_last());
        lemma_apply_merge(prev, ms.last());
        assert forall|j: int| 0 <= j < ms.len() implies enabled_on(
            apply_merges(es, ms),
            (#[trigger] ms[j]).0,
            ms[j].1,
        ) by {
            if j < ms.len() - 1 {
                assert(ms.drop_last()[j] == ms[j]);
                assert(enabled_on(prev, ms[j].0, ms[j].1));
            }
        }
    }
}

/// What `within` keeps: the hostnames that are among the names.
proof fn lemma_within(hs: Seq<Seq<char>>, names: Seq<Seq<char>>, x: Seq<char>)
    ensures
        hs.contains(x) && names.contains(x) ==> within(hs, names).contains(x),
    decreases hs.len(),
{
    if hs.len() > 0 {
        lemma_within(hs.drop_last(), names, x);
        let p = within(hs.drop_last(), names);
        if hs.contains(x) && names.contains(x) {
            let j = choose|j: int| 0 <= j < hs.len() && hs[j] == x;
            if j < hs.len() - 1 {
                assert(hs.drop_last()[j] == x);
                let m = choose|m: int| 0 <= m < p.len() && p[m] == x;
                if names.contains(hs.last()) {
                    assert(p.push(hs.last())[m] == x);
                }
            } else {
                assert(p.push(hs.last())[p.len() as int] == x);
            }
        }
    }
}

/// Every listed hostname of a disabled entry is merged back to that entry's address.
proof fn lemma_merges_cover(es: Seq<EntryView>, names: Seq<Seq<char>>, k: int, h: Seq<char>)
    requires
        0 <= k < es.len(),
        es[k].disabled,
        has_host(es[k], h),
        names.contains(h),
    ensures
        merges(es, names).contains((es[k].ip, h)),
    decreases es.len(),
{
    let p = merges(es.drop_last(), names);
    let e = es.last();
    if k < es.len() - 1 {
        assert(es.drop_last()[k] == es[k]);
        lemma_merges_cover(es.drop_last(), names, k, h);
        let j = choose|j: int| 0 <= j < p.len() && p[j] == (es[k].ip, h);
        assert(merges(es, names)[j] == p[j]);
    } else {
        let mh = merge_hosts(e, names);
        let jm: int = if e.canonical == h {
            0
        } else {
            lemma_within(e.aliases, names, h);
            let pre = if names.contains(e.canonical) {
                seq![e.canonical]
            } else {
                Seq::<Seq<char>>::empty()
            };
            let w = within(e.aliases, names);
            let i = choose|i: int| 0 <= i < w.len() && w[i] == h;
            assert(mh[pre.len() + i] == h);
            pre.len() + i
        };
        assert(0 <= jm < mh.len() && mh[jm] == h);
        assert(merges(es, names)[p.len() + jm] == (es[k].ip, h));
    }
}

/// After enabling hostnames, every listed hostname that a disabled entry
/// named is named by an enabled entry of that entry's address.
pub proof fn lemma_enable_hostnames(es: Seq<EntryView>, names: Seq<Seq<char>>)
    ensures
        forall|k: int, i: int|
            0 <= k < es.len() && 0 <= i < names.len() && es[k].disabled && has_host(
                #[trigger] es[k],
                #[trigger] names[i],
            ) ==> enabled_on(enable_hostname_spec(es, names).0, es[k].ip, names[i]),
{
    let ms = merges(es, names);
    let kept = crate::edit::unmatched(es, names);
    let base = crate::edit::max_id(kept);
    let staged = kept + crate::edit::leftovers(es, names).map(
        |k: int, e: EntryView| EntryView { id: crate::edit::clamp(base + k + 1), ..e },
    );
    lemma_apply_merges(staged, ms);
    assert forall|k: int, i: int|
        0 <= k < es.len() && 0 <= i < names.len() && es[k].disabled && has_host(
            #[trigger] es[k],
            #[trigger] names[i],
        ) implies enabled_on(enable_hostname_spec(es, names).0, es[k].ip, names[i]) by {
        assert(names.contains(names[i]));
        lemma_merges_cover(es, names, k, names[i]);
        let j = choose|j: int| 0 <= j < ms.len() && ms[j] == (es[k].ip, names[i]);
        assert(enabled_on(apply_merges(staged, ms), ms[j].0, ms[j].1));
    }
}

/// Toggling a hostname that some enabled entry names, as canonical name or
/// as alias, disables it: the toggle reports it disabled and no enabled entry
/// names it afterwards. Toggling a hostname that no enabled entry names
/// enables it: the toggle reports it enabled and every disabled entry that
/// named it leaves it on an enabled entry of that entry's address.
pub proof fn lemma_toggle_hostname(es: Seq<EntryView>, h: Seq<char>)
    requires
        h.len() > 0,
    ensures
        (exists|k: int| 0 <= k < es.len() && !es[k].disabled && #[trigger] has_host(es[k], h))
            ==> {
            let r = toggle_host_spec(es, h);
            &&& r.1
            &&& forall|k: int| 0 <= k < r.0.len() && !r.0[k].disabled ==> !has_host(#[trigger] r.0[k], h)
        },
        !(exists|k: int| 0 <= k < es.len() && !es[k].disabled && #[trigger] has_host(es[k], h))
            ==> {
            let r = toggle_host_spec(es, h);
            &&& !r.1
            &&& forall|k: int|
                0 <= k < es.len() && es[k].disabled && #[trigger] has_host(es[k], h) ==> enabled_on(
                    r.0,
                    es[k].ip,
                    h,
                )
        },
{
    let n = seq![h];
    assert(n[0] == h);
    lemma_disable_hostnames(es, n);
    lemma_enable_hostnames(es, n);
    let r = toggle_host_spec(es, h);
    if exists|k: int| 0 <= k < es.len() && !es[k].disabled && #[trigger] has_host(es[k], h) {
        assert forall|k: int| 0 <= k < r.0.len() && !r.0[k].disabled implies !has_host(
            #[trigger] r.0[k],
            h,
        ) by {
            assert(!has_host(r.0[k], n[0]));
        }
    } else {
        assert forall|k: int| 0 <= k < es.len() && es[k].disabled && #[trigger] has_host(es[k], h)
            implies enabled_on(r.0, es[k].ip, h) by {
            assert(has_host(es[k], n[0]));
        }
    }
}

/// Merging hostnames back leaves every disabled entry where it was.
proof fn lemma_apply_merges_keeps_disabled(es: Seq<EntryView>, ms: Seq<(Seq<char>, Seq<char>)>)
    ensures
        apply_merges(es, ms).len() >= es.len(),
        forall|k: int|
            0 <= k < es.len() && (#[trigger] es[k]).disabled ==> apply_merges(es, ms)[k] == es[k],
    decreases ms.len(),
{
    if ms.len() > 0 {
        lemma_apply_merges_keeps_disabled(es, ms.drop_last());
        let prev = apply_merges(es, ms.drop_last());
        let m = ms.last();
        let t = find_enabled(prev, m.0, 0);
        lemma_find_enabled(prev, m.0, 0);
        assert forall|k: int| 0 <= k < es.len() && (#[trigger] es[k]).disabled implies apply_merges(
            es,
            ms,
        )[k] == es[k] by {
            assert(prev[k] == es[k]);
            if t < prev.len() {
                assert(k != t);
            }
        }
    }
}

/// The hostnames left out, of two lists one after the other.
proof fn lemma_without_append(a: Seq<Seq<char>>, b: Seq<Seq<char>>, names: Seq<Seq<char>>)
    ensures
        without(a + b, names) == without(a, names) + without(b, names),
    decreases b.len(),
{
    if b.len() == 0 {
        assert(a + b =~= a);
        assert(without(a, names) + without(b, names) =~= without(a, names));
    } else {
        assert((a + b).drop_last() =~= a + b.drop_last());
        assert((a + b).last() == b.last());
        lemma_without_append(a, b.drop_last(), names);
        assert(without(a + b, names) =~= without(a, names) + without(b, names));
    }
}

/// The hostnames that stay disabled when some of an entry's hostnames are
/// enabled are its unlisted ones, when its canonical name is not empty.
proof fn lemma_remaining_hosts(e: EntryView, names: Seq<Seq<char>>)
    requires
        e.canonical.len() > 0,
    ensures
        remaining_hosts(e, names) == without(hostnames(e), names),
        merge_hosts(e, names) == within(hostnames(e), names),
{
    lemma_without_append(seq![e.canonical], e.aliases, names);
    lemma_split_off(e, names);
    let one = seq![e.canonical];
    assert(one.drop_last() =~= Seq::<Seq<char>>::empty());
    assert(without(one.drop_last(), names) =~= Seq::<Seq<char>>::empty());
    if names.contains(e.canonical) {
        assert(without(one, names) =~= Seq::<Seq<char>>::empty());
        assert(without(one, names) + without(e.aliases, names) =~= without(e.aliases, names));
    } else {
        assert(without(one, names) =~= seq![e.canonical]);
    }
}

/// A matched entry that keeps hostnames has its leftover among the leftovers.
proof fn lemma_leftovers_has(es: Seq<EntryView>, names: Seq<Seq<char>>, i: int)
    requires
        0 <= i < es.len(),
        is_matched(es[i], names),
        remaining_hosts(es[i], names).len() > 0,
    ensures
        exists|j: int|
            0 <= j < leftovers(es, names).len() && #[trigger] leftovers(es, names)[j] == leftover(
                es[i],
                names,
            ),
    decreases es.len(),
{
    let p = leftovers(es.drop_last(), names);
    if i < es.len() - 1 {
        assert(es.drop_last()[i] == es[i]);
        lemma_leftovers_has(es.drop_last(), names, i);
        let j = choose|j: int| 0 <= j < p.len() && #[trigger] p[j] == leftover(es[i], names);
        assert(leftovers(es, names)[j] == p[j]);
    } else {
        assert(es.last() == es[i]);
        assert(leftovers(es, names)[p.len() as int] == leftover(es[i], names));
    }
}

/// Enabling some hostnames of a disabled entry keeps the others disabled: a
/// disabled entry of the same address, with the same comment, holds exactly
/// the entry's unlisted hostnames, in order.
pub proof fn lemma_enable_keeps_rest(es: Seq<EntryView>, names: Seq<Seq<char>>, i: int)
    requires
        0 <= i < es.len(),
        es[i].disabled,
        es[i].canonical.len() > 0,
        within(hostnames(es[i]), names).len() > 0,
        without(hostnames(es[i]), names).len() > 0,
    ensures
        exists|k: int|
            0 <= k < enable_hostname_spec(es, names).0.len() && #[trigger] enable_hostname_spec(
                es,
                names,
            ).0[k].disabled && enable_hostname_spec(es, names).0[k].ip == es[i].ip
                && enable_hostname_spec(es, names).0[k].comment == es[i].comment && hostnames(
                enable_hostname_spec(es, names).0[k],
            ) == without(hostnames(es[i]), names),
{
    let e = es[i];
    lemma_remaining_hosts(e, names);
    let rem = remaining_hosts(e, names);
    assert(is_matched(e, names));
    lemma_leftovers_has(es, names, i);
    let lo = leftovers(es, names);
    let j = choose|j: int| 0 <= j < lo.len() && #[trigger] lo[j] == leftover(e, names);
    let kept = unmatched(es, names);
    let base = max_id(kept);
    let staged = kept + lo.map(|k: int, x: EntryView| EntryView { id: clamp(base + k + 1), ..x });
    let ms = merges(es, names);
    let at = kept.len() + j;
    let s = staged[at];
    assert(s == EntryView { id: clamp(base + j + 1), ..leftover(e, names) });
    assert(s.disabled);
    lemma_apply_merges_keeps_disabled(staged, ms);
    let r = enable_hostname_spec(es, names).0;
    assert(r == apply_merges(staged, ms));
    assert(r[at] == s);
    assert(hostnames(s) =~= rem);
}

} // verus!
