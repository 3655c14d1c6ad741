//! Properties of the stored text: what a hosts file reads back as once edits
//! have been written to it and read again.
use crate::addr::is_ip_text;
use crate::edit::{
    apply_merge, apply_merges, disable_hostname_spec, disable_rest, disabled_copy,
    enable_hostname_spec, find_enabled, is_blank, is_matched, leftovers, max_id, merge_hosts, merges, nonblank,
    remaining_hosts, split_off_hosts, split_pairs, unmatched, within, without, count_ip_state,
    set_ip_state, clamp,
};
use crate::model::EntryView;
use crate::parser::parse_spec;
use crate::roundtrip::{
    hash_address, is_storable, lemma_parse_serialize_roundtrip, reloaded, stored_comment,
};
use crate::serializer::{comment_suffix, entry_text, hostnames, serialize_spec};
use vstd::prelude::*;

verus! {

/// The text once every entry of `ip` gets the disabled flag `d`; the text is
/// left alone when no entry of `ip` had the other flag.
pub open spec fn ip_state_text(content: Seq<char>, ip: Seq<char>, d: bool) -> Seq<char> {
    if count_ip_state(parse_spec(content), ip, !d) > 0 {
        serialize_spec(set_ip_state(parse_spec(content), ip, d))
    } else {
        content
    }
}

/// Two entries that agree in all but their id and raw line.
pub open spec fn same_fields(a: EntryView, b: EntryView) -> bool {
    &&& a.ip == b.ip
    &&& a.canonical == b.canonical
    &&& a.aliases == b.aliases
    &&& a.comment == b.comment
    &&& a.disabled == b.disabled
}

/// Two lists of entries that agree entry by entry in all but ids and raw lines.
pub open spec fn same_entries(a: Seq<EntryView>, b: Seq<EntryView>) -> bool {
    a.len() == b.len() && forall|k: int| 0 <= k < a.len() ==> same_fields(#[trigger] a[k], b[k])
}

/// Entries that read back the same once written: none has an empty comment
/// (which is not written), and none with the address `#` has a comment
/// (its line would read as a disabled line of another address).
pub open spec fn rewrites_same(es: Seq<EntryView>) -> bool {
    forall|k: int|
        0 <= k < es.len() ==> (#[trigger] es[k]).comment != Some(Seq::<char>::empty()) && !(
        es[k].ip == hash_address() && es[k].comment is Some)
}

/// Counting by address and flag looks only at addresses and flags.
proof fn lemma_count_same(a: Seq<EntryView>, b: Seq<EntryView>, ip: Seq<char>, d: bool)
    requires
        a.len() == b.len(),
        forall|k: int|
            0 <= k < a.len() ==> (#[trigger] a[k]).ip == b[k].ip && a[k].disabled == b[k].disabled,
    ensures
        count_ip_state(a, ip, d) == count_ip_state(b, ip, d),
    decreases a.len(),
{
    if a.len() > 0 {
        assert forall|k: int| 0 <= k < a.drop_last().len() implies (
        #[trigger] a.drop_last()[k]).ip == b.drop_last()[k].ip && a.drop_last()[k].disabled
            == b.drop_last()[k].disabled by {
            assert(a.drop_last()[k] == a[k] && b.drop_last()[k] == b[k]);
        }
        lemma_count_same(a.drop_last(), b.drop_last(), ip, d);
        assert(a.last() == a[a.len() - 1] && b.last() == b[b.len() - 1]);
    }
}

/// No entry of `ip` has flag `d` when none is counted.
proof fn lemma_none_counted(es: Seq<EntryView>, ip: Seq<char>, d: bool)
    requires
        count_ip_state(es, ip, d) == 0,
    ensures
        forall|k: int| 0 <= k < es.len() && #[trigger] es[k].ip == ip ==> es[k].disabled != d,
    decreases es.len(),
{
    if es.len() > 0 {
        lemma_none_counted(es.drop_last(), ip, d);
        assert forall|k: int| 0 <= k < es.len() && #[trigger] es[k].ip == ip implies es[k].disabled
            != d by {
            if k < es.len() - 1 {
                assert(es.drop_last()[k] == es[k]);
            }
        }
    }
}

/// The entries once all entries of an address have the flag `d` are
/// storable, when those of the address are storable as they were and the
/// address is an IP address.
proof fn lemma_set_storable(es: Seq<EntryView>, ip: Seq<char>, d: bool)
    requires
        is_ip_text(ip),
        forall|k: int| 0 <= k < es.len() ==> is_storable(#[trigger] es[k]),
    ensures
        forall|k: int|
            0 <= k < set_ip_state(es, ip, d).len() ==> is_storable(
                #[trigger] set_ip_state(es, ip, d)[k],
            ),
{
    assert forall|k: int| 0 <= k < set_ip_state(es, ip, d).len() implies is_storable(
        #[trigger] set_ip_state(es, ip, d)[k],
    ) by {
        let e = es[k];
        let s = set_ip_state(es, ip, d)[k];
        assert(hostnames(s) == hostnames(e));
        if e.ip == ip {
            crate::addr::lemma_ip_text_start(ip);
        }
    }
}

/// A storable entry reads back as a storable entry.
proof fn lemma_reloaded_storable(e: EntryView, id: nat)
    requires
        is_storable(e),
    ensures
        is_storable(reloaded(e, id)),
{
    assert(hostnames(reloaded(e, id)) == hostnames(e));
}

/// Disabling an address, writing the file, and enabling the address again
/// in what was written gives back a file that reads as the same entries (ids
/// and raw lines aside); enabling reports as many entries as disabling did.
/// This holds when no entry of the address was disabled before and, when
/// some entry of it is enabled (so that the file is written), the address is
/// an IP address and the entries read back the same once written.
pub proof fn lemma_disable_then_enable_ip_text(content: Seq<char>, ip: Seq<char>)
    requires
        count_ip_state(parse_spec(content), ip, true) == 0,
        count_ip_state(parse_spec(content), ip, false) > 0 ==> is_ip_text(ip) && rewrites_same(
            parse_spec(content),
        ),
    ensures
        count_ip_state(parse_spec(ip_state_text(content, ip, true)), ip, true) == count_ip_state(
            parse_spec(content),
            ip,
            false,
        ),
        same_entries(
            parse_spec(ip_state_text(ip_state_text(content, ip, true), ip, false)),
            parse_spec(content),
        ),
{
    let es = parse_spec(content);
    lemma_none_counted(es, ip, true);
    if count_ip_state(es, ip, false) == 0 {
        assert(ip_state_text(content, ip, true) == content);
        assert(ip_state_text(content, ip, false) == content);
    } else {
        let es1 = set_ip_state(es, ip, true);
        crate::parsed::lemma_parsed_readable(content);
        assert forall|k: int| 0 <= k < es.len() implies is_storable(#[trigger] es[k]) by {
            assert(crate::parsed::is_readable(es[k]));
        }
        lemma_set_storable(es, ip, true);
        lemma_parse_serialize_roundtrip(es1);
        let c1 = serialize_spec(es1);
        let p1 = parse_spec(c1);
        assert(ip_state_text(content, ip, true) == c1);
        assert(p1 == es1.map(|k: int, e: EntryView| reloaded(e, (k + 1) as nat)));
        lemma_count_same(p1, es1, ip, true);
        crate::laws::lemma_disable_then_enable_ip(es, ip);
        let es2 = set_ip_state(p1, ip, false);
        assert forall|k: int| 0 <= k < p1.len() implies is_storable(#[trigger] p1[k]) by {
            lemma_reloaded_storable(es1[k], (k + 1) as nat);
        }
        lemma_set_storable(p1, ip, false);
        lemma_parse_serialize_roundtrip(es2);
        let p2 = parse_spec(serialize_spec(es2));
        assert(ip_state_text(c1, ip, false) == serialize_spec(es2));
        assert(p2 == es2.map(|k: int, e: EntryView| reloaded(e, (k + 1) as nat)));
        assert forall|k: int| 0 <= k < p2.len() implies same_fields(#[trigger] p2[k], es[k]) by {
            assert(p2[k] == reloaded(es2[k], (k + 1) as nat));
            assert(p1[k] == reloaded(es1[k], (k + 1) as nat));
            assert(es[k].comment != Some(Seq::<char>::empty()));
            assert(es1.len() == es.len() && es2.len() == p1.len());
            let e = es[k];
            assert(es1[k] == if e.ip == ip {
                EntryView { disabled: true, ..e }
            } else {
                e
            });
            assert(es2[k] == if p1[k].ip == ip {
                EntryView { disabled: false, ..p1[k] }
            } else {
                p1[k]
            });
            if let Some(t) = e.comment {
                if t.len() == 0 {
                    assert(t =~= Seq::<char>::empty());
                }
            }
            assert(stored_comment(stored_comment(e.comment)) == e.comment);
            if e.ip == ip {
                assert(!e.disabled);
            }
        }
    }
}

/// Hostnames none of which is listed: none is kept back and all stay.
proof fn lemma_none_listed(hs: Seq<Seq<char>>, names: Seq<Seq<char>>)
    requires
        forall|k: int| 0 <= k < hs.len() ==> !names.contains(#[trigger] hs[k]),
    ensures
        within(hs, names) == Seq::<Seq<char>>::empty(),
        without(hs, names) == hs,
    decreases hs.len(),
{
    if hs.len() > 0 {
        assert forall|k: int| 0 <= k < hs.drop_last().len() implies !names.contains(
            #[trigger] hs.drop_last()[k],
        ) by {
            assert(hs.drop_last()[k] == hs[k]);
        }
        lemma_none_listed(hs.drop_last(), names);
        assert(!names.contains(hs[hs.len() - 1]));
        assert(hs.drop_last().push(hs.last()) =~= hs);
    }
}

/// The text of a file of one entry.
proof fn lemma_serialize_one(e: EntryView)
    ensures
        serialize_spec(seq![e]) == entry_text(e) + seq!['\n'],
{
    assert(seq![e].drop_first() =~= Seq::<EntryView>::empty());
    assert(seq![e][0] == e);
    assert(serialize_spec(Seq::<EntryView>::empty()) == Seq::<char>::empty());
    assert(entry_text(e) + seq!['\n'] + Seq::<char>::empty() =~= entry_text(e) + seq!['\n']);
}

/// Disabling one hostname of a line and then enabling it again gives back
/// the line as it was written: the hostname, split off onto a disabled line
/// of its own, is merged back at the end of its line. Each step reports one
/// hostname. This holds for an enabled entry whose line is written back as
/// it was read, whose address is an IP address, and whose last alias is the
/// hostname, named nowhere else on the line.
pub proof fn lemma_disable_then_enable_name(e: EntryView, h: Seq<char>)
    requires
        is_storable(e),
        is_ip_text(e.ip),
        !e.disabled,
        e.aliases.len() > 0,
        e.aliases.last() == h,
        e.canonical != h,
        !e.aliases.drop_last().contains(h),
    ensures
        ({
            let f = serialize_spec(seq![e]);
            let d = disable_hostname_spec(parse_spec(f), seq![h]);
            let g = enable_hostname_spec(parse_spec(serialize_spec(d.0)), seq![h]);
            &&& d.1 == 1
            &&& g.1 == 1
            &&& serialize_spec(g.0) == f
        }),
{
    let n = seq![h];
    let a = e.aliases;
    let a1 = a.drop_last();
    assert(n[0] == h);
    assert(n.contains(h));
    assert(!n.contains(e.canonical));
    assert forall|k: int| 0 <= k < a1.len() implies !n.contains(#[trigger] a1[k]) by {
        if n.contains(a1[k]) {
            assert(a1[k] == h);
            assert(a1.contains(h));
        }
    }
    lemma_none_listed(a1, n);
    assert(a1.push(h) =~= a);
    assert(a.drop_last() == a1);
    assert(within(a, n) == seq![h]);
    assert(without(a, n) == a1);
    // The file reads as one entry.
    let f = serialize_spec(seq![e]);
    lemma_parse_serialize_roundtrip(seq![e]);
    let p0 = parse_spec(f);
    let r = reloaded(e, 1);
    assert(p0 =~= seq![r]);
    // Disabling splits `h` off.
    let rest = disable_rest(r, n);
    assert(split_off_hosts(r, n) == seq![h]);
    assert(rest == EntryView { aliases: a1, ..r });
    assert(!is_blank(rest));
    let mapped = p0.map_values(|x: EntryView| disable_rest(x, n));
    assert(mapped =~= seq![rest]);
    assert(mapped.drop_last() =~= Seq::<EntryView>::empty());
    assert(mapped.last() == rest);
    assert(nonblank(Seq::<EntryView>::empty()) == Seq::<EntryView>::empty());
    assert(Seq::<EntryView>::empty().push(rest) =~= seq![rest]);
    assert(nonblank(mapped) =~= seq![rest]);
    assert(p0.drop_last() =~= Seq::<EntryView>::empty());
    assert(p0.last() == r);
    assert(split_pairs(p0.drop_last(), n) == Seq::<(EntryView, Seq<char>)>::empty());
    assert(seq![h].map_values(|x: Seq<char>| (r, x)) =~= seq![(r, h)]);
    assert(split_pairs(p0, n) =~= seq![(r, h)]);
    assert(max_id(p0.drop_last()) == 0);
    assert(r.id == 1);
    assert(max_id(p0) == 1);
    let dcopy = disabled_copy(r, h, clamp(2));
    let d = disable_hostname_spec(p0, n);
    assert(d.0 =~= seq![rest, dcopy]);
    assert(d.1 == 1);
    // What disabling wrote reads as the remaining line and the disabled one.
    assert(hostnames(rest) =~= seq![e.canonical] + a1);
    let he = hostnames(e);
    let hr = hostnames(rest);
    assert forall|k: int| 0 <= k < hr.len() implies #[trigger] hr[k] == he[k] by {}
    assert forall|k: int| 0 <= k < hr.len() implies crate::roundtrip::is_word(#[trigger] hr[k]) by {
        assert(hr[k] == he[k]);
    }
    assert forall|k: int, j: int|
        0 <= k < hr.len() && 0 <= j < hr[k].len() && (k > 0 || j > 0) implies #[trigger] hr[k][j]
        != '#' by {
        assert(hr[k] == he[k]);
        assert(he[k][j] != '#');
    }
    let hd = hostnames(dcopy);
    assert(hd =~= seq![h]);
    assert(hd[0] == he[he.len() - 1]);
    assert(crate::roundtrip::is_word(he[he.len() - 1]));
    assert forall|k: int, j: int| 0 <= k < hd.len() && 0 <= j < hd[k].len() implies #[trigger] hd[k][j]
        != '#' by {
        assert(hd[k] == he[he.len() - 1]);
        assert(he[he.len() - 1][j] != '#');
    }
    assert(is_storable(rest));
    assert(is_storable(dcopy));
    lemma_parse_serialize_roundtrip(d.0);
    let p1 = parse_spec(serialize_spec(d.0));
    let r1 = reloaded(rest, 1);
    let r2 = reloaded(dcopy, 2);
    assert(p1 =~= seq![r1, r2]);
    // Enabling merges `h` back at the end of the remaining line.
    assert(merge_hosts(r2, n) =~= seq![h]);
    assert(remaining_hosts(r2, n) =~= Seq::<Seq<char>>::empty());
    assert(merge_hosts(r1, n) =~= Seq::<Seq<char>>::empty());
    assert(p1.drop_last() =~= seq![r1]);
    assert(seq![r1].drop_last() =~= Seq::<EntryView>::empty());
    assert(p1.last() == r2);
    assert(seq![r1].last() == r1);
    assert(r2.disabled && is_matched(r2, n));
    assert(!r1.disabled && !is_matched(r1, n));
    assert(unmatched(Seq::<EntryView>::empty(), n) == Seq::<EntryView>::empty());
    assert(Seq::<EntryView>::empty().push(r1) =~= seq![r1]);
    assert(unmatched(seq![r1], n) =~= seq![r1]);
    assert(unmatched(p1, n) =~= seq![r1]);
    assert(seq![r1].drop_last() =~= Seq::<EntryView>::empty());
    assert(leftovers(Seq::<EntryView>::empty(), n) == Seq::<EntryView>::empty());
    assert(merges(Seq::<EntryView>::empty(), n) == Seq::<(Seq<char>, Seq<char>)>::empty());
    assert(leftovers(seq![r1], n) =~= Seq::<EntryView>::empty());
    assert(leftovers(p1, n) =~= Seq::<EntryView>::empty());
    assert(merges(seq![r1], n) =~= Seq::<(Seq<char>, Seq<char>)>::empty());
    assert(merges(p1, n) =~= seq![(e.ip, h)]);
    let g = enable_hostname_spec(p1, n);
    let staged = unmatched(p1, n) + leftovers(p1, n).map(
        |k: int, x: EntryView| EntryView { id: clamp(max_id(unmatched(p1, n)) + k + 1), ..x },
    );
    assert(staged =~= seq![r1]);
    assert(find_enabled(staged, e.ip, 0) == 0);
    let merged = EntryView { aliases: a1.push(h), ..r1 };
    assert(apply_merge(staged, (e.ip, h)) =~= seq![merged]);
    assert(merges(p1, n).drop_last() =~= Seq::<(Seq<char>, Seq<char>)>::empty());
    assert(merges(p1, n).last() == (e.ip, h));
    assert(apply_merges(staged, merges(p1, n).drop_last()) == staged);
    assert(apply_merges(staged, merges(p1, n)) == apply_merge(staged, (e.ip, h)));
    assert(g.0 =~= seq![merged]);
    assert(g.1 == 1);
    // The merged line is the line as first written.
    assert(hostnames(merged) =~= hostnames(e));
    assert(comment_suffix(merged.comment) == comment_suffix(e.comment));
    assert(entry_text(merged) == entry_text(e));
    lemma_serialize_one(merged);
    lemma_serialize_one(e);
}

} // verus!
