//! Edits on the entries of a hosts file: what each command does to them.
use crate::model::{clone_entry, clone_opt, Entry, EntryView};
use vstd::prelude::*;

verus! {

/// The values of a list of strings.
pub open spec fn strs(v: Seq<String>) -> Seq<Seq<char>> {
    v.map_values(|s: String| s@)
}

/// The values of a list of entries.
pub open spec fn entry_views(v: Seq<Entry>) -> Seq<EntryView> {
    v.map_values(|e: Entry| e@)
}

/// Whether an entry names the hostname, as canonical name or as alias.
pub open spec fn has_host(e: EntryView, h: Seq<char>) -> bool {
    e.canonical == h || e.aliases.contains(h)
}

/// How many hostnames an entry holds (an empty canonical name counts for none).
pub open spec fn host_count(e: EntryView) -> nat {
    (if e.canonical.len() == 0 {
        0nat
    } else {
        1nat
    }) + e.aliases.len()
}

/// An entry without any hostname.
pub open spec fn is_blank(e: EntryView) -> bool {
    e.canonical.len() == 0 && e.aliases.len() == 0
}

/// The entries that hold a hostname, in order.
pub open spec fn nonblank(es: Seq<EntryView>) -> Seq<EntryView>
    decreases es.len(),
{
    if es.len() == 0 {
        Seq::empty()
    } else if is_blank(es.last()) {
        nonblank(es.drop_last())
    } else {
        nonblank(es.drop_last()).push(es.last())
    }
}

/// The hostnames that are not among `names`, in order.
pub open spec fn without(hs: Seq<Seq<char>>, names: Seq<Seq<char>>) -> Seq<Seq<char>>
    decreases hs.len(),
{
    if hs.len() == 0 {
        Seq::empty()
    } else if names.contains(hs.last()) {
        without(hs.drop_last(), names)
    } else {
        without(hs.drop_last(), names).push(hs.last())
    }
}

/// The hostnames that are among `names`, in order.
pub open spec fn within(hs: Seq<Seq<char>>, names: Seq<Seq<char>>) -> Seq<Seq<char>>
    decreases hs.len(),
{
    if hs.len() == 0 {
        Seq::empty()
    } else if names.contains(hs.last()) {
        within(hs.drop_last(), names).push(hs.last())
    } else {
        within(hs.drop_last(), names)
    }
}

/// The entry once its canonical name is gone: the first alias takes its
/// place, or the canonical name becomes empty when there is no alias.
pub open spec fn drop_canonical(e: EntryView) -> EntryView {
    if e.aliases.len() > 0 {
        EntryView { canonical: e.aliases[0], aliases: e.aliases.drop_first(), ..e }
    } else {
        EntryView { canonical: Seq::empty(), ..e }
    }
}

/// A count as a `usize` holds it: values past `usize::MAX` stop there.
pub open spec fn clamp(n: int) -> nat {
    if n <= usize::MAX {
        n as nat
    } else {
        usize::MAX as nat
    }
}

/// Adds two counts, stopping at `usize::MAX`.
pub fn sat_add(a: usize, b: usize) -> (r: usize)
    ensures
        r == clamp(a + b),
{
    if a <= usize::MAX - b {
        a + b
    } else {
        usize::MAX
    }
}

/// Adding to a clamped count clamps the sum.
pub proof fn lemma_clamp_add(a: int, b: int)
    requires
        a >= 0,
        b >= 0,
    ensures
        clamp(clamp(a) + b) == clamp(a + b),
{
}

/// Tests whether a list of strings holds `s`.
pub fn contains_str(v: &[String], s: &String) -> (b: bool)
    ensures
        b == strs(v@).contains(s@),
{
    let mut i: usize = 0;
    while i < v.len()
        invariant
            i <= v.len(),
            forall|k: int| 0 <= k < i ==> #[trigger] v@[k]@ != s@,
        decreases v.len() - i,
    {
        if v[i] == *s {
            assert(strs(v@)[i as int] == s@);
            return true;
        }
        i += 1;
    }
    assert forall|k: int| 0 <= k < strs(v@).len() implies #[trigger] strs(v@)[k] != s@ by {
        assert(strs(v@)[k] == v@[k]@);
    }
    false
}

/// Whether an entry names the hostname.
pub fn entry_has_host(e: &Entry, h: &String) -> (b: bool)
    ensures
        b == has_host(e@, h@),
{
    let in_aliases = contains_str(e.aliases.as_slice(), h);
    assert(strs(e.aliases@) =~= e.aliases.deep_view());
    e.canonical == *h || in_aliases
}

/// The hostnames of `hs` that are not among `names`.
pub fn strings_without(hs: &Vec<String>, names: &[String]) -> (r: Vec<String>)
    ensures
        r.deep_view() == without(hs.deep_view(), strs(names@)),
{
    let ghost hv = hs.deep_view();
    let mut r: Vec<String> = Vec::new();
    for i in 0..hs.len()
        invariant
            hv == hs.deep_view(),
            r.deep_view() == without(hv.take(i as int), strs(names@)),
    {
        assert(hv.take(i + 1).drop_last() =~= hv.take(i as int));
        assert(hv.take(i + 1).last() == hs@[i as int]@);
        if !contains_str(names, &hs[i]) {
            let ghost prev = r.deep_view();
            r.push(hs[i].clone());
            assert(r.deep_view() =~= prev.push(hs@[i as int]@));
        }
    }
    assert(hv.take(hs.len() as int) =~= hv);
    r
}

/// The hostnames of `hs` that are among `names`.
pub fn strings_within(hs: &Vec<String>, names: &[String]) -> (r: Vec<String>)
    ensures
        r.deep_view() == within(hs.deep_view(), strs(names@)),
{
    let ghost hv = hs.deep_view();
    let mut r: Vec<String> = Vec::new();
    for i in 0..hs.len()
        invariant
            hv == hs.deep_view(),
            r.deep_view() == within(hv.take(i as int), strs(names@)),
    {
        assert(hv.take(i + 1).drop_last() =~= hv.take(i as int));
        assert(hv.take(i + 1).last() == hs@[i as int]@);
        if contains_str(names, &hs[i]) {
            let ghost prev = r.deep_view();
            r.push(hs[i].clone());
            assert(r.deep_view() =~= prev.push(hs@[i as int]@));
        }
    }
    assert(hv.take(hs.len() as int) =~= hv);
    r
}

/// `without` keeps at most the hostnames it was given.
pub proof fn lemma_without_len(hs: Seq<Seq<char>>, names: Seq<Seq<char>>)
    ensures
        without(hs, names).len() + within(hs, names).len() == hs.len(),
    decreases hs.len(),
{
    if hs.len() > 0 {
        lemma_without_len(hs.drop_last(), names);
    }
}

/// Keeps the entries that hold a hostname.
pub fn keep_nonblank(entries: Vec<Entry>) -> (r: Vec<Entry>)
    ensures
        r.deep_view() == nonblank(entries.deep_view()),
{
    let ghost ev = entries.deep_view();
    let mut r: Vec<Entry> = Vec::new();
    for i in 0..entries.len()
        invariant
            ev == entries.deep_view(),
            r.deep_view() == nonblank(ev.take(i as int)),
    {
        assert(ev.take(i + 1).drop_last() =~= ev.take(i as int));
        assert(ev.take(i + 1).last() == entries@[i as int]@);
        let e = &entries[i];
        if !(e.canonical.as_str().is_empty() && e.aliases.len() == 0) {
            let ghost prev = r.deep_view();
            r.push(clone_entry(e));
            assert(r.deep_view() =~= prev.push(entries@[i as int]@));
        }
    }
    assert(ev.take(entries.len() as int) =~= ev);
    r
}

/// The entry without its canonical name (`drop_canonical`).
pub fn entry_without_canonical(e: &Entry) -> (r: Entry)
    ensures
        r@ == drop_canonical(e@),
{
    let mut r = clone_entry(e);
    if r.aliases.len() > 0 {
        let ghost all = r.aliases.deep_view();
        r.canonical = r.aliases.remove(0);
        assert(r.aliases.deep_view() =~= all.drop_first());
    } else {
        r.canonical = String::new();
    }
    r
}

/// The entry with the given hostnames: the first becomes its canonical name
/// and the rest its aliases; with none, it holds no hostname.
pub open spec fn with_names(e: EntryView, hs: Seq<Seq<char>>) -> EntryView {
    if hs.len() > 0 {
        EntryView { canonical: hs[0], aliases: hs.drop_first(), ..e }
    } else {
        EntryView { canonical: Seq::empty(), aliases: Seq::empty(), ..e }
    }
}

/// The entry with the given hostnames (`with_names`).
pub fn entry_with_names(e: &Entry, hs: Vec<String>) -> (r: Entry)
    ensures
        r@ == with_names(e@, hs.deep_view()),
{
    let ghost all = hs.deep_view();
    let mut hs = hs;
    let nonempty = hs.len() > 0;
    let c = if nonempty {
        hs.remove(0)
    } else {
        String::new()
    };
    if nonempty {
        assert(hs.deep_view() =~= all.drop_first());
    } else {
        assert(hs.deep_view() =~= Seq::<Seq<char>>::empty());
    }
    Entry {
        id: e.id,
        ip: e.ip.clone(),
        canonical: c,
        aliases: hs,
        comment: clone_opt(&e.comment),
        disabled: e.disabled,
        raw: clone_opt(&e.raw),
    }
}

/// The entry once the `names` are removed from it: every listed hostname
/// goes; when its canonical name goes, the first hostname left takes its place.
pub open spec fn strip_names(e: EntryView, names: Seq<Seq<char>>) -> EntryView {
    if e.canonical.len() > 0 && names.contains(e.canonical) {
        with_names(e, without(e.aliases, names))
    } else {
        EntryView { aliases: without(e.aliases, names), ..e }
    }
}

/// How many hostnames removing `names` takes from an entry.
pub open spec fn removed_hosts(e: EntryView, names: Seq<Seq<char>>) -> nat {
    (host_count(e) - host_count(strip_names(e, names))) as nat
}

/// How many hostnames removing `names` takes from all entries.
pub open spec fn removed_total(es: Seq<EntryView>, names: Seq<Seq<char>>) -> nat
    decreases es.len(),
{
    if es.len() == 0 {
        0
    } else {
        removed_total(es.drop_last(), names) + removed_hosts(es.last(), names)
    }
}

/// The entries once the `names` are removed: entries left without a hostname
/// are dropped.
pub open spec fn remove_hostnames_spec(es: Seq<EntryView>, names: Seq<Seq<char>>) -> Seq<
    EntryView,
> {
    nonblank(es.map_values(|e: EntryView| strip_names(e, names)))
}

/// Removes the `names` from one entry; also returns how many went (clamped).
pub fn strip_entry_names(e: &Entry, names: &[String]) -> (r: (Entry, usize))
    ensures
        r.0@ == strip_names(e@, strs(names@)),
        host_count(strip_names(e@, strs(names@))) <= host_count(e@),
        r.1 == clamp(removed_hosts(e@, strs(names@)) as int),
{
    let ghost nv = strs(names@);
    let n = e.aliases.len();
    let w = strings_without(&e.aliases, names);
    proof {
        lemma_without_len(e.aliases.deep_view(), nv);
    }
    let had_canonical = !e.canonical.as_str().is_empty();
    let r = if had_canonical && contains_str(names, &e.canonical) {
        entry_with_names(e, w)
    } else {
        Entry {
            id: e.id,
            ip: e.ip.clone(),
            canonical: e.canonical.clone(),
            aliases: w,
            comment: clone_opt(&e.comment),
            disabled: e.disabled,
            raw: clone_opt(&e.raw),
        }
    };
    assert(r@.aliases.len() <= n);
    assert(r.aliases@.len() == r@.aliases.len());
    let kept_canonical = !r.canonical.as_str().is_empty();
    let gone = n - r.aliases.len();
    let diff = if had_canonical && !kept_canonical {
        sat_add(gone, 1)
    } else if !had_canonical && kept_canonical {
        gone - 1
    } else {
        gone
    };
    (r, diff)
}

/// Removes hostnames from all entries; returns the entries and how many
/// hostnames went (clamped to `usize::MAX`).
pub fn remove_hostnames_in(entries: &Vec<Entry>, names: &[String]) -> (r: (Vec<Entry>, usize))
    ensures
        r.0.deep_view() == remove_hostnames_spec(entries.deep_view(), strs(names@)),
        r.1 == clamp(removed_total(entries.deep_view(), strs(names@)) as int),
{
    let ghost ev = entries.deep_view();
    let ghost nv = strs(names@);
    let mut stripped: Vec<Entry> = Vec::new();
    let mut removed: usize = 0;
    for i in 0..entries.len()
        invariant
            ev == entries.deep_view(),
            nv == strs(names@),
            stripped@.len() == i,
            forall|k: int| 0 <= k < i ==> #[trigger] stripped@[k]@ == strip_names(ev[k], nv),
            removed == clamp(removed_total(ev.take(i as int), nv) as int),
    {
        assert(ev.take(i + 1).drop_last() =~= ev.take(i as int));
        assert(ev.take(i + 1).last() == entries@[i as int]@);
        let (e, d) = strip_entry_names(&entries[i], names);
        proof {
            lemma_clamp_add(
                removed_total(ev.take(i as int), nv) as int,
                removed_hosts(ev[i as int], nv) as int,
            );
        }
        removed = sat_add(removed, d);
        stripped.push(e);
    }
    assert(ev.take(entries.len() as int) =~= ev);
    assert(stripped.deep_view() =~= ev.map_values(|e: EntryView| strip_names(e, nv)));
    (keep_nonblank(stripped), removed)
}

/// The entries whose address is not `ip`.
pub open spec fn other_ips(es: Seq<EntryView>, ip: Seq<char>) -> Seq<EntryView>
    decreases es.len(),
{
    if es.len() == 0 {
        Seq::empty()
    } else if es.last().ip == ip {
        other_ips(es.drop_last(), ip)
    } else {
        other_ips(es.drop_last(), ip).push(es.last())
    }
}

/// Dropping the entries of an address keeps at most the entries given.
pub proof fn lemma_other_ips_len(es: Seq<EntryView>, ip: Seq<char>)
    ensures
        other_ips(es, ip).len() <= es.len(),
    decreases es.len(),
{
    if es.len() > 0 {
        lemma_other_ips_len(es.drop_last(), ip);
    }
}

/// Drops the entries of one address.
pub fn remove_ip_in(entries: &Vec<Entry>, ip: &String) -> (r: Vec<Entry>)
    ensures
        r.deep_view() == other_ips(entries.deep_view(), ip@),
{
    let ghost ev = entries.deep_view();
    let mut r: Vec<Entry> = Vec::new();
    for i in 0..entries.len()
        invariant
            ev == entries.deep_view(),
            r.deep_view() == other_ips(ev.take(i as int), ip@),
    {
        assert(ev.take(i + 1).drop_last() =~= ev.take(i as int));
        assert(ev.take(i + 1).last() == entries@[i as int]@);
        if entries[i].ip != *ip {
            let ghost prev = r.deep_view();
            r.push(clone_entry(&entries[i]));
            assert(r.deep_view() =~= prev.push(entries@[i as int]@));
        }
    }
    assert(ev.take(entries.len() as int) =~= ev);
    r
}

/// How many entries of address `ip` have the given disabled flag.
pub open spec fn count_ip_state(es: Seq<EntryView>, ip: Seq<char>, disabled: bool) -> nat
    decreases es.len(),
{
    if es.len() == 0 {
        0
    } else {
        count_ip_state(es.drop_last(), ip, disabled) + if es.last().ip == ip
            && es.last().disabled == disabled {
            1nat
        } else {
            0nat
        }
    }
}

/// No more entries are counted than there are.
pub proof fn lemma_count_ip_state_len(es: Seq<EntryView>, ip: Seq<char>, disabled: bool)
    ensures
        count_ip_state(es, ip, disabled) <= es.len(),
    decreases es.len(),
{
    if es.len() > 0 {
        lemma_count_ip_state_len(es.drop_last(), ip, disabled);
    }
}

/// Every entry of address `ip` gets the given disabled flag.
pub open spec fn set_ip_state(es: Seq<EntryView>, ip: Seq<char>, disabled: bool) -> Seq<
    EntryView,
> {
    es.map_values(
        |e: EntryView|
            if e.ip == ip {
                EntryView { disabled, ..e }
            } else {
                e
            },
    )
}

/// Sets the disabled flag of every entry of one address; returns how many
/// entries changed.
pub fn set_ip_state_in(entries: &mut Vec<Entry>, ip: &String, disabled: bool) -> (count: usize)
    ensures
        final(entries).deep_view() == set_ip_state(old(entries).deep_view(), ip@, disabled),
        count == count_ip_state(old(entries).deep_view(), ip@, !disabled),
{
    let ghost ev = entries.deep_view();
    let mut count: usize = 0;
    let n = entries.len();
    for i in 0..n
        invariant
            n == ev.len(),
            entries@.len() == n,
            forall|k: int|
                0 <= k < i ==> #[trigger] entries@[k]@ == set_ip_state(ev, ip@, disabled)[k],
            forall|k: int| i <= k < n ==> #[trigger] entries@[k]@ == ev[k],
            count == count_ip_state(ev.take(i as int), ip@, !disabled),
            count <= i,
    {
        assert(ev.take(i + 1).drop_last() =~= ev.take(i as int));
        assert(ev.take(i + 1).last() == ev[i as int]);
        assert(entries@[i as int]@ == ev[i as int]);
        if entries[i].ip == *ip && entries[i].disabled != disabled {
            let mut e = clone_entry(&entries[i]);
            e.disabled = disabled;
            entries.set(i, e);
            count += 1;
        }
    }
    assert(entries.deep_view() =~= set_ip_state(ev, ip@, disabled));
    assert(ev.take(n as int) =~= ev);
    count
}

/// The largest id among the entries (0 for none).
pub open spec fn max_id(es: Seq<EntryView>) -> nat
    decreases es.len(),
{
    if es.len() == 0 {
        0
    } else {
        let m = max_id(es.drop_last());
        if es.last().id > m {
            es.last().id
        } else {
            m
        }
    }
}

/// The id a new entry gets: one past the largest (stopping at `usize::MAX`).
pub open spec fn next_id(es: Seq<EntryView>) -> nat {
    clamp(max_id(es) + 1int)
}

/// Returns `max_id` of the entries.
pub fn max_id_of(entries: &Vec<Entry>) -> (m: usize)
    ensures
        m == max_id(entries.deep_view()),
{
    let ghost ev = entries.deep_view();
    let mut m: usize = 0;
    for i in 0..entries.len()
        invariant
            ev == entries.deep_view(),
            m == max_id(ev.take(i as int)),
    {
        assert(ev.take(i + 1).drop_last() =~= ev.take(i as int));
        assert(ev.take(i + 1).last() == entries@[i as int]@);
        if entries[i].id > m {
            m = entries[i].id;
        }
    }
    assert(ev.take(entries.len() as int) =~= ev);
    m
}

/// Returns `next_id` of the entries.
pub fn next_id_of(entries: &Vec<Entry>) -> (id: usize)
    ensures
        id == next_id(entries.deep_view()),
{
    sat_add(max_id_of(entries), 1)
}

/// Index of the first entry at or after `i` with address `ip`, or `es.len()`.
pub open spec fn find_ip(es: Seq<EntryView>, ip: Seq<char>, i: int) -> int
    decreases es.len() - i,
{
    if i < 0 || i >= es.len() {
        es.len() as int
    } else if es[i].ip == ip {
        i
    } else {
        find_ip(es, ip, i + 1)
    }
}

/// `find_ip` finds the first entry of the address at or after `i`, or none.
pub proof fn lemma_find_ip(es: Seq<EntryView>, ip: Seq<char>, i: int)
    requires
        0 <= i <= es.len(),
    ensures
        i <= find_ip(es, ip, i) <= es.len(),
        find_ip(es, ip, i) < es.len() ==> es[find_ip(es, ip, i)].ip == ip,
        forall|k: int| i <= k < find_ip(es, ip, i) ==> #[trigger] es[k].ip != ip,
    decreases es.len() - i,
{
    if i < es.len() && es[i].ip != ip {
        lemma_find_ip(es, ip, i + 1);
    }
}

/// Returns `find_ip(es, ip, 0)`.
pub fn find_ip_of(entries: &Vec<Entry>, ip: &String) -> (t: usize)
    ensures
        t == find_ip(entries.deep_view(), ip@, 0),
        t <= entries.len(),
{
    let ghost ev = entries.deep_view();
    let mut t: usize = 0;
    while t < entries.len() && entries[t].ip != *ip
        invariant
            ev == entries.deep_view(),
            t <= entries.len(),
            find_ip(ev, ip@, t as int) == find_ip(ev, ip@, 0),
        decreases entries.len() - t,
    {
        assert(ev[t as int] == entries@[t as int]@);
        t += 1;
    }
    if t < entries.len() {
        assert(ev[t as int] == entries@[t as int]@);
    }
    t
}

/// The entry with `h` among its hostnames (added last, unless it is already there).
pub open spec fn add_host(e: EntryView, h: Seq<char>) -> EntryView {
    if e.canonical != h && !e.aliases.contains(h) {
        EntryView { aliases: e.aliases.push(h), ..e }
    } else {
        e
    }
}

/// Adds `h` to an entry's aliases unless the entry already names it.
pub fn add_host_to(e: &mut Entry, h: &String)
    ensures
        final(e)@ == add_host(old(e)@, h@),
{
    let in_aliases = contains_str(e.aliases.as_slice(), h);
    assert(strs(e.aliases@) =~= e.aliases.deep_view());
    if e.canonical != *h && !in_aliases {
        let ghost prev = e.aliases.deep_view();
        e.aliases.push(h.clone());
        assert(e.aliases.deep_view() =~= prev.push(h@));
    }
}

/// The entry once `h` leaves it: as canonical name it gives way to the first
/// alias, and as alias it is dropped.
pub open spec fn strip_host(e: EntryView, h: Seq<char>) -> EntryView {
    let e1 = if e.canonical == h {
        drop_canonical(e)
    } else {
        e
    };
    EntryView { aliases: without(e1.aliases, seq![h]), ..e1 }
}

/// How many entries name `h`.
pub open spec fn count_with_host(es: Seq<EntryView>, h: Seq<char>) -> nat
    decreases es.len(),
{
    if es.len() == 0 {
        0
    } else {
        count_with_host(es.drop_last(), h) + if has_host(es.last(), h) {
            1nat
        } else {
            0nat
        }
    }
}

/// Whether every entry that names `h` is disabled.
pub open spec fn all_with_host_disabled(es: Seq<EntryView>, h: Seq<char>) -> bool {
    forall|k: int| 0 <= k < es.len() && has_host(es[k], h) ==> #[trigger] es[k].disabled
}

/// The first comment among the entries that name `h`.
pub open spec fn first_comment(es: Seq<EntryView>, h: Seq<char>) -> Option<Seq<char>>
    decreases es.len(),
{
    if es.len() == 0 {
        None
    } else if has_host(es[0], h) && es[0].comment is Some {
        es[0].comment
    } else {
        first_comment(es.drop_first(), h)
    }
}

/// The entries once `h` moves to address `new_ip`, and how many entries it
/// left. Nothing changes when no entry names `h`. Otherwise `h` leaves every
/// entry (entries left without hostnames go), then joins the first entry of
/// `new_ip` (which becomes disabled when every entry `h` left was), or a new
/// entry of `new_ip` that takes the first comment found and the common
/// disabled state.
pub open spec fn move_hostname_spec(es: Seq<EntryView>, h: Seq<char>, new_ip: Seq<char>) -> (
    Seq<EntryView>,
    nat,
) {
    let moved = count_with_host(es, h);
    if moved == 0 {
        (es, 0)
    } else {
        let kept = nonblank(es.map_values(|e: EntryView| strip_host(e, h)));
        let t = find_ip(kept, new_ip, 0);
        let all_disabled = all_with_host_disabled(es, h);
        (
            if t < kept.len() {
                let e2 = add_host(kept[t], h);
                kept.update(
                    t,
                    if all_disabled {
                        EntryView { disabled: true, ..e2 }
                    } else {
                        e2
                    },
                )
            } else {
                kept.push(
                    EntryView {
                        id: next_id(kept),
                        ip: new_ip,
                        canonical: h,
                        aliases: Seq::empty(),
                        comment: first_comment(es, h),
                        disabled: all_disabled,
                        raw: None,
                    },
                )
            },
            moved,
        )
    }
}

/// The first comment among the entries from `i` on, one entry at a time.
pub proof fn lemma_first_comment_step(es: Seq<EntryView>, h: Seq<char>, i: int)
    requires
        0 <= i < es.len(),
    ensures
        first_comment(es.subrange(i, es.len() as int), h) == if has_host(es[i], h)
            && es[i].comment is Some {
            es[i].comment
        } else {
            first_comment(es.subrange(i + 1, es.len() as int), h)
        },
{
    assert(es.subrange(i, es.len() as int).drop_first() =~= es.subrange(i + 1, es.len() as int));
    assert(es.subrange(i, es.len() as int)[0] == es[i]);
}

/// Whether the entries naming `h` are all disabled, one entry at a time.
pub proof fn lemma_all_with_host_disabled_step(es: Seq<EntryView>, h: Seq<char>, i: int)
    requires
        0 <= i < es.len(),
    ensures
        all_with_host_disabled(es.take(i + 1), h) == (all_with_host_disabled(es.take(i), h) && (
        has_host(es[i], h) ==> es[i].disabled)),
{
    let a = es.take(i);
    let b = es.take(i + 1);
    if all_with_host_disabled(a, h) && (has_host(es[i], h) ==> es[i].disabled) {
        assert forall|k: int| 0 <= k < b.len() && has_host(b[k], h) implies #[trigger] b[k].disabled by {
            if k < i {
                assert(b[k] == a[k]);
            }
        }
    }
    if all_with_host_disabled(b, h) {
        assert forall|k: int| 0 <= k < a.len() && has_host(a[k], h) implies #[trigger] a[k].disabled by {
            assert(b[k] == a[k]);
        }
        assert(b[i] == es[i]);
    }
}

/// Moves `h` to address `new_ip`; returns the entries and how many entries it left.
pub fn move_hostname_in(entries: &Vec<Entry>, h: &String, new_ip: &String) -> (r: (
    Vec<Entry>,
    usize,
))
    ensures
        (r.0.deep_view(), r.1 as nat) == move_hostname_spec(entries.deep_view(), h@, new_ip@),
{
    let ghost ev = entries.deep_view();
    let n = entries.len();
    let mut stripped: Vec<Entry> = Vec::new();
    let mut moved: usize = 0;
    let mut all_disabled = true;
    let mut comment: Option<String> = None;
    let names = vec![h.clone()];
    assert(strs(names@) =~= seq![h@]);
    assert(ev.subrange(0, n as int) =~= ev);
    for i in 0..n
        invariant
            n == ev.len(),
            ev == entries.deep_view(),
            strs(names@) == seq![h@],
            stripped@.len() == i,
            forall|k: int| 0 <= k < i ==> #[trigger] stripped@[k]@ == strip_host(ev[k], h@),
            moved == count_with_host(ev.take(i as int), h@),
            moved <= i,
            all_disabled == all_with_host_disabled(ev.take(i as int), h@),
            (match comment {
                Some(c) => first_comment(ev, h@) == Some(c@),
                None => first_comment(ev, h@) == first_comment(
                    ev.subrange(i as int, n as int),
                    h@,
                ),
            }),
    {
        let e = &entries[i];
        assert(ev[i as int] == e@);
        assert(ev.take(i + 1).drop_last() =~= ev.take(i as int));
        assert(ev.take(i + 1).last() == e@);
        proof {
            lemma_first_comment_step(ev, h@, i as int);
        }
        let touched = entry_has_host(e, h);
        if touched {
            moved += 1;
            if !e.disabled {
                all_disabled = false;
            }
            if comment.is_none() && e.comment.is_some() {
                comment = clone_opt(&e.comment);
            }
        }
        proof {
            lemma_all_with_host_disabled_step(ev, h@, i as int);
        }
        let e1 = if e.canonical == *h {
            entry_without_canonical(e)
        } else {
            clone_entry(e)
        };
        let w = strings_without(&e1.aliases, names.as_slice());
        stripped.push(Entry { aliases: w, ..e1 });
    }
    assert(ev.take(n as int) =~= ev);
    assert(stripped.deep_view() =~= ev.map_values(|e: EntryView| strip_host(e, h@)));
    if moved == 0 {
        let mut same: Vec<Entry> = Vec::new();
        for i in 0..n
            invariant
                n == ev.len(),
                ev == entries.deep_view(),
                same@.len() == i,
                forall|k: int| 0 <= k < i ==> #[trigger] same@[k]@ == ev[k],
        {
            same.push(clone_entry(&entries[i]));
        }
        assert(same.deep_view() =~= ev);
        return (same, 0);
    }
    let mut kept = keep_nonblank(stripped);
    let t = find_ip_of(&kept, new_ip);
    if t < kept.len() {
        let mut e2 = clone_entry(&kept[t]);
        add_host_to(&mut e2, h);
        if all_disabled {
            e2.disabled = true;
        }
        let ghost before = kept.deep_view();
        kept.set(t, e2);
        assert(kept.deep_view() =~= before.update(t as int, e2@));
    } else {
        let id = next_id_of(&kept);
        let ghost before = kept.deep_view();
        let e2 = Entry {
            id,
            ip: new_ip.clone(),
            canonical: h.clone(),
            aliases: Vec::new(),
            comment,
            disabled: all_disabled,
            raw: None,
        };
        assert(e2@.aliases =~= Seq::<Seq<char>>::empty());
        kept.push(e2);
        assert(kept.deep_view() =~= before.push(e2@));
    }
    (kept, moved)
}

/// `acc` extended, in order, by the hostnames of `hosts` that entry `e`
/// names and that `acc` does not hold yet.
pub open spec fn add_dups(acc: Seq<Seq<char>>, e: EntryView, hosts: Seq<Seq<char>>) -> Seq<
    Seq<char>,
>
    decreases hosts.len(),
{
    if hosts.len() == 0 {
        acc
    } else {
        let p = add_dups(acc, e, hosts.drop_last());
        let h = hosts.last();
        if has_host(e, h) && !p.contains(h) {
            p.push(h)
        } else {
            p
        }
    }
}

/// The hostnames of `hosts` already named by an entry of another address,
/// each once, in the order the entries and then the hosts are scanned.
pub open spec fn duplicates_spec(es: Seq<EntryView>, ip: Seq<char>, hosts: Seq<Seq<char>>) -> Seq<
    Seq<char>,
>
    decreases es.len(),
{
    if es.len() == 0 {
        Seq::empty()
    } else {
        let p = duplicates_spec(es.drop_last(), ip, hosts);
        if es.last().ip != ip {
            add_dups(p, es.last(), hosts)
        } else {
            p
        }
    }
}

/// The entry with each of `hosts` added to it in turn (`add_host`).
pub open spec fn extend_hosts(e: EntryView, hosts: Seq<Seq<char>>) -> EntryView
    decreases hosts.len(),
{
    if hosts.len() == 0 {
        e
    } else {
        add_host(extend_hosts(e, hosts.drop_last()), hosts.last())
    }
}

/// Index of the first entry at or after `i` with address `ip` and canonical
/// name `c`, or `es.len()`.
pub open spec fn find_entry(es: Seq<EntryView>, ip: Seq<char>, c: Seq<char>, i: int) -> int
    decreases es.len() - i,
{
    if i < 0 || i >= es.len() {
        es.len() as int
    } else if es[i].ip == ip && es[i].canonical == c {
        i
    } else {
        find_entry(es, ip, c, i + 1)
    }
}

/// The canonical name an added line gets: the first host, or empty.
pub open spec fn first_host(hosts: Seq<Seq<char>>) -> Seq<char> {
    if hosts.len() > 0 {
        hosts[0]
    } else {
        Seq::empty()
    }
}

/// The entries once `hosts` are added for `ip`: into the first entry of `ip`
/// whose canonical name is the first host (taking the comment, if one is
/// given), or else as a new enabled entry whose first host is canonical.
pub open spec fn add_entry_spec(
    es: Seq<EntryView>,
    ip: Seq<char>,
    hosts: Seq<Seq<char>>,
    comment: Option<Seq<char>>,
) -> Seq<EntryView> {
    let c = first_host(hosts);
    let t = find_entry(es, ip, c, 0);
    if t < es.len() {
        let e2 = extend_hosts(es[t], hosts);
        es.update(
            t,
            match comment {
                Some(x) => EntryView { comment: Some(x), ..e2 },
                None => e2,
            },
        )
    } else {
        es.push(
            EntryView {
                id: next_id(es),
                ip,
                canonical: c,
                aliases: if hosts.len() > 0 {
                    hosts.drop_first()
                } else {
                    Seq::empty()
                },
                comment,
                disabled: false,
                raw: None,
            },
        )
    }
}

/// The value of an optional string slice.
pub open spec fn opt_str_view(o: Option<&str>) -> Option<Seq<char>> {
    match o {
        Some(s) => Some(s@),
        None => None,
    }
}

/// The duplicates that adding `hosts` for `ip` reports (`duplicates_spec`).
pub fn duplicates_of(entries: &Vec<Entry>, ip: &String, hosts: &[String]) -> (d: Vec<String>)
    ensures
        d.deep_view() == duplicates_spec(entries.deep_view(), ip@, strs(hosts@)),
{
    let ghost ev = entries.deep_view();
    let ghost hv = strs(hosts@);
    let mut d: Vec<String> = Vec::new();
    for i in 0..entries.len()
        invariant
            ev == entries.deep_view(),
            hv == strs(hosts@),
            d.deep_view() == duplicates_spec(ev.take(i as int), ip@, hv),
    {
        assert(ev.take(i + 1).drop_last() =~= ev.take(i as int));
        assert(ev.take(i + 1).last() == entries@[i as int]@);
        let e = &entries[i];
        if e.ip != *ip {
            let ghost base = d.deep_view();
            for j in 0..hosts.len()
                invariant
                    ev == entries.deep_view(),
                    hv == strs(hosts@),
                    e@ == entries@[i as int]@,
                    d.deep_view() == add_dups(base, e@, hv.take(j as int)),
            {
                assert(hv.take(j + 1).drop_last() =~= hv.take(j as int));
                assert(hv.take(j + 1).last() == hosts@[j as int]@);
                let h = &hosts[j];
                let named = entry_has_host(e, h);
                let seen = contains_str(d.as_slice(), h);
                assert(strs(d@) =~= d.deep_view());
                if named && !seen {
                    let ghost prev = d.deep_view();
                    d.push(h.clone());
                    assert(d.deep_view() =~= prev.push(h@));
                }
            }
            assert(hv.take(hosts.len() as int) =~= hv);
        }
    }
    assert(ev.take(entries.len() as int) =~= ev);
    d
}

/// Adds `hosts` for `ip` (`add_entry_spec`).
pub fn add_entry_in(entries: &mut Vec<Entry>, ip: &String, hosts: &[String], comment: Option<&str>)
    ensures
        final(entries).deep_view() == add_entry_spec(
            old(entries).deep_view(),
            ip@,
            strs(hosts@),
            opt_str_view(comment),
        ),
{
    let ghost ev = entries.deep_view();
    let ghost hv = strs(hosts@);
    let c: String = if hosts.len() > 0 {
        hosts[0].clone()
    } else {
        String::new()
    };
    assert(c@ == first_host(hv));
    let mut t: usize = 0;
    while t < entries.len() && !(entries[t].ip == *ip && entries[t].canonical == c)
        invariant
            ev == entries.deep_view(),
            t <= entries.len(),
            find_entry(ev, ip@, c@, t as int) == find_entry(ev, ip@, c@, 0),
        decreases entries.len() - t,
    {
        assert(ev[t as int] == entries@[t as int]@);
        t += 1;
    }
    if t < entries.len() {
        assert(ev[t as int] == entries@[t as int]@);
        assert(find_entry(ev, ip@, c@, 0) == t);
        let mut e2 = clone_entry(&entries[t]);
        for j in 0..hosts.len()
            invariant
                hv == strs(hosts@),
                t < ev.len(),
                e2@ == extend_hosts(ev[t as int], hv.take(j as int)),
        {
            assert(hv.take(j + 1).drop_last() =~= hv.take(j as int));
            assert(hv.take(j + 1).last() == hosts@[j as int]@);
            add_host_to(&mut e2, &hosts[j]);
        }
        assert(hv.take(hosts.len() as int) =~= hv);
        match comment {
            Some(x) => {
                e2.comment = Some(x.to_owned());
            },
            None => {},
        }
        entries.set(t, e2);
        assert(entries.deep_view() =~= add_entry_spec(ev, ip@, hv, opt_str_view(comment)));
    } else {
        let id = next_id_of(entries);
        let mut aliases: Vec<String> = Vec::new();
        let mut j: usize = 1;
        while j < hosts.len()
            invariant
                hv == strs(hosts@),
                1 <= j,
                j <= hosts.len() || hosts.len() == 0,
                hosts.len() == 0 ==> j == 1,
                aliases@.len() == j - 1,
                forall|k: int| 0 <= k < j - 1 ==> #[trigger] aliases@[k]@ == hv[k + 1],
            decreases hosts.len() - j,
        {
            aliases.push(hosts[j].clone());
            j += 1;
        }
        let e2 = Entry {
            id,
            ip: ip.clone(),
            canonical: c,
            aliases,
            comment: match comment {
                Some(x) => Some(x.to_owned()),
                None => None,
            },
            disabled: false,
            raw: None,
        };
        if hosts.len() > 0 {
            assert(e2@.aliases =~= hv.drop_first());
        } else {
            assert(e2@.aliases =~= Seq::<Seq<char>>::empty());
        }
        let ghost before = entries.deep_view();
        entries.push(e2);
        assert(entries.deep_view() =~= before.push(e2@));
    }
}

/// The hostnames disabling `names` splits off an entry: its canonical name if
/// listed, then its listed aliases.
pub open spec fn split_off_hosts(e: EntryView, names: Seq<Seq<char>>) -> Seq<Seq<char>> {
    if names.contains(e.canonical) {
        seq![e.canonical] + within(e.aliases, names)
    } else {
        within(e.aliases, names)
    }
}

/// The entry once the hostnames disabling `names` splits off are gone from it:
/// when its canonical name goes, the first hostname left takes its place.
pub open spec fn disable_rest(e: EntryView, names: Seq<Seq<char>>) -> EntryView {
    if names.contains(e.canonical) {
        with_names(e, without(e.aliases, names))
    } else {
        EntryView { aliases: without(e.aliases, names), ..e }
    }
}

/// Every split-off hostname with the entry it came from, in order.
pub open spec fn split_pairs(es: Seq<EntryView>, names: Seq<Seq<char>>) -> Seq<
    (EntryView, Seq<char>),
>
    decreases es.len(),
{
    if es.len() == 0 {
        Seq::empty()
    } else {
        let e = es.last();
        split_pairs(es.drop_last(), names) + split_off_hosts(e, names).map_values(
            |h: Seq<char>| (e, h),
        )
    }
}

/// The disabled single-hostname entry split off from `e`.
pub open spec fn disabled_copy(e: EntryView, h: Seq<char>, id: nat) -> EntryView {
    EntryView {
        id,
        ip: e.ip,
        canonical: h,
        aliases: Seq::empty(),
        comment: e.comment,
        disabled: true,
        raw: None,
    }
}

/// The entries once `names` are disabled, and how many hostnames were: every
/// listed hostname leaves its entry (entries left without hostnames go) and
/// comes back, after all entries, as a disabled entry of its own with the
/// address and comment of its entry and ids counted on from the largest.
pub open spec fn disable_hostname_spec(es: Seq<EntryView>, names: Seq<Seq<char>>) -> (
    Seq<EntryView>,
    nat,
) {
    let base = max_id(es);
    let ps = split_pairs(es, names);
    (
        nonblank(es.map_values(|e: EntryView| disable_rest(e, names))) + ps.map(
            |k: int, p: (EntryView, Seq<char>)| disabled_copy(p.0, p.1, clamp(base + k + 1)),
        ),
        ps.len(),
    )
}

/// The split-off pairs of a prefix of the entries are a prefix of all of them.
pub proof fn lemma_split_pairs_prefix(es: Seq<EntryView>, names: Seq<Seq<char>>, i: int)
    requires
        0 <= i <= es.len(),
    ensures
        split_pairs(es.take(i), names).len() <= split_pairs(es, names).len(),
        split_pairs(es, names).take(split_pairs(es.take(i), names).len() as int) == split_pairs(
            es.take(i),
            names,
        ),
    decreases es.len(),
{
    if i == es.len() {
        assert(es.take(i) =~= es);
        assert(split_pairs(es, names).take(split_pairs(es, names).len() as int) =~= split_pairs(
            es,
            names,
        ));
    } else {
        lemma_split_pairs_prefix(es.drop_last(), names, i);
        assert(es.drop_last().take(i) =~= es.take(i));
        let a = split_pairs(es.drop_last(), names);
        let b = split_pairs(es.take(i), names);
        assert(split_pairs(es, names).take(b.len() as int) =~= a.take(b.len() as int));
    }
}

/// The hostnames disabling `names` splits off one entry.
fn split_off_of(e: &Entry, names: &[String]) -> (r: Vec<String>)
    ensures
        r.deep_view() == split_off_hosts(e@, strs(names@)),
{
    if contains_str(names, &e.canonical) {
        let inside = strings_within(&e.aliases, names);
        let mut r: Vec<String> = Vec::new();
        r.push(e.canonical.clone());
        let ghost head = r.deep_view();
        assert(head =~= seq![e@.canonical]);
        for j in 0..inside.len()
            invariant
                r@.len() == j + 1,
                r@[0]@ == e@.canonical,
                forall|k: int| 1 <= k <= j ==> #[trigger] r@[k]@ == inside@[k - 1]@,
        {
            r.push(inside[j].clone());
        }
        assert(r.deep_view() =~= seq![e@.canonical] + inside.deep_view());
        r
    } else {
        strings_within(&e.aliases, names)
    }
}

/// Disables `names` (`disable_hostname_spec`).
pub fn disable_hostnames_in(entries: &Vec<Entry>, names: &[String]) -> (r: (Vec<Entry>, usize))
    ensures
        (r.0.deep_view(), r.1 as nat) == disable_hostname_spec(entries.deep_view(), strs(names@)),
{
    let ghost ev = entries.deep_view();
    let ghost nv = strs(names@);
    let ghost ps = split_pairs(ev, nv);
    let n = entries.len();
    let base = max_id_of(entries);
    let mut rest: Vec<Entry> = Vec::new();
    let mut fresh: Vec<Entry> = Vec::new();
    let mut next: usize = base;
    for i in 0..n
        invariant
            n == ev.len(),
            ev == entries.deep_view(),
            nv == strs(names@),
            ps == split_pairs(ev, nv),
            base == max_id(ev),
            rest@.len() == i,
            forall|k: int| 0 <= k < i ==> #[trigger] rest@[k]@ == disable_rest(ev[k], nv),
            fresh@.len() == split_pairs(ev.take(i as int), nv).len(),
            fresh@.len() <= ps.len(),
            forall|k: int|
                0 <= k < fresh@.len() ==> #[trigger] fresh@[k]@ == disabled_copy(
                    ps[k].0,
                    ps[k].1,
                    clamp(base + k + 1),
                ),
            next == clamp(base + fresh@.len()),
    {
        let e = &entries[i];
        assert(ev[i as int] == e@);
        let split = split_off_of(e, names);
        let ghost before = split_pairs(ev.take(i as int), nv);
        proof {
            assert(ev.take(i + 1).drop_last() =~= ev.take(i as int));
            assert(ev.take(i + 1).last() == e@);
            lemma_split_pairs_prefix(ev, nv, i + 1);
        }
        let ghost after = split_pairs(ev.take(i + 1), nv);
        assert(after == before + split.deep_view().map_values(|h: Seq<char>| (e@, h)));
        for j in 0..split.len()
            invariant
                ev == entries.deep_view(),
                e@ == ev[i as int],
                ps == split_pairs(ev, nv),
                after == before + split.deep_view().map_values(|h: Seq<char>| (e@, h)),
                after.len() <= ps.len(),
                ps.take(after.len() as int) == after,
                fresh@.len() == before.len() + j,
                forall|k: int|
                    0 <= k < fresh@.len() ==> #[trigger] fresh@[k]@ == disabled_copy(
                        ps[k].0,
                        ps[k].1,
                        clamp(base + k + 1),
                    ),
                next == clamp(base + fresh@.len()),
        {
            let ghost k = before.len() + j;
            assert(ps[k] == after[k]);
            assert(after[k] == (e@, split@[j as int]@));
            proof {
                lemma_clamp_add(base + fresh@.len(), 1);
            }
            next = sat_add(next, 1);
            let copy = Entry {
                id: next,
                ip: e.ip.clone(),
                canonical: split[j].clone(),
                aliases: Vec::new(),
                comment: clone_opt(&e.comment),
                disabled: true,
                raw: None,
            };
            assert(copy@.aliases =~= Seq::<Seq<char>>::empty());
            fresh.push(copy);
        }
        let outside = strings_without(&e.aliases, names);
        if contains_str(names, &e.canonical) {
            rest.push(entry_with_names(e, outside));
        } else {
            let e1 = clone_entry(e);
            rest.push(Entry { aliases: outside, ..e1 });
        }
    }
    assert(ev.take(n as int) =~= ev);
    assert(rest.deep_view() =~= ev.map_values(|e: EntryView| disable_rest(e, nv)));
    let count = fresh.len();
    let mut out = keep_nonblank(rest);
    let ghost kept = out.deep_view();
    let ghost fv = fresh.deep_view();
    assert(fv =~= ps.map(
        |k: int, p: (EntryView, Seq<char>)| disabled_copy(p.0, p.1, clamp(base + k + 1)),
    ));
    out.append(&mut fresh);
    assert(out.deep_view() =~= kept + fv);
    (out, count)
}

/// The hostnames enabling `names` merges back out of a disabled entry: its
/// canonical name if listed, then its listed aliases.
pub open spec fn merge_hosts(e: EntryView, names: Seq<Seq<char>>) -> Seq<Seq<char>> {
    (if names.contains(e.canonical) {
        seq![e.canonical]
    } else {
        Seq::empty()
    }) + within(e.aliases, names)
}

/// The hostnames of such an entry that stay disabled: its canonical name if
/// unlisted and not empty, then its unlisted aliases.
pub open spec fn remaining_hosts(e: EntryView, names: Seq<Seq<char>>) -> Seq<Seq<char>> {
    (if !names.contains(e.canonical) && e.canonical.len() > 0 {
        seq![e.canonical]
    } else {
        Seq::empty()
    }) + without(e.aliases, names)
}

/// A disabled entry with a listed hostname.
pub open spec fn is_matched(e: EntryView, names: Seq<Seq<char>>) -> bool {
    e.disabled && merge_hosts(e, names).len() > 0
}

/// The entries that enabling `names` leaves in place, in order.
pub open spec fn unmatched(es: Seq<EntryView>, names: Seq<Seq<char>>) -> Seq<EntryView>
    decreases es.len(),
{
    if es.len() == 0 {
        Seq::empty()
    } else if is_matched(es.last(), names) {
        unmatched(es.drop_last(), names)
    } else {
        unmatched(es.drop_last(), names).push(es.last())
    }
}

/// The disabled entry that keeps the remaining hostnames of a matched entry
/// (before it gets its id).
pub open spec fn leftover(e: EntryView, names: Seq<Seq<char>>) -> EntryView {
    let rem = remaining_hosts(e, names);
    EntryView {
        id: 0,
        ip: e.ip,
        canonical: rem[0],
        aliases: rem.drop_first(),
        comment: e.comment,
        disabled: true,
        raw: None,
    }
}

/// The leftovers of the matched entries that keep hostnames, in order.
pub open spec fn leftovers(es: Seq<EntryView>, names: Seq<Seq<char>>) -> Seq<EntryView>
    decreases es.len(),
{
    if es.len() == 0 {
        Seq::empty()
    } else if is_matched(es.last(), names) && remaining_hosts(es.last(), names).len() > 0 {
        leftovers(es.drop_last(), names).push(leftover(es.last(), names))
    } else {
        leftovers(es.drop_last(), names)
    }
}

/// The (address, hostname) pairs that enabling `names` merges back, in order.
pub open spec fn merges(es: Seq<EntryView>, names: Seq<Seq<char>>) -> Seq<(Seq<char>, Seq<char>)>
    decreases es.len(),
{
    if es.len() == 0 {
        Seq::empty()
    } else {
        let e = es.last();
        merges(es.drop_last(), names) + if is_matched(e, names) {
            merge_hosts(e, names).map_values(|h: Seq<char>| (e.ip, h))
        } else {
            Seq::empty()
        }
    }
}

/// Index of the first enabled entry at or after `i` with address `ip`, or `es.len()`.
pub open spec fn find_enabled(es: Seq<EntryView>, ip: Seq<char>, i: int) -> int
    decreases es.len() - i,
{
    if i < 0 || i >= es.len() {
        es.len() as int
    } else if es[i].ip == ip && !es[i].disabled {
        i
    } else {
        find_enabled(es, ip, i + 1)
    }
}

/// Merges one hostname back: into the first enabled entry of its address, or
/// as a new enabled entry of its own.
pub open spec fn apply_merge(es: Seq<EntryView>, m: (Seq<char>, Seq<char>)) -> Seq<EntryView> {
    let t = find_enabled(es, m.0, 0);
    if t < es.len() {
        es.update(t, add_host(es[t], m.1))
    } else {
        es.push(
            EntryView {
                id: next_id(es),
                ip: m.0,
                canonical: m.1,
                aliases: Seq::empty(),
                comment: None,
                disabled: false,
                raw: None,
            },
        )
    }
}

/// Merges the hostnames back one after the other.
pub open spec fn apply_merges(es: Seq<EntryView>, ms: Seq<(Seq<char>, Seq<char>)>) -> Seq<
    EntryView,
>
    decreases ms.len(),
{
    if ms.len() == 0 {
        es
    } else {
        apply_merge(apply_merges(es, ms.drop_last()), ms.last())
    }
}

/// The entries once `names` are enabled, and how many hostnames were. Every
/// disabled entry with a listed hostname goes; its unlisted hostnames stay
/// disabled in a new entry after the others (ids counted on from the largest
/// left), and its listed hostnames are merged back one by one (`apply_merge`).
pub open spec fn enable_hostname_spec(es: Seq<EntryView>, names: Seq<Seq<char>>) -> (
    Seq<EntryView>,
    nat,
) {
    let kept = unmatched(es, names);
    let base = max_id(kept);
    let staged = kept + leftovers(es, names).map(
        |k: int, e: EntryView| EntryView { id: clamp(base + k + 1), ..e },
    );
    (apply_merges(staged, merges(es, names)), merges(es, names).len())
}

/// The hostnames that enabling `names` merges back out of one entry.
fn merge_hosts_of(e: &Entry, names: &[String]) -> (r: Vec<String>)
    ensures
        r.deep_view() == merge_hosts(e@, strs(names@)),
{
    let inside = strings_within(&e.aliases, names);
    let mut r: Vec<String> = Vec::new();
    let listed = contains_str(names, &e.canonical);
    if listed {
        r.push(e.canonical.clone());
    }
    let ghost head = r.deep_view();
    let h: usize = r.len();
    for j in 0..inside.len()
        invariant
            h == head.len(),
            r@.len() == h + j,
            forall|k: int| 0 <= k < h ==> #[trigger] r@[k]@ == head[k],
            forall|k: int| h <= k < h + j ==> #[trigger] r@[k]@ == inside@[k - h]@,
    {
        r.push(inside[j].clone());
    }
    assert(r.deep_view() =~= head + inside.deep_view());
    if listed {
        assert(head =~= seq![e@.canonical]);
    } else {
        assert(head =~= Seq::<Seq<char>>::empty());
    }
    r
}

/// The hostnames of one entry that stay disabled when `names` are enabled.
fn remaining_hosts_of(e: &Entry, names: &[String]) -> (r: Vec<String>)
    ensures
        r.deep_view() == remaining_hosts(e@, strs(names@)),
{
    let outside = strings_without(&e.aliases, names);
    let mut r: Vec<String> = Vec::new();
    let keep = !contains_str(names, &e.canonical) && !e.canonical.as_str().is_empty();
    if keep {
        r.push(e.canonical.clone());
    }
    let ghost head = r.deep_view();
    let h: usize = r.len();
    for j in 0..outside.len()
        invariant
            h == head.len(),
            r@.len() == h + j,
            forall|k: int| 0 <= k < h ==> #[trigger] r@[k]@ == head[k],
            forall|k: int| h <= k < h + j ==> #[trigger] r@[k]@ == outside@[k - h]@,
    {
        r.push(outside[j].clone());
    }
    assert(r.deep_view() =~= head + outside.deep_view());
    if keep {
        assert(head =~= seq![e@.canonical]);
    } else {
        assert(head =~= Seq::<Seq<char>>::empty());
    }
    r
}

/// Returns `find_enabled(es, ip, 0)`.
fn find_enabled_of(entries: &Vec<Entry>, ip: &String) -> (t: usize)
    ensures
        t == find_enabled(entries.deep_view(), ip@, 0),
        t <= entries.len(),
{
    let ghost ev = entries.deep_view();
    let mut t: usize = 0;
    while t < entries.len() && !(entries[t].ip == *ip && !entries[t].disabled)
        invariant
            ev == entries.deep_view(),
            t <= entries.len(),
            find_enabled(ev, ip@, t as int) == find_enabled(ev, ip@, 0),
        decreases entries.len() - t,
    {
        assert(ev[t as int] == entries@[t as int]@);
        t += 1;
    }
    if t < entries.len() {
        assert(ev[t as int] == entries@[t as int]@);
    }
    t
}

/// Merges one hostname back (`apply_merge`).
fn apply_merge_in(entries: &mut Vec<Entry>, ip: &String, h: &String)
    ensures
        final(entries).deep_view() == apply_merge(old(entries).deep_view(), (ip@, h@)),
{
    let ghost ev = entries.deep_view();
    let t = find_enabled_of(entries, ip);
    if t < entries.len() {
        let mut e = clone_entry(&entries[t]);
        assert(e@ == ev[t as int]);
        add_host_to(&mut e, h);
        entries.set(t, e);
        assert(entries.deep_view() =~= ev.update(t as int, add_host(ev[t as int], h@)));
    } else {
        let id = next_id_of(entries);
        let e = Entry {
            id,
            ip: ip.clone(),
            canonical: h.clone(),
            aliases: Vec::new(),
            comment: None,
            disabled: false,
            raw: None,
        };
        assert(e@.aliases =~= Seq::<Seq<char>>::empty());
        entries.push(e);
        assert(entries.deep_view() =~= ev.push(e@));
    }
}

/// Enables `names` (`enable_hostname_spec`).
pub fn enable_hostnames_in(entries: &Vec<Entry>, names: &[String]) -> (r: (Vec<Entry>, usize))
    ensures
        (r.0.deep_view(), r.1 as nat) == enable_hostname_spec(entries.deep_view(), strs(names@)),
{
    let ghost ev = entries.deep_view();
    let ghost nv = strs(names@);
    let n = entries.len();
    let mut kept: Vec<Entry> = Vec::new();
    let mut left: Vec<Entry> = Vec::new();
    let mut m_ips: Vec<String> = Vec::new();
    let mut m_hosts: Vec<String> = Vec::new();
    for i in 0..n
        invariant
            n == ev.len(),
            ev == entries.deep_view(),
            nv == strs(names@),
            kept.deep_view() == unmatched(ev.take(i as int), nv),
            left.deep_view() == leftovers(ev.take(i as int), nv),
            m_ips@.len() == m_hosts@.len(),
            m_ips@.len() == merges(ev.take(i as int), nv).len(),
            forall|k: int|
                0 <= k < m_ips@.len() ==> (#[trigger] m_ips@[k]@, m_hosts@[k]@) == merges(
                    ev.take(i as int),
                    nv,
                )[k],
    {
        let e = &entries[i];
        assert(ev[i as int] == e@);
        assert(ev.take(i + 1).drop_last() =~= ev.take(i as int));
        assert(ev.take(i + 1).last() == e@);
        let ghost before = merges(ev.take(i as int), nv);
        let mut matched = false;
        if e.disabled {
            let mh = merge_hosts_of(e, names);
            if mh.len() > 0 {
                matched = true;
                let start = m_ips.len();
                for j in 0..mh.len()
                    invariant
                        m_ips@.len() == m_hosts@.len(),
                        m_ips@.len() == start + j,
                        start == before.len(),
                        forall|k: int|
                            0 <= k < start ==> (#[trigger] m_ips@[k]@, m_hosts@[k]@) == before[k],
                        forall|k: int|
                            start <= k < start + j ==> (#[trigger] m_ips@[k]@, m_hosts@[k]@) == (
                                e@.ip,
                                mh@[k - start]@,
                            ),
                {
                    m_ips.push(e.ip.clone());
                    m_hosts.push(mh[j].clone());
                }
                let rem = remaining_hosts_of(e, names);
                if rem.len() > 0 {
                    let ghost rv = rem.deep_view();
                    let mut rest = rem;
                    let canonical = rest.remove(0);
                    assert(rest.deep_view() =~= rv.drop_first());
                    let l = Entry {
                        id: 0,
                        ip: e.ip.clone(),
                        canonical,
                        aliases: rest,
                        comment: clone_opt(&e.comment),
                        disabled: true,
                        raw: None,
                    };
                    let ghost prevl = left.deep_view();
                    left.push(l);
                    assert(left.deep_view() =~= prevl.push(leftover(e@, nv)));
                }
                assert(merges(ev.take(i + 1), nv) =~= before + mh.deep_view().map_values(
                    |h: Seq<char>| (e@.ip, h),
                ));
            }
        }
        if !matched {
            let ghost prevk = kept.deep_view();
            kept.push(clone_entry(e));
            assert(kept.deep_view() =~= prevk.push(e@));
            assert(merges(ev.take(i + 1), nv) =~= before);
        }
    }
    assert(ev.take(n as int) =~= ev);
    let ghost kv = kept.deep_view();
    let ghost lv = left.deep_view();
    let base = max_id_of(&kept);
    let mut id = base;
    let nl = left.len();
    let mut numbered: Vec<Entry> = Vec::new();
    for k in 0..nl
        invariant
            nl == lv.len(),
            lv == left.deep_view(),
            base == max_id(kv),
            numbered@.len() == k,
            forall|m: int|
                0 <= m < k ==> #[trigger] numbered@[m]@ == (EntryView {
                    id: clamp(base + m + 1),
                    ..lv[m]
                }),
            id == clamp(base + k),
    {
        proof {
            lemma_clamp_add(base + k, 1);
        }
        id = sat_add(id, 1);
        let mut l = clone_entry(&left[k]);
        l.id = id;
        numbered.push(l);
    }
    let ghost nbv = numbered.deep_view();
    assert(nbv =~= lv.map(|k: int, e: EntryView| EntryView { id: clamp(base + k + 1), ..e }));
    kept.append(&mut numbered);
    assert(kept.deep_view() =~= kv + nbv);
    let ghost ms = merges(ev, nv);
    let nm = m_ips.len();
    for k in 0..nm
        invariant
            nm == ms.len(),
            nm == m_hosts@.len(),
            nm == m_ips@.len(),
            ms == merges(ev, nv),
            forall|m: int| 0 <= m < nm ==> (#[trigger] m_ips@[m]@, m_hosts@[m]@) == ms[m],
            kept.deep_view() == apply_merges(kv + nbv, ms.take(k as int)),
    {
        assert(ms.take(k + 1).drop_last() =~= ms.take(k as int));
        assert(ms.take(k + 1).last() == ms[k as int]);
        assert((m_ips@[k as int]@, m_hosts@[k as int]@) == ms[k as int]);
        apply_merge_in(&mut kept, &m_ips[k], &m_hosts[k]);
    }
    assert(ms.take(nm as int) =~= ms);
    (kept, nm)
}

} // verus!
