//! Checking a hosts file line by line: invalid addresses, missing or invalid
//! hostnames, and hostnames that occur more than once.
use crate::addr::is_ip_text;
use crate::text::{
    chars_of, lines, lines_of, lowercase, skip_ws, skip_ws_at, split_words, to_lowercase, words,
};
use crate::validation::{is_hostname_text, is_valid_hostname, is_valid_ip};
use vstd::prelude::*;

verus! {

/// One issue: line number, address, hostname (or `-`), description.
pub type Issue = (usize, String, String, String);

/// The value of an issue.
pub open spec fn issue_view(t: Issue) -> (nat, Seq<char>, Seq<char>, Seq<char>) {
    (t.0 as nat, t.1@, t.2@, t.3@)
}

/// The values of a list of issues.
pub open spec fn issues_view(v: Seq<Issue>) -> Seq<(nat, Seq<char>, Seq<char>, Seq<char>)> {
    v.map_values(|t: Issue| issue_view(t))
}

/// `-`, the host of an issue that concerns the whole line.
pub open spec fn dash() -> Seq<char> {
    seq!['-']
}

/// `invalid IP`.
pub open spec fn invalid_ip_text() -> Seq<char> {
    seq!['i', 'n', 'v', 'a', 'l', 'i', 'd', ' ', 'I', 'P']
}

/// `missing hostname`.
pub open spec fn missing_hostname_text() -> Seq<char> {
    seq!['m', 'i', 's', 's', 'i', 'n', 'g', ' ', 'h', 'o', 's', 't', 'n', 'a', 'm', 'e']
}

/// `invalid hostname`.
pub open spec fn invalid_hostname_text() -> Seq<char> {
    seq!['i', 'n', 'v', 'a', 'l', 'i', 'd', ' ', 'h', 'o', 's', 't', 'n', 'a', 'm', 'e']
}

/// `duplicate`.
pub open spec fn duplicate_text() -> Seq<char> {
    seq!['d', 'u', 'p', 'l', 'i', 'c', 'a', 't', 'e']
}

/// A line that holds an entry: its first non-blank character is not `#`.
pub open spec fn is_entry_line(l: Seq<char>) -> bool {
    let a = skip_ws(l, 0);
    a < l.len() && l[a] != '#'
}

/// Index of the first word at or after `i` that starts with `#`, or `ws.len()`.
pub open spec fn hosts_end(ws: Seq<Seq<char>>, i: int) -> int
    decreases ws.len() - i,
{
    if i < 0 || i >= ws.len() {
        ws.len() as int
    } else if ws[i].len() > 0 && ws[i][0] == '#' {
        i
    } else {
        hosts_end(ws, i + 1)
    }
}

/// The hostnames of a line's words: after the address, up to a comment.
pub open spec fn line_hosts(ws: Seq<Seq<char>>) -> Seq<Seq<char>> {
    ws.subrange(1, hosts_end(ws, 1))
}

/// An `invalid hostname` issue for each invalid hostname, in order.
pub open spec fn bad_hosts(ln: nat, ip: Seq<char>, hs: Seq<Seq<char>>) -> Seq<
    (nat, Seq<char>, Seq<char>, Seq<char>),
>
    decreases hs.len(),
{
    if hs.len() == 0 {
        Seq::empty()
    } else if is_hostname_text(hs.last()) {
        bad_hosts(ln, ip, hs.drop_last())
    } else {
        bad_hosts(ln, ip, hs.drop_last()).push((ln, ip, hs.last(), invalid_hostname_text()))
    }
}

/// Whether a line is checked: it holds an entry, hence at least one word.
pub open spec fn is_checked(l: Seq<char>) -> bool {
    is_entry_line(l) && words(l).len() > 0
}

/// The issues of line `ln` on its own: an invalid address, then a missing
/// hostname or each invalid hostname.
pub open spec fn line_issues(ln: nat, l: Seq<char>) -> Seq<(nat, Seq<char>, Seq<char>, Seq<char>)> {
    if !is_checked(l) {
        Seq::empty()
    } else {
        let ws = words(l);
        let ip = ws[0];
        (if !is_ip_text(ip) {
            seq![(ln, ip, dash(), invalid_ip_text())]
        } else {
            Seq::empty()
        }) + if ws.len() < 2 {
            seq![(ln, ip, dash(), missing_hostname_text())]
        } else {
            bad_hosts(ln, ip, line_hosts(ws))
        }
    }
}

/// The lowercased hostnames of a line, which duplicates are found by.
pub open spec fn line_keys(l: Seq<char>) -> Seq<Seq<char>> {
    if is_checked(l) && words(l).len() >= 2 {
        line_hosts(words(l)).map_values(|h: Seq<char>| lowercase(h))
    } else {
        Seq::empty()
    }
}

/// The keys of each line (`line_keys`).
pub open spec fn keys_of(ls: Seq<Seq<char>>) -> Seq<Seq<Seq<char>>> {
    Seq::new(ls.len(), |i: int| line_keys(ls[i]))
}

/// The keys of all lines, in order.
pub open spec fn flat_keys(ks: Seq<Seq<Seq<char>>>) -> Seq<Seq<char>>
    decreases ks.len(),
{
    if ks.len() == 0 {
        Seq::empty()
    } else {
        flat_keys(ks.drop_last()) + ks.last()
    }
}

/// The distinct elements, in order of first occurrence.
pub open spec fn dedup(s: Seq<Seq<char>>) -> Seq<Seq<char>>
    decreases s.len(),
{
    if s.len() == 0 {
        Seq::empty()
    } else if dedup(s.drop_last()).contains(s.last()) {
        dedup(s.drop_last())
    } else {
        dedup(s.drop_last()).push(s.last())
    }
}

/// How often `x` occurs.
pub open spec fn occurrences(s: Seq<Seq<char>>, x: Seq<char>) -> nat
    decreases s.len(),
{
    if s.len() == 0 {
        0
    } else {
        occurrences(s.drop_last(), x) + if s.last() == x {
            1nat
        } else {
            0nat
        }
    }
}

/// The `duplicate` issues of line `ln`: for each key that occurs more than
/// once in the file (in order of first occurrence), one issue per occurrence
/// on this line.
pub open spec fn dup_issues(
    ln: nat,
    ip: Seq<char>,
    keys: Seq<Seq<char>>,
    order: Seq<Seq<char>>,
    all: Seq<Seq<char>>,
) -> Seq<(nat, Seq<char>, Seq<char>, Seq<char>)>
    decreases order.len(),
{
    if order.len() == 0 {
        Seq::empty()
    } else {
        let k = order.last();
        dup_issues(ln, ip, keys, order.drop_last(), all) + if occurrences(all, k) > 1 {
            Seq::new(occurrences(keys, k), |j: int| (ln, ip, k, duplicate_text()))
        } else {
            Seq::empty()
        }
    }
}

/// All issues of line `i` (numbered `i + 1`), given the keys of every line:
/// its own, then (for a checked line) its duplicates.
pub open spec fn block_with(ls: Seq<Seq<char>>, ks: Seq<Seq<Seq<char>>>, i: int) -> Seq<
    (nat, Seq<char>, Seq<char>, Seq<char>),
> {
    let l = ls[i];
    let all = flat_keys(ks);
    line_issues((i + 1) as nat, l) + if ks[i].len() > 0 && is_checked(l) {
        dup_issues((i + 1) as nat, words(l)[0], ks[i], dedup(all), all)
    } else {
        Seq::empty()
    }
}

/// The issues of the lines, given the keys of every line, by line number.
pub open spec fn issues_with(ls: Seq<Seq<char>>, ks: Seq<Seq<Seq<char>>>) -> Seq<
    (nat, Seq<char>, Seq<char>, Seq<char>),
> {
    Seq::new(ls.len(), |i: int| block_with(ls, ks, i)).flatten()
}

/// The issues of a hosts file, by line number; duplicates are found by the
/// lowercased hostnames.
pub open spec fn issues_spec(content: Seq<char>) -> Seq<(nat, Seq<char>, Seq<char>, Seq<char>)> {
    let ls = lines(content);
    issues_with(ls, keys_of(ls))
}

/// How often `x` occurs in `v`.
fn count_of(v: &Vec<String>, x: &String) -> (n: usize)
    ensures
        n == occurrences(v.deep_view(), x@),
{
    let ghost vv = v.deep_view();
    let mut n: usize = 0;
    for i in 0..v.len()
        invariant
            vv == v.deep_view(),
            n == occurrences(vv.take(i as int), x@),
            n <= i,
    {
        assert(vv.take(i + 1).drop_last() =~= vv.take(i as int));
        assert(vv.take(i + 1).last() == v@[i as int]@);
        if v[i] == *x {
            n += 1;
        }
    }
    assert(vv.take(v.len() as int) =~= vv);
    n
}

/// The distinct strings of `v`, in order of first occurrence.
pub fn dedup_strings(v: &Vec<String>) -> (r: Vec<String>)
    ensures
        r.deep_view() == dedup(v.deep_view()),
{
    let ghost vv = v.deep_view();
    let mut r: Vec<String> = Vec::new();
    for i in 0..v.len()
        invariant
            vv == v.deep_view(),
            r.deep_view() == dedup(vv.take(i as int)),
    {
        assert(vv.take(i + 1).drop_last() =~= vv.take(i as int));
        assert(vv.take(i + 1).last() == v@[i as int]@);
        let seen = crate::edit::contains_str(r.as_slice(), &v[i]);
        assert(crate::edit::strs(r@) =~= r.deep_view());
        if !seen {
            let ghost prev = r.deep_view();
            r.push(v[i].clone());
            assert(r.deep_view() =~= prev.push(v@[i as int]@));
        }
    }
    assert(vv.take(v.len() as int) =~= vv);
    r
}

/// Returns `hosts_end(ws, 1)`.
fn hosts_end_of(ws: &Vec<String>) -> (e: usize)
    requires
        ws.len() >= 1,
    ensures
        e == hosts_end(ws.deep_view(), 1),
        1 <= e <= ws.len(),
{
    let ghost wv = ws.deep_view();
    let mut e: usize = 1;
    while e < ws.len()
        invariant
            wv == ws.deep_view(),
            1 <= e <= ws.len(),
            hosts_end(wv, e as int) == hosts_end(wv, 1),
        decreases ws.len() - e,
    {
        let w = chars_of(ws[e].as_str());
        assert(wv[e as int] == w@);
        if w.len() > 0 && w[0] == '#' {
            return e;
        }
        e += 1;
    }
    e
}

/// What a first look at a line learns: whether it is checked, and its words.
struct LineScan {
    checked: bool,
    words: Vec<String>,
}

/// Scans one line.
fn scan_line(line: &String) -> (r: LineScan)
    ensures
        r.checked == is_checked(line@),
        r.checked ==> r.words.deep_view() == words(line@),
{
    let chars = chars_of(line.as_str());
    let a = skip_ws_at(&chars, 0);
    let ws = split_words(&chars);
    let checked = !(a >= chars.len() || chars[a] == '#' || ws.len() == 0);
    LineScan { checked, words: ws }
}

/// The keys of one line: its hostnames, lowercased (`line_keys`).
fn line_keys_of(line: &String) -> (keys: Vec<String>)
    ensures
        keys.deep_view() == line_keys(line@),
{
    let scan = scan_line(line);
    let mut keys: Vec<String> = Vec::new();
    if !scan.checked || scan.words.len() < 2 {
        assert(keys.deep_view() =~= line_keys(line@));
        return keys;
    }
    let ws = &scan.words;
    let ghost wv = ws.deep_view();
    let e = hosts_end_of(ws);
    let mut k: usize = 1;
    while k < e
        invariant
            wv == ws.deep_view(),
            1 <= k <= e <= ws.len(),
            e == hosts_end(wv, 1),
            keys@.len() == k - 1,
            forall|m: int| 0 <= m < k - 1 ==> #[trigger] keys@[m]@ == lowercase(wv[m + 1]),
        decreases e - k,
    {
        keys.push(to_lowercase(ws[k].as_str()));
        k += 1;
    }
    assert(keys.deep_view() =~= line_keys(line@));
    keys
}

/// The issues of line `ln` on its own (`line_issues`).
fn line_issues_of(ln: usize, scan: &LineScan, line: &String) -> (r: Vec<Issue>)
    requires
        scan.checked == is_checked(line@),
        scan.checked ==> scan.words.deep_view() == words(line@),
    ensures
        issues_view(r@) == line_issues(ln as nat, line@),
{
    let mut r: Vec<Issue> = Vec::new();
    if !scan.checked {
        assert(issues_view(r@) =~= line_issues(ln as nat, line@));
        return r;
    }
    let ghost wv = scan.words.deep_view();
    let ip = &scan.words[0];
    assert(ip@ == wv[0]);
    proof {
        reveal_strlit("-");
        reveal_strlit("invalid IP");
        reveal_strlit("missing hostname");
        reveal_strlit("invalid hostname");
    }
    let bad_ip = !is_valid_ip(ip.as_str());
    if bad_ip {
        let d = "-".to_owned();
        let t = "invalid IP".to_owned();
        assert(d@ == dash());
        assert(t@ == invalid_ip_text());
        r.push((ln, ip.clone(), d, t));
    }
    let ghost head: Seq<(nat, Seq<char>, Seq<char>, Seq<char>)> = if bad_ip {
        seq![(ln as nat, wv[0], dash(), invalid_ip_text())]
    } else {
        Seq::empty()
    };
    assert(issues_view(r@) =~= head) by {
        if bad_ip {
            assert(issue_view(r@[0]) == head[0]);
        }
    }
    if scan.words.len() < 2 {
        let d = "-".to_owned();
        let t = "missing hostname".to_owned();
        assert(d@ == dash());
        assert(t@ == missing_hostname_text());
        let ghost prev = r@;
        r.push((ln, ip.clone(), d, t));
        assert(issues_view(r@) =~= head + seq![(ln as nat, wv[0], dash(), missing_hostname_text())])
            by {
            assert(r@ == prev.push(r@.last()));
            assert(issue_view(r@.last()) == (ln as nat, wv[0], dash(), missing_hostname_text()));
            assert forall|m: int| 0 <= m < prev.len() implies issue_view(r@[m]) == head[m] by {
                assert(r@[m] == prev[m]);
                assert(issues_view(prev)[m] == issue_view(prev[m]));
            }
        }
        return r;
    }
    let e = hosts_end_of(&scan.words);
    let ghost hs = line_hosts(wv);
    let mut k: usize = 1;
    while k < e
        invariant
            wv == scan.words.deep_view(),
            ip@ == wv[0],
            1 <= k <= e <= scan.words.len(),
            e == hosts_end(wv, 1),
            hs == wv.subrange(1, e as int),
            issues_view(r@) == head + bad_hosts(ln as nat, wv[0], hs.take(k - 1)),
        decreases e - k,
    {
        let h = &scan.words[k];
        assert(hs.take(k as int).drop_last() =~= hs.take(k - 1));
        assert(hs.take(k as int).last() == h@);
        if !is_valid_hostname(h.as_str()) {
            let ghost prev = r@;
            let t = "invalid hostname".to_owned();
            proof {
                reveal_strlit("invalid hostname");
            }
            assert(t@ == invalid_hostname_text());
            r.push((ln, ip.clone(), h.clone(), t));
            assert(issues_view(r@) =~= issues_view(prev).push(
                (ln as nat, wv[0], h@, invalid_hostname_text()),
            )) by {
                assert forall|m: int| 0 <= m < prev.len() implies issue_view(r@[m])
                    == issues_view(prev)[m] by {
                    assert(r@[m] == prev[m]);
                }
                assert(issue_view(r@[prev.len() as int]) == (
                    ln as nat,
                    wv[0],
                    h@,
                    invalid_hostname_text(),
                ));
            }
        }
        k += 1;
    }
    assert(hs.take(e - 1) =~= hs);
    r
}

/// The `duplicate` issues of one line (`dup_issues`).
fn dup_issues_of(
    ln: usize,
    ip: &String,
    keys: &Vec<String>,
    order: &Vec<String>,
    counts: &Vec<usize>,
    all: Ghost<Seq<Seq<char>>>,
) -> (r: Vec<Issue>)
    requires
        counts@.len() == order@.len(),
        forall|m: int|
            0 <= m < order@.len() ==> #[trigger] counts@[m] == occurrences(all@, order@[m]@),
    ensures
        issues_view(r@) == dup_issues(ln as nat, ip@, keys.deep_view(), order.deep_view(), all@),
{
    let ghost ov = order.deep_view();
    let mut r: Vec<Issue> = Vec::new();
    proof {
        reveal_strlit("duplicate");
    }
    for k in 0..order.len()
        invariant
            ov == order.deep_view(),
            counts@.len() == order@.len(),
            forall|m: int|
                0 <= m < order@.len() ==> #[trigger] counts@[m] == occurrences(all@, order@[m]@),
            issues_view(r@) == dup_issues(ln as nat, ip@, keys.deep_view(), ov.take(k as int), all@),
    {
        assert(ov.take(k + 1).drop_last() =~= ov.take(k as int));
        assert(ov.take(k + 1).last() == order@[k as int]@);
        let ghost prev = issues_view(r@);
        assert forall|m: int| 0 <= m < prev.len() implies #[trigger] issue_view(r@[m]) == prev[m] by {}
        let key = &order[k];
        if counts[k] > 1 {
            let occ = count_of(keys, key);
            for j in 0..occ
                invariant
                    r@.len() == prev.len() + j,
                    forall|m: int| 0 <= m < prev.len() ==> #[trigger] issue_view(r@[m]) == prev[m],
                    forall|m: int|
                        prev.len() <= m < prev.len() + j ==> #[trigger] issue_view(r@[m]) == (
                            ln as nat,
                            ip@,
                            key@,
                            duplicate_text(),
                        ),
            {
                let t = "duplicate".to_owned();
                proof {
                    reveal_strlit("duplicate");
                }
                assert(t@ == duplicate_text());
                r.push((ln, ip.clone(), key.clone(), t));
            }
            assert(issues_view(r@) =~= prev + Seq::new(
                occ as nat,
                |j: int| (ln as nat, ip@, key@, duplicate_text()),
            ));
        } else {
            assert(issues_view(r@) =~= prev);
        }
    }
    assert(ov.take(order.len() as int) =~= ov);
    r
}

/// Checks the lines of a hosts file, given the keys of every line by which
/// duplicates are found; the issues come by line number.
pub fn issues_with_keys(content: &str, keys: &Vec<Vec<String>>) -> (r: Vec<Issue>)
    requires
        keys@.len() == lines(content@).len(),
    ensures
        issues_view(r@) == issues_with(lines(content@), keys.deep_view()),
{
    let ls = lines_of(content);
    let ghost lv = ls.deep_view();
    let ghost kv = keys.deep_view();
    let n = ls.len();
    let mut scans: Vec<LineScan> = Vec::new();
    let mut all: Vec<String> = Vec::new();
    for i in 0..n
        invariant
            n == lv.len(),
            lv == ls.deep_view(),
            kv == keys.deep_view(),
            keys@.len() == n,
            scans@.len() == i,
            forall|m: int|
                0 <= m < i ==> {
                    &&& (#[trigger] scans@[m]).checked == is_checked(lv[m])
                    &&& scans@[m].checked ==> scans@[m].words.deep_view() == words(lv[m])
                },
            all.deep_view() == flat_keys(kv.take(i as int)),
    {
        let scan = scan_line(&ls[i]);
        assert(ls@[i as int]@ == lv[i as int]);
        assert(kv.take(i + 1).drop_last() =~= kv.take(i as int));
        assert(kv.take(i + 1).last() == kv[i as int]);
        let ghost prev = all.deep_view();
        let ks = &keys[i];
        assert(ks.deep_view() == kv[i as int]);
        for j in 0..ks.len()
            invariant
                all@.len() == prev.len() + j,
                forall|m: int| 0 <= m < prev.len() ==> #[trigger] all@[m]@ == prev[m],
                forall|m: int|
                    prev.len() <= m < prev.len() + j ==> #[trigger] all@[m]@ == ks@[m
                        - prev.len()]@,
        {
            all.push(ks[j].clone());
        }
        assert(all.deep_view() =~= prev + ks.deep_view());
        scans.push(scan);
    }
    assert(kv.take(n as int) =~= kv);
    let order = dedup_strings(&all);
    let mut counts: Vec<usize> = Vec::new();
    for k in 0..order.len()
        invariant
            counts@.len() == k,
            forall|m: int|
                0 <= m < k ==> #[trigger] counts@[m] == occurrences(all.deep_view(), order@[m]@),
    {
        counts.push(count_of(&all, &order[k]));
    }
    let ghost f = |i: int| block_with(lv, kv, i);
    let mut out: Vec<Issue> = Vec::new();
    for i in 0..n
        invariant
            n == lv.len(),
            lv == ls.deep_view(),
            kv == keys.deep_view(),
            keys@.len() == n,
            scans@.len() == n,
            forall|m: int|
                0 <= m < n ==> {
                    &&& (#[trigger] scans@[m]).checked == is_checked(lv[m])
                    &&& scans@[m].checked ==> scans@[m].words.deep_view() == words(lv[m])
                },
            all.deep_view() == flat_keys(kv),
            order.deep_view() == dedup(flat_keys(kv)),
            counts@.len() == order@.len(),
            forall|m: int|
                0 <= m < order@.len() ==> #[trigger] counts@[m] == occurrences(
                    all.deep_view(),
                    order@[m]@,
                ),
            f == (|i: int| block_with(lv, kv, i)),
            issues_view(out@) == Seq::new(i as nat, f).flatten(),
    {
        let scan = &scans[i];
        let line = &ls[i];
        assert(line@ == lv[i as int]);
        let ks = &keys[i];
        assert(ks.deep_view() == kv[i as int]);
        let mut block = line_issues_of(i + 1, scan, line);
        if ks.len() > 0 && scan.checked {
            let ip = &scan.words[0];
            let mut dups = dup_issues_of(i + 1, ip, ks, &order, &counts, Ghost(all.deep_view()));
            let ghost bv = issues_view(block@);
            let ghost dv = issues_view(dups@);
            block.append(&mut dups);
            assert(issues_view(block@) =~= bv + dv);
        }
        assert(issues_view(block@) == f(i as int));
        let ghost prev = issues_view(out@);
        let ghost bv2 = issues_view(block@);
        out.append(&mut block);
        assert(issues_view(out@) =~= prev + bv2);
        proof {
            Seq::new(i as nat, f).lemma_flatten_push(f(i as int));
            assert(Seq::new(i as nat, f).push(f(i as int)) =~= Seq::new((i + 1) as nat, f));
        }
    }
    out
}

/// Checks a hosts file; the issues come by line number.
pub fn issues_of(content: &str) -> (r: Vec<Issue>)
    ensures
        issues_view(r@) == issues_spec(content@),
{
    let ls = lines_of(content);
    let ghost lv = ls.deep_view();
    let mut keys: Vec<Vec<String>> = Vec::new();
    for i in 0..ls.len()
        invariant
            lv == ls.deep_view(),
            keys@.len() == i,
            forall|m: int| 0 <= m < i ==> #[trigger] keys@[m].deep_view() == line_keys(lv[m]),
    {
        let k = line_keys_of(&ls[i]);
        keys.push(k);
    }
    assert(keys.deep_view() =~= keys_of(lv)) by {
        assert forall|m: int| 0 <= m < keys@.len() implies #[trigger] keys.deep_view()[m] == keys_of(
            lv,
        )[m] by {
            assert(keys.deep_view()[m] == keys@[m].deep_view());
        }
    }
    issues_with_keys(content, &keys)
}

} // verus!
