//! Merging hosts lists from other sources into a hosts file: labelling a
//! source, keeping only its entry lines, dropping earlier merged blocks,
//! and refusing URLs whose host resolves to a private or reserved address.
use crate::addr::{is_ip_text, pieces, split_chars};
use crate::cli::{join_strings, join_with};
use crate::text::{
    chars_of, find_char, find_char_at, is_whitespace, same_chars, lemma_find_char, lines, lines_of, push_char,
    slice_chars, split_words, string_of, trim, trim_bounds, trim_end, words,
};
use crate::validation::is_valid_ip;
use vstd::prelude::*;

verus! {

/// Whether `s` begins with `p`.
pub open spec fn starts_with(s: Seq<char>, p: Seq<char>) -> bool {
    p.len() <= s.len() && s.take(p.len() as int) == p
}

/// The scheme prefix `http://`.
pub open spec fn http_scheme() -> Seq<char> {
    seq!['h', 't', 't', 'p', ':', '/', '/']
}

/// The scheme prefix `https://`.
pub open spec fn https_scheme() -> Seq<char> {
    seq!['h', 't', 't', 'p', 's', ':', '/', '/']
}

/// Whether a source names a URL rather than a file.
pub open spec fn is_url_text(s: Seq<char>) -> bool {
    starts_with(s, http_scheme()) || starts_with(s, https_scheme())
}

/// Tests whether `s` begins with `p`.
fn has_prefix(s: &Vec<char>, p: &Vec<char>) -> (b: bool)
    ensures
        b == starts_with(s@, p@),
{
    if p.len() > s.len() {
        return false;
    }
    let mut i: usize = 0;
    while i < p.len()
        invariant
            i <= p.len() <= s.len(),
            forall|k: int| 0 <= k < i ==> s@[k] == p@[k],
        decreases p.len() - i,
    {
        if s[i] != p[i] {
            assert(s@.take(p.len() as int)[i as int] != p@[i as int]);
            return false;
        }
        i += 1;
    }
    assert(s@.take(p.len() as int) =~= p@);
    true
}

fn http_chars() -> (v: Vec<char>)
    ensures
        v@ == http_scheme(),
{
    let v = vec!['h', 't', 't', 'p', ':', '/', '/'];
    assert(v@ =~= http_scheme());
    v
}

fn https_chars() -> (v: Vec<char>)
    ensures
        v@ == https_scheme(),
{
    let v = vec!['h', 't', 't', 'p', 's', ':', '/', '/'];
    assert(v@ =~= https_scheme());
    v
}

/// Whether a source is fetched over HTTP (`http://` or `https://`) rather
/// than read from a file.
pub fn is_url(src: &str) -> (b: bool)
    ensures
        b == is_url_text(src@),
{
    let s = chars_of(src);
    has_prefix(&s, &http_chars()) || has_prefix(&s, &https_chars())
}

/// The last name of a path (`Path::file_name`): the last of its `/`
/// separated parts that is neither empty nor `.`; nothing when that part is
/// `..` or there is none.
pub open spec fn file_name(parts: Seq<Seq<char>>) -> Seq<char>
    decreases parts.len(),
{
    if parts.len() == 0 {
        Seq::empty()
    } else {
        let p = parts.last();
        if p.len() == 0 || p == seq!['.'] {
            file_name(parts.drop_last())
        } else if p == seq!['.', '.'] {
            Seq::empty()
        } else {
            p
        }
    }
}

/// How a merged block names its source: a URL as it is, a file by its name.
pub open spec fn label_spec(src: Seq<char>) -> Seq<char> {
    if is_url_text(src) {
        src
    } else {
        file_name(pieces(src, '/'))
    }
}

/// The label of a merged source.
pub fn src_label(src: &str) -> (label: String)
    ensures
        label@ == label_spec(src@),
{
    if is_url(src) {
        return src.to_string();
    }
    let s = chars_of(src);
    let parts = split_chars(&s, '/');
    let ghost pv = pieces(s@, '/');
    let dot = vec!['.'];
    let dots = vec!['.', '.'];
    assert(dot@ =~= seq!['.']);
    assert(dots@ =~= seq!['.', '.']);
    let mut k = parts.len();
    assert(pv.take(k as int) =~= pv);
    while k > 0
        invariant
            k <= parts@.len() == pv.len(),
            pv == pieces(s@, '/'),
            s@ == src@,
            !is_url_text(src@),
            dot@ == seq!['.'],
            dots@ == seq!['.', '.'],
            forall|m: int| 0 <= m < parts@.len() ==> #[trigger] parts@[m]@ == pv[m],
            file_name(pv.take(k as int)) == file_name(pv),
        decreases k,
    {
        let p = &parts[k - 1];
        assert(pv.take(k as int).drop_last() =~= pv.take(k - 1));
        assert(pv.take(k as int).last() == p@);
        if p.len() == 0 || same_chars(p, &dot) {
            k -= 1;
        } else if same_chars(p, &dots) {
            return String::new();
        } else {
            return string_of(p, 0, p.len());
        }
    }
    String::new()
}

} // verus!

verus! {

/// Whether a line of a merged source is kept: not blank, not a comment,
/// and its first word an IP address.
pub open spec fn is_entry_text(l: Seq<char>) -> bool {
    let t = trim(l);
    t.len() > 0 && t[0] != '#' && words(l).len() > 0 && is_ip_text(words(l)[0])
}

/// The lines that are kept, in order.
pub open spec fn entry_lines(ls: Seq<Seq<char>>) -> Seq<Seq<char>>
    decreases ls.len(),
{
    if ls.len() == 0 {
        Seq::empty()
    } else if is_entry_text(ls.last()) {
        entry_lines(ls.drop_last()).push(ls.last())
    } else {
        entry_lines(ls.drop_last())
    }
}

/// A source's text reduced to its entry lines, joined by newlines.
pub open spec fn strip_spec(content: Seq<char>) -> Seq<char> {
    join_with(entry_lines(lines(content)), seq!['\n'])
}

/// Keeps only the lines of a source that look like hosts entries.
pub fn strip_comments(content: &str) -> (r: String)
    ensures
        r@ == strip_spec(content@),
{
    let ls = lines_of(content);
    let ghost lv = ls.deep_view();
    let mut keep: Vec<String> = Vec::new();
    for i in 0..ls.len()
        invariant
            lv == ls.deep_view(),
            keep.deep_view() == entry_lines(lv.take(i as int)),
    {
        let line = &ls[i];
        assert(lv.take(i + 1).drop_last() =~= lv.take(i as int));
        assert(lv.take(i + 1).last() == line@);
        let c = chars_of(line.as_str());
        let (a, b) = trim_bounds(&c);
        let mut kept = false;
        if a < b && c[a] != '#' {
            let ws = split_words(&c);
            if ws.len() > 0 && is_valid_ip(ws[0].as_str()) {
                kept = true;
            }
        }
        assert(kept == is_entry_text(line@)) by {
            if a < b {
                assert(trim(c@)[0] == c@[a as int]);
            }
        }
        if kept {
            let ghost prev = keep.deep_view();
            keep.push(line.clone());
            assert(keep.deep_view() =~= prev.push(line@));
        }
    }
    assert(lv.take(ls.len() as int) =~= lv);
    let r = join_strings(&keep, "\n");
    proof {
        reveal_strlit("\n");
        assert("\n"@ =~= seq!['\n']);
    }
    r
}

/// The first line of a merged block: `### source:`.
pub open spec fn source_marker() -> Seq<char> {
    seq!['#', '#', '#', ' ', 's', 'o', 'u', 'r', 'c', 'e', ':']
}

/// The lines that survive when earlier merged blocks are dropped, reading
/// from the front: a marker line starts a block (and is dropped), lines
/// that are not blank inside a block are dropped, and a blank line ends
/// the block (and is kept).
pub open spec fn unmerged(ls: Seq<Seq<char>>, in_block: bool) -> Seq<Seq<char>>
    decreases ls.len(),
{
    if ls.len() == 0 {
        Seq::empty()
    } else {
        let l = ls[0];
        let rest = ls.subrange(1, ls.len() as int);
        if starts_with(l, source_marker()) {
            unmerged(rest, true)
        } else if in_block && trim(l).len() > 0 {
            unmerged(rest, true)
        } else {
            seq![l] + unmerged(rest, false)
        }
    }
}

/// A hosts file's text without the blocks of earlier merges.
pub open spec fn unmerged_text(content: Seq<char>) -> Seq<char> {
    join_with(unmerged(lines(content), false), seq!['\n'])
}

fn marker_chars() -> (v: Vec<char>)
    ensures
        v@ == source_marker(),
{
    let v = vec!['#', '#', '#', ' ', 's', 'o', 'u', 'r', 'c', 'e', ':'];
    assert(v@ =~= source_marker());
    v
}

/// Drops the blocks that earlier merges wrote.
pub fn remove_previous_merges(content: &str) -> (r: String)
    ensures
        r@ == unmerged_text(content@),
{
    let ls = lines_of(content);
    let ghost lv = ls.deep_view();
    let marker = marker_chars();
    let mut result: Vec<String> = Vec::new();
    let mut in_block = false;
    assert(lv.subrange(0, lv.len() as int) =~= lv);
    assert(result.deep_view() + unmerged(lv, false) =~= unmerged(lv, false));
    for i in 0..ls.len()
        invariant
            lv == ls.deep_view(),
            marker@ == source_marker(),
            result.deep_view() + unmerged(lv.subrange(i as int, lv.len() as int), in_block)
                == unmerged(lv, false),
    {
        let line = &ls[i];
        let ghost tail = lv.subrange(i as int, lv.len() as int);
        assert(tail[0] == line@);
        assert(tail.subrange(1, tail.len() as int) =~= lv.subrange(i + 1, lv.len() as int));
        let c = chars_of(line.as_str());
        if has_prefix(&c, &marker) {
            in_block = true;
        } else {
            let (a, b) = trim_bounds(&c);
            if in_block && a < b {
                in_block = true;
            } else {
                let ghost prev = result.deep_view();
                result.push(line.clone());
                assert(result.deep_view() =~= prev.push(line@));
                assert(prev + unmerged(tail, in_block) =~= result.deep_view() + unmerged(
                    lv.subrange(i + 1, lv.len() as int),
                    false,
                ));
                in_block = false;
            }
        }
    }
    assert(lv.subrange(ls.len() as int, lv.len() as int) =~= Seq::<Seq<char>>::empty());
    assert(result.deep_view() + Seq::<Seq<char>>::empty() =~= result.deep_view());
    let r = join_strings(&result, "\n");
    proof {
        reveal_strlit("\n");
        assert("\n"@ =~= seq!['\n']);
    }
    r
}

} // verus!

verus! {

/// The block a merge writes for one source: a marker line naming the
/// source and the date, then the source's entry lines.
pub open spec fn section_spec(src: Seq<char>, date: Seq<char>, content: Seq<char>) -> Seq<char> {
    source_marker() + seq![' '] + label_spec(src) + seq![' ', '\u{2014}', ' '] + date + seq!['\n']
        + strip_spec(content)
}

/// Appends characters to a string.
fn push_chars(out: &mut String, cs: &Vec<char>)
    ensures
        final(out)@ == old(out)@ + cs@,
{
    for i in 0..cs.len()
        invariant
            out@ == old(out)@ + cs@.take(i as int),
    {
        push_char(out, cs[i]);
        assert(out@ =~= old(out)@ + cs@.take(i + 1));
    }
    assert(cs@.take(cs.len() as int) =~= cs@);
}

/// Builds the block a merge writes for one source, whose text is `content`.
pub fn merge_section(src: &str, date: &str, content: &str) -> (r: String)
    ensures
        r@ == section_spec(src@, date@, content@),
{
    let mut r = String::new();
    push_chars(&mut r, &marker_chars());
    push_char(&mut r, ' ');
    let label = src_label(src);
    push_chars(&mut r, &chars_of(label.as_str()));
    push_char(&mut r, ' ');
    push_char(&mut r, '\u{2014}');
    push_char(&mut r, ' ');
    push_chars(&mut r, &chars_of(date));
    push_char(&mut r, '\n');
    let body = strip_comments(content);
    push_chars(&mut r, &chars_of(body.as_str()));
    assert(r@ =~= section_spec(src@, date@, content@));
    r
}

/// The text a merge writes: the hosts file without earlier merged blocks
/// and without trailing white space, a blank line, then the new blocks
/// separated by blank lines.
pub open spec fn merged_spec(existing: Seq<char>, sections: Seq<Seq<char>>) -> Seq<char> {
    let p = unmerged_text(existing);
    p.take(trim_end(p, p.len() as int)) + seq!['\n', '\n'] + join_with(sections, seq!['\n', '\n'])
}

/// Composes the merged hosts file from its current text and the new blocks.
pub fn merge_output(existing: &str, sections: &Vec<String>) -> (r: String)
    ensures
        r@ == merged_spec(existing@, sections.deep_view()),
{
    let preserved = remove_previous_merges(existing);
    let c = chars_of(preserved.as_str());
    let mut e = c.len();
    while e > 0 && is_whitespace(c[e - 1])
        invariant
            e <= c.len(),
            trim_end(c@, e as int) == trim_end(c@, c.len() as int),
        decreases e,
    {
        e -= 1;
    }
    let mut r = string_of(&c, 0, e);
    push_char(&mut r, '\n');
    push_char(&mut r, '\n');
    let joined = join_strings(sections, "\n\n");
    proof {
        reveal_strlit("\n\n");
        assert("\n\n"@ =~= seq!['\n', '\n']);
    }
    push_chars(&mut r, &chars_of(joined.as_str()));
    assert(c@.take(e as int) =~= c@.subrange(0, e as int));
    assert(r@ =~= merged_spec(existing@, sections.deep_view()));
    r
}

/// `s` with every leading `p` removed (`str::trim_start_matches`).
pub open spec fn strip_all(s: Seq<char>, p: Seq<char>) -> Seq<char>
    decreases s.len(),
{
    if p.len() > 0 && starts_with(s, p) {
        strip_all(s.subrange(p.len() as int, s.len() as int), p)
    } else {
        s
    }
}

/// `s` up to its first `c` (the first item of `str::split`).
pub open spec fn before(s: Seq<char>, c: char) -> Seq<char> {
    s.take(find_char(s, 0, c))
}

/// The host a URL names: both scheme prefixes removed (each as often as it
/// repeats), then what precedes the first `/`, then what precedes the first `:`.
pub open spec fn host_spec(url: Seq<char>) -> Seq<char> {
    before(before(strip_all(strip_all(url, http_scheme()), https_scheme()), '/'), ':')
}

/// Removes every leading `p`.
fn strip_prefixes(s: &Vec<char>, p: &Vec<char>) -> (r: Vec<char>)
    requires
        p.len() > 0,
    ensures
        r@ == strip_all(s@, p@),
{
    let mut cur = slice_chars(s, 0, s.len());
    assert(cur@ =~= s@);
    while has_prefix(&cur, p)
        invariant
            p.len() > 0,
            strip_all(cur@, p@) == strip_all(s@, p@),
        decreases cur.len(),
    {
        cur = slice_chars(&cur, p.len(), cur.len());
    }
    cur
}

/// `s` up to its first `c`.
fn before_char(s: &Vec<char>, c: char) -> (r: Vec<char>)
    ensures
        r@ == before(s@, c),
{
    let j = find_char_at(s, 0, c);
    proof {
        lemma_find_char(s@, 0, c);
    }
    slice_chars(s, 0, j)
}

/// The host to resolve for a URL; `None` when the URL names no host.
pub fn url_host(url: &str) -> (host: Option<String>)
    ensures
        host matches Some(h) ==> h@ == host_spec(url@) && h@.len() > 0,
        host is None <==> host_spec(url@).len() == 0,
{
    let u = chars_of(url);
    let a = strip_prefixes(&u, &http_chars());
    let b = strip_prefixes(&a, &https_chars());
    let c = before_char(&b, '/');
    let h = before_char(&c, ':');
    if h.len() == 0 {
        None
    } else {
        Some(string_of(&h, 0, h.len()))
    }
}

/// An address a URL's host resolved to, by its bytes.
#[derive(Debug, Clone, Copy)]
pub enum ResolvedAddr {
    V4([u8; 4]),
    V6([u8; 16]),
}

/// A private, loopback, link-local, multicast, broadcast or `0.x.x.x` IPv4 address.
pub open spec fn v4_blocked(o: Seq<u8>) -> bool {
    ||| o[0] == 10
    ||| (o[0] == 172 && 16 <= o[1] <= 31)
    ||| (o[0] == 192 && o[1] == 168)
    ||| o[0] == 127
    ||| (o[0] == 169 && o[1] == 254)
    ||| (224 <= o[0] <= 239)
    ||| (o[0] == 255 && o[1] == 255 && o[2] == 255 && o[3] == 255)
    ||| o[0] == 0
}

/// Whether the bytes of an IPv6 address before index `n` are all zero.
pub open spec fn zero_upto(o: Seq<u8>, n: int) -> bool {
    forall|k: int| 0 <= k < n ==> o[k] == 0
}

/// A loopback (`::1`), multicast (`ff00::/8`), unspecified (`::`),
/// link-local (`fe80::/10` and above in its second byte) or unique-local
/// (`fc00::/7`) IPv6 address.
pub open spec fn v6_blocked(o: Seq<u8>) -> bool {
    ||| (zero_upto(o, 15) && o[15] == 1)
    ||| o[0] == 0xff
    ||| zero_upto(o, 16)
    ||| (o[0] == 0xfe && o[1] >= 0x80)
    ||| o[0] == 0xfc
    ||| o[0] == 0xfd
}

/// Whether requests to an address are refused.
pub open spec fn addr_blocked(a: ResolvedAddr) -> bool {
    match a {
        ResolvedAddr::V4(o) => v4_blocked(o@),
        ResolvedAddr::V6(o) => v6_blocked(o@),
    }
}

/// Whether the first `n` bytes are zero.
fn zero_prefix(o: &[u8; 16], n: usize) -> (b: bool)
    requires
        n <= 16,
    ensures
        b == zero_upto(o@, n as int),
{
    let mut i: usize = 0;
    while i < n
        invariant
            i <= n <= 16,
            o@.len() == 16,
            zero_upto(o@, i as int),
        decreases n - i,
    {
        if o[i] != 0 {
            return false;
        }
        i += 1;
    }
    true
}

/// Whether requests to an address are refused.
pub fn is_blocked(a: &ResolvedAddr) -> (b: bool)
    ensures
        b == addr_blocked(*a),
{
    match a {
        ResolvedAddr::V4(o) => {
            let (x, y, z, w) = (o[0], o[1], o[2], o[3]);
            x == 10 || (x == 172 && 16 <= y && y <= 31) || (x == 192 && y == 168) || x == 127 || (
            x == 169 && y == 254) || (224 <= x && x <= 239) || (x == 255 && y == 255 && z == 255
                && w == 255) || x == 0
        },
        ResolvedAddr::V6(o) => {
            (zero_prefix(o, 15) && o[15] == 1) || o[0] == 0xff || zero_prefix(o, 16) || (o[0]
                == 0xfe && o[1] >= 0x80) || o[0] == 0xfc || o[0] == 0xfd
        },
    }
}

/// The first address that is refused, if any.
pub fn first_blocked(addrs: &[ResolvedAddr]) -> (r: Option<usize>)
    ensures
        r matches Some(i) ==> i < addrs@.len() && addr_blocked(addrs@[i as int]) && forall|j: int|
            0 <= j < i ==> !addr_blocked(#[trigger] addrs@[j]),
        r is None ==> forall|j: int| 0 <= j < addrs@.len() ==> !addr_blocked(#[trigger] addrs@[j]),
{
    for i in 0..addrs.len()
        invariant
            forall|j: int| 0 <= j < i ==> !addr_blocked(#[trigger] addrs@[j]),
    {
        if is_blocked(&addrs[i]) {
            return Some(i);
        }
    }
    None
}

/// `Merged <n> source(s) → <target>`.
pub open spec fn merged_message(n: nat, target: Seq<char>) -> Seq<char> {
    "Merged "@ + crate::store::decimal(n) + " source(s) \u{2192} "@ + target
}

/// Reports a merge of `n` sources into `target`.
pub fn merged_text(n: usize, target: &str) -> (r: String)
    ensures
        r@ == merged_message(n as nat, target@),
{
    let mut r = "Merged ".to_owned();
    r.append(crate::store::decimal_text(n).as_str());
    r.append(" source(s) \u{2192} ");
    r.append(target);
    r
}

} // verus!
