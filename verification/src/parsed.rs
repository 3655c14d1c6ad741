//! What the entries read from any hosts file look like: all of them are
//! written back as they were read, but for an address `#` with a comment.
use crate::model::EntryView;
use crate::parser::{address_start, line_entry, match_line, parse_lines, parse_spec};
use crate::roundtrip::{are_host_words, hash_address, is_storable, is_word};
use crate::serializer::hostnames;
use crate::text::{
    find_char, is_ws, lemma_find_char, lemma_skip_nonws, lemma_skip_nonws_unique, lemma_skip_ws,
    lemma_skip_ws_unique, lemma_trim_end, lines, lines_from, skip_nonws, skip_ws, strip_cr, trim,
    trim_end, trim_start, words, words_from,
};
use vstd::prelude::*;

verus! {

/// An entry as a file can hold it and write it back: storable, or an
/// address `#` with a comment.
pub open spec fn is_readable(e: EntryView) -> bool {
    is_storable(e) || (e.ip == hash_address() && e.comment is Some)
}

/// The lines of a text hold no newline.
proof fn lemma_lines_no_newline(s: Seq<char>, i: int)
    ensures
        forall|k: int, j: int|
            0 <= k < lines_from(s, i).len() && 0 <= j < lines_from(s, i)[k].len() ==> #[trigger] lines_from(
                s,
                i,
            )[k][j] != '\n',
    decreases s.len() - i,
{
    if 0 <= i < s.len() {
        let j = find_char(s, i, '\n');
        lemma_find_char(s, i, '\n');
        let ls = lines_from(s, i);
        if j < s.len() {
            lemma_lines_no_newline(s, j + 1);
            let first = strip_cr(s.subrange(i, j));
            assert forall|k: int, m: int| 0 <= k < ls.len() && 0 <= m < ls[k].len() implies #[trigger] ls[k][m]
                != '\n' by {
                if k == 0 {
                    assert(ls[0] == first);
                    assert(first[m] == s[i + m]);
                } else {
                    assert(ls[k] == lines_from(s, j + 1)[k - 1]);
                }
            }
        } else {
            assert forall|k: int, m: int| 0 <= k < ls.len() && 0 <= m < ls[k].len() implies #[trigger] ls[k][m]
                != '\n' by {
                assert(ls[0][m] == s[i + m]);
            }
        }
    }
}

/// A trimmed text starts and ends with a character that is not white space,
/// and holds no newline when the text holds none.
proof fn lemma_trim_ends(x: Seq<char>)
    ensures
        trim(x).len() > 0 ==> !is_ws(trim(x)[0]) && !is_ws(trim(x).last()),
        (forall|j: int| 0 <= j < x.len() ==> #[trigger] x[j] != '\n') ==> forall|j: int|
            0 <= j < trim(x).len() ==> #[trigger] trim(x)[j] != '\n',
{
    let a = skip_ws(x, 0);
    lemma_skip_ws(x, 0);
    if a < x.len() {
        let e = trim_end(x, x.len() as int);
        lemma_trim_end(x, x.len() as int);
        assert(a < e);
        let t = trim(x);
        assert(t == x.subrange(a, e));
        assert(t[0] == x[a]);
        assert(t.last() == x[e - 1]);
        if forall|j: int| 0 <= j < x.len() ==> #[trigger] x[j] != '\n' {
            assert forall|j: int| 0 <= j < t.len() implies #[trigger] t[j] != '\n' by {
                assert(t[j] == x[a + j]);
            }
        }
    }
}

/// The words of a text are words, and a `#` among them can stand only as the
/// first character of the first one, where the text may hold one at its
/// start and nowhere else.
proof fn lemma_words_hash(s: Seq<char>, i: int)
    requires
        0 <= i <= s.len(),
        forall|m: int| 1 <= m < s.len() ==> #[trigger] s[m] != '#',
    ensures
        forall|k: int| 0 <= k < words_from(s, i).len() ==> is_word(#[trigger] words_from(s, i)[k]),
        forall|k: int, j: int|
            0 <= k < words_from(s, i).len() && 0 <= j < words_from(s, i)[k].len() && (i > 0
                || k > 0 || j > 0) ==> #[trigger] words_from(s, i)[k][j] != '#',
    decreases s.len() - i,
{
    if i < s.len() {
        let a = skip_ws(s, i);
        lemma_skip_ws(s, i);
        if a < s.len() {
            let b = skip_nonws(s, a);
            lemma_skip_nonws(s, a);
            assert(b > a);
            lemma_words_hash(s, b);
            let ws = words_from(s, i);
            let w0 = s.subrange(a, b);
            assert(ws[0] == w0);
            assert forall|k: int| 0 <= k < ws.len() implies is_word(#[trigger] ws[k]) by {
                if k == 0 {
                    assert forall|m: int| 0 <= m < w0.len() implies !is_ws(#[trigger] w0[m]) by {
                        assert(w0[m] == s[a + m]);
                    }
                } else {
                    assert(ws[k] == words_from(s, b)[k - 1]);
                }
            }
            assert forall|k: int, j: int|
                0 <= k < ws.len() && 0 <= j < ws[k].len() && (i > 0 || k > 0 || j > 0) implies #[trigger] ws[k][j]
                != '#' by {
                if k == 0 {
                    assert(w0[j] == s[a + j]);
                } else {
                    assert(ws[k] == words_from(s, b)[k - 1]);
                }
            }
        }
    }
}

/// The words of a non-empty text without white space: the text itself.
proof fn lemma_words_single(t: Seq<char>)
    requires
        t.len() > 0,
        forall|m: int| 0 <= m < t.len() ==> !is_ws(#[trigger] t[m]),
    ensures
        words(t) == seq![t],
{
    lemma_skip_ws_unique(t, 0, 0);
    lemma_skip_nonws_unique(t, 0, t.len() as int);
    assert(t.subrange(0, t.len() as int) =~= t);
    assert(words_from(t, t.len() as int) == Seq::<Seq<char>>::empty());
    assert(words(t) =~= seq![t]);
}

/// The address of a line that reads as an enabled entry starting with `#`:
/// the lone `#`, followed by a single word.
proof fn lemma_hash_line(l: Seq<char>)
    requires
        l.len() > 0,
        !is_ws(l.last()),
        l[0] == '#',
        address_start(l) == Some((false, 0int)),
    ensures
        skip_nonws(l, 0) == 1,
        skip_ws(l, 1) < l.len(),
        forall|m: int| skip_ws(l, 1) <= m < l.len() ==> !is_ws(#[trigger] l[m]),
{
    lemma_skip_nonws(l, 0);
    let q = skip_nonws(l, 0);
    assert(q < l.len());
    if q > 1 {
        lemma_skip_ws_unique(l, 1, 1);
        lemma_skip_nonws_unique(l, 1, q);
        assert(false);
    }
    let s1 = skip_ws(l, 1);
    lemma_skip_ws(l, 1);
    if s1 >= l.len() {
        assert(is_ws(l[l.len() - 1]));
    }
    lemma_skip_nonws(l, s1);
}

/// The entry a trimmed line without newline yields is readable.
proof fn lemma_line_entry_readable(l: Seq<char>, id: nat)
    requires
        l.len() > 0 ==> !is_ws(l[0]) && !is_ws(l.last()),
        forall|j: int| 0 <= j < l.len() ==> #[trigger] l[j] != '\n',
    ensures
        line_entry(l, id) matches Some(e) ==> is_readable(e),
{
    if let Some(e) = line_entry(l, id) {
        let (disabled, p) = address_start(l).unwrap();
        let f = match_line(l).unwrap();
        lemma_skip_ws(l, 1);
        let q = skip_nonws(l, p);
        lemma_skip_nonws(l, p);
        let sq = skip_ws(l, q);
        lemma_skip_ws(l, q);
        let rest = l.subrange(sq, l.len() as int);
        let h = find_char(rest, 1, '#');
        lemma_find_char(rest, 1, '#');
        // The address.
        assert(q > p);
        assert(e.ip == l.subrange(p, q));
        assert forall|m: int| 0 <= m < e.ip.len() implies !is_ws(#[trigger] e.ip[m]) by {
            assert(e.ip[m] == l[p + m]);
        }
        assert(is_word(e.ip));
        // The hostnames.
        let t = rest.subrange(0, h);
        assert forall|m: int| 1 <= m < t.len() implies #[trigger] t[m] != '#' by {
            assert(t[m] == rest[m]);
        }
        lemma_words_hash(t, 0);
        assert(f.hosts == words(t));
        assert(hostnames(e) =~= f.hosts);
        assert(are_host_words(hostnames(e)));
        // The comment.
        if h < rest.len() {
            let after = rest.subrange(h + 1, rest.len() as int);
            let c = trim_start(after);
            lemma_skip_ws(after, 0);
            assert(e.comment == Some(c));
            if c.len() > 0 {
                assert(c.last() == l.last());
                assert forall|m: int| 0 <= m < c.len() implies #[trigger] c[m] != '\n' by {
                    assert(c[m] == l[sq + h + 1 + skip_ws(after, 0) + m]);
                }
            }
        }
        // An enabled address starting with `#`.
        if !e.disabled && e.ip[0] == '#' {
            assert(l[p] == '#');
            if disabled {
                assert(false);
            }
            assert(p == 0);
            lemma_hash_line(l);
            assert(q == 1);
            assert(e.ip =~= hash_address());
            assert(sq == skip_ws(l, 1));
            assert forall|m: int| 0 <= m < rest.len() implies !is_ws(#[trigger] rest[m]) by {
                assert(rest[m] == l[sq + m]);
            }
            assert forall|m: int| 0 <= m < t.len() implies !is_ws(#[trigger] t[m]) by {
                assert(t[m] == rest[m]);
            }
            lemma_words_single(t);
            assert(e.aliases =~= Seq::<Seq<char>>::empty());
        }
    }
}

/// The entries of lines without newlines are readable.
proof fn lemma_parse_lines_readable(ls: Seq<Seq<char>>)
    requires
        forall|k: int, j: int| 0 <= k < ls.len() && 0 <= j < ls[k].len() ==> #[trigger] ls[k][j] != '\n',
    ensures
        forall|m: int| 0 <= m < parse_lines(ls).len() ==> is_readable(#[trigger] parse_lines(ls)[m]),
    decreases ls.len(),
{
    if ls.len() > 0 {
        let init = ls.drop_last();
        assert forall|k: int, j: int| 0 <= k < init.len() && 0 <= j < init[k].len() implies #[trigger] init[k][j]
            != '\n' by {
            assert(init[k] == ls[k]);
        }
        lemma_parse_lines_readable(init);
        let x = ls.last();
        assert forall|j: int| 0 <= j < x.len() implies #[trigger] x[j] != '\n' by {
            assert(x == ls[ls.len() - 1]);
        }
        lemma_trim_ends(x);
        lemma_line_entry_readable(trim(x), parse_lines(init).len() + 1);
    }
}

/// Every entry read from a file is written back as it was read, but for an
/// address `#` with a comment.
pub proof fn lemma_parsed_readable(content: Seq<char>)
    ensures
        forall|k: int|
            0 <= k < parse_spec(content).len() ==> is_readable(#[trigger] parse_spec(content)[k]),
{
    lemma_lines_no_newline(content, 0);
    lemma_parse_lines_readable(lines(content));
}

} // verus!
