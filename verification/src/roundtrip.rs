//! What a saved hosts file reads back as.
use crate::addr::is_ip_text;
use crate::model::EntryView;
use crate::parser::{address_start, line_entry, match_line, parse_lines, parse_spec};
use crate::serializer::{comment_suffix, entry_text, hostnames, join_words, serialize_spec};
use crate::text::{
    is_ws, lemma_find_char_unique, lemma_lines_cons, lemma_skip_nonws_unique, lemma_skip_ws_unique,
    lemma_trim_end_unique, lemma_words_from_blank, lemma_words_from_shift, lemma_words_from_ws_step,
    lines, trim, trim_start, words,
};
use vstd::prelude::*;

verus! {

/// A non-empty run of characters without white space.
pub open spec fn is_word(w: Seq<char>) -> bool {
    w.len() > 0 && forall|k: int| 0 <= k < w.len() ==> !is_ws(#[trigger] w[k])
}

/// Hostnames that a line reads back as: words in which a `#` can stand
/// only as the first character of the first one.
pub open spec fn are_host_words(hs: Seq<Seq<char>>) -> bool {
    &&& forall|k: int| 0 <= k < hs.len() ==> is_word(#[trigger] hs[k])
    &&& forall|k: int, j: int|
        0 <= k < hs.len() && 0 <= j < hs[k].len() && (k > 0 || j > 0) ==> #[trigger] hs[k][j]
            != '#'
}

/// A comment that a line keeps: none, an empty one (which is not written),
/// or one without a newline and without white space at either end.
pub open spec fn is_storable_comment(c: Option<Seq<char>>) -> bool {
    match c {
        Some(t) => t.len() == 0 || (!is_ws(t[0]) && !is_ws(t.last()) && forall|k: int|
            0 <= k < t.len() ==> #[trigger] t[k] != '\n'),
        None => true,
    }
}

/// The address `#`, which a line holds when a lone `#` is followed by a
/// single word.
pub open spec fn hash_address() -> Seq<char> {
    seq!['#']
}

/// An entry whose line reads back as the same entry: its address is a word
/// (an IP address when the entry is disabled); an enabled entry's address
/// does not start with `#`, unless it is `#` itself with one hostname and
/// no comment; its hostnames read back as themselves and its comment is
/// storable.
pub open spec fn is_storable(e: EntryView) -> bool {
    &&& is_word(e.ip)
    &&& e.disabled ==> is_ip_text(e.ip)
    &&& !e.disabled && e.ip[0] == '#' ==> e.ip == hash_address() && e.aliases.len() == 0
        && e.comment is None
    &&& are_host_words(hostnames(e))
    &&& is_storable_comment(e.comment)
}

/// The comment as it reads back: an empty comment is not written.
pub open spec fn stored_comment(c: Option<Seq<char>>) -> Option<Seq<char>> {
    match c {
        Some(t) => if t.len() == 0 {
            None
        } else {
            Some(t)
        },
        None => None,
    }
}

/// An entry as it reads back from its line, under the id the reader gives it.
pub open spec fn reloaded(e: EntryView, id: nat) -> EntryView {
    EntryView {
        id,
        ip: e.ip,
        canonical: e.canonical,
        aliases: e.aliases,
        comment: stored_comment(e.comment),
        disabled: e.disabled,
        raw: Some(entry_text(e)),
    }
}

/// The characters of joined hostnames: no `#` after the first, and white
/// space only where the separators stand; it starts and ends with a hostname
/// character.
proof fn lemma_join_chars(hs: Seq<Seq<char>>)
    requires
        hs.len() > 0,
        are_host_words(hs),
    ensures
        join_words(hs).len() > 0,
        join_words(hs)[0] == hs[0][0],
        join_words(hs).last() == hs.last().last(),
        forall|k: int|
            0 <= k < join_words(hs).len() ==> #[trigger] join_words(hs)[k] == ' ' || !is_ws(
                join_words(hs)[k],
            ),
        forall|k: int| 1 <= k < join_words(hs).len() ==> #[trigger] join_words(hs)[k] != '#',
    decreases hs.len(),
{
    let h = hs[0];
    assert(is_word(hs[0]));
    assert forall|k: int| 1 <= k < h.len() implies #[trigger] h[k] != '#' by {
        assert(hs[0][k] != '#');
    }
    if hs.len() > 1 {
        let rest = hs.drop_first();
        assert forall|k: int| 0 <= k < rest.len() implies is_word(#[trigger] rest[k]) by {
            assert(rest[k] == hs[k + 1]);
        }
        assert forall|k: int, j: int|
            0 <= k < rest.len() && 0 <= j < rest[k].len() implies #[trigger] rest[k][j] != '#' by {
            assert(rest[k] == hs[k + 1]);
            assert(hs[k + 1][j] != '#');
        }
        lemma_join_chars(rest);
        let rj = join_words(rest);
        let j = join_words(hs);
        assert(j == h + seq![' '] + rj);
        assert(rj[0] == hs[1][0]);
        assert(is_word(hs[1]));
        assert(hs[1][0] != '#');
        assert forall|k: int| 0 <= k < j.len() implies #[trigger] j[k] == ' ' || !is_ws(j[k]) by {
            if k < h.len() {
                assert(j[k] == h[k]);
            } else if k > h.len() {
                assert(j[k] == rj[k - h.len() - 1]);
            }
        }
        assert forall|k: int| 1 <= k < j.len() implies #[trigger] j[k] != '#' by {
            if k < h.len() {
                assert(j[k] == h[k]);
            } else if k > h.len() {
                assert(j[k] == rj[k - h.len() - 1]);
            }
        }
    }
}

/// The words of joined hostnames, followed by white space, are the hostnames.
proof fn lemma_words_join(hs: Seq<Seq<char>>, tail: Seq<char>)
    requires
        hs.len() > 0,
        forall|k: int| 0 <= k < hs.len() ==> is_word(#[trigger] hs[k]),
        forall|k: int| 0 <= k < tail.len() ==> is_ws(#[trigger] tail[k]),
    ensures
        words(join_words(hs) + tail) == hs,
    decreases hs.len(),
{
    let h = hs[0];
    assert(is_word(hs[0]));
    if hs.len() == 1 {
        let s = h + tail;
        assert(join_words(hs) == h);
        lemma_skip_ws_unique(s, 0, 0);
        lemma_skip_nonws_unique(s, 0, h.len() as int);
        lemma_words_from_blank(s, h.len() as int);
        assert(s.subrange(0, h.len() as int) =~= h);
        assert(words(s) =~= hs);
    } else {
        let rest = hs.drop_first();
        assert forall|k: int| 0 <= k < rest.len() implies is_word(#[trigger] rest[k]) by {
            assert(rest[k] == hs[k + 1]);
        }
        lemma_words_join(rest, tail);
        let r = join_words(rest) + tail;
        let p = h + seq![' '];
        let s = join_words(hs) + tail;
        assert(s =~= p + r);
        lemma_skip_ws_unique(s, 0, 0);
        lemma_skip_nonws_unique(s, 0, h.len() as int);
        lemma_words_from_ws_step(s, h.len() as int);
        lemma_words_from_shift(p, r, 0);
        assert(s.subrange(0, h.len() as int) =~= h);
        assert(words(s) =~= seq![h] + rest);
    }
}

/// The line of an enabled entry with address `#`: the lone `#` is its
/// address, as the single word after it leaves no room for another.
proof fn lemma_hash_address_start(e: EntryView)
    requires
        is_storable(e),
        !e.disabled,
        e.ip[0] == '#',
    ensures
        address_start(entry_text(e)) == Some((false, 0int)),
{
    let hs = hostnames(e);
    lemma_join_chars(hs);
    let jn = join_words(hs);
    let l = entry_text(e);
    assert(e.ip =~= seq!['#']);
    assert(hs =~= seq![e.canonical]);
    assert(jn == hs[0]);
    assert(is_word(hs[0]));
    assert(comment_suffix(e.comment) =~= Seq::<char>::empty());
    assert(l =~= seq!['#', ' '] + jn);
    lemma_skip_ws_unique(l, 1, 2);
    assert forall|k: int| 2 <= k < l.len() implies !is_ws(#[trigger] l[k]) by {
        assert(l[k] == jn[k - 2]);
    }
    lemma_skip_nonws_unique(l, 2, l.len() as int);
    lemma_skip_nonws_unique(l, 0, 1);
}

/// The fields the line pattern captures on the line of a storable entry.
proof fn lemma_match_entry_text(e: EntryView)
    requires
        is_storable(e),
    ensures
        match_line(entry_text(e)) matches Some(f) && f.disabled == e.disabled && f.ip == e.ip
            && f.hosts == hostnames(e) && f.comment == stored_comment(e.comment),
{
    let hs = hostnames(e);
    lemma_join_chars(hs);
    let jn = join_words(hs);
    let c = comment_suffix(e.comment);
    let pre: Seq<char> = if e.disabled {
        seq!['#', ' ']
    } else {
        Seq::empty()
    };
    let l = entry_text(e);
    let rest = jn + c;
    let p = pre.len() as int;
    let q = p + e.ip.len();
    assert(l =~= pre + e.ip + seq![' '] + rest);
    assert(hs[0] == e.canonical);
    assert(is_word(hs[0]));
    assert forall|k: int| p <= k < q implies !is_ws(#[trigger] l[k]) by {
        assert(l[k] == e.ip[k - p]);
    }
    assert(l[q] == ' ');
    assert(l[q + 1] == jn[0]);
    if e.disabled {
        assert(l[0] == '#');
        assert(l[1] == ' ');
        lemma_skip_ws_unique(l, 1, 2);
    } else {
        assert(l[0] == e.ip[0]);
        if e.ip[0] == '#' {
            lemma_hash_address_start(e);
        }
    }
    lemma_skip_nonws_unique(l, p, q);
    assert(address_start(l) == Some((e.disabled, p)));
    lemma_skip_ws_unique(l, q, q + 1);
    assert(l.subrange(q + 1, l.len() as int) =~= rest);
    assert(l.subrange(p, q) =~= e.ip);
    assert forall|k: int| 1 <= k < jn.len() implies #[trigger] rest[k] != '#' by {
        assert(rest[k] == jn[k]);
    }
    if c.len() > 0 {
        let t = e.comment.unwrap();
        let n = jn.len() as int;
        assert(rest[n] == ' ');
        assert(rest[n + 1] == '#');
        lemma_find_char_unique(rest, 1, '#', n + 1);
        assert(rest.subrange(0, n + 1) =~= jn + seq![' ']);
        lemma_words_join(hs, seq![' ']);
        let after = rest.subrange(n + 2, rest.len() as int);
        assert(after =~= seq![' '] + t);
        lemma_skip_ws_unique(after, 0, 1);
        assert(trim_start(after) =~= t);
    } else {
        assert(rest =~= jn);
        lemma_find_char_unique(rest, 1, '#', rest.len() as int);
        assert(rest.subrange(0, rest.len() as int) =~= jn);
        lemma_words_join(hs, Seq::empty());
        assert(jn + Seq::<char>::empty() =~= jn);
    }
}

/// The line of a storable entry is already trimmed and reads back as the entry.
pub proof fn lemma_line_entry_of_text(e: EntryView, id: nat)
    requires
        is_storable(e),
    ensures
        trim(entry_text(e)) == entry_text(e),
        line_entry(entry_text(e), id) == Some(reloaded(e, id)),
        forall|k: int| 0 <= k < entry_text(e).len() ==> #[trigger] entry_text(e)[k] != '\n',
        entry_text(e).len() > 0 && entry_text(e).last() != '\r',
{
    lemma_match_entry_text(e);
    let hs = hostnames(e);
    lemma_join_chars(hs);
    let jn = join_words(hs);
    let c = comment_suffix(e.comment);
    let pre: Seq<char> = if e.disabled {
        seq!['#', ' ']
    } else {
        Seq::empty()
    };
    let l = entry_text(e);
    assert(l =~= pre + e.ip + seq![' '] + jn + c);
    let p = pre.len() as int;
    let q = p + e.ip.len();
    if e.disabled {
        assert(l[0] == '#');
    } else {
        assert(l[0] == e.ip[0]);
    }
    if c.len() > 0 {
        let t = e.comment.unwrap();
        assert(l.last() == t.last());
    } else {
        assert(hs.last() == hs[hs.len() - 1]);
        assert(is_word(hs[hs.len() - 1]));
        assert(l.last() == jn.last());
    }
    assert(hs.drop_first() =~= e.aliases);
    assert(hs[0] == e.canonical);
    assert(line_entry(l, id) == Some(reloaded(e, id)));
    lemma_skip_ws_unique(l, 0, 0);
    lemma_trim_end_unique(l, l.len() as int, l.len() as int);
    assert(trim(l) =~= l);
    assert forall|k: int| 0 <= k < l.len() implies #[trigger] l[k] != '\n' by {
        if k < p {
        } else if k < q {
            assert(l[k] == e.ip[k - p]);
        } else if k == q {
        } else if k < q + 1 + jn.len() {
            assert(l[k] == jn[k - q - 1]);
        } else {
            let t = e.comment.unwrap();
            let m = k - q - 1 - jn.len();
            assert(l[k] == c[m]);
            if m >= 3 {
                assert(c[m] == t[m - 3]);
            }
        }
    }
}

/// The entries of the lines of storable entries.
proof fn lemma_parse_texts(es: Seq<EntryView>)
    requires
        forall|k: int| 0 <= k < es.len() ==> is_storable(#[trigger] es[k]),
    ensures
        parse_lines(es.map_values(|e: EntryView| entry_text(e))) == es.map(
            |k: int, e: EntryView| reloaded(e, (k + 1) as nat),
        ),
    decreases es.len(),
{
    let ls = es.map_values(|e: EntryView| entry_text(e));
    if es.len() > 0 {
        let init = es.drop_last();
        assert forall|k: int| 0 <= k < init.len() implies is_storable(#[trigger] init[k]) by {
            assert(init[k] == es[k]);
        }
        lemma_parse_texts(init);
        assert(ls.drop_last() =~= init.map_values(|e: EntryView| entry_text(e)));
        let e = es.last();
        assert(is_storable(es[es.len() - 1]));
        lemma_line_entry_of_text(e, es.len() as nat);
        assert(ls.last() == entry_text(e));
        assert(parse_lines(ls) =~= es.map(|k: int, e: EntryView| reloaded(e, (k + 1) as nat)));
    } else {
        assert(ls =~= Seq::<Seq<char>>::empty());
    }
}

/// The lines of serialised storable entries are their texts.
proof fn lemma_lines_serialized(es: Seq<EntryView>)
    requires
        forall|k: int| 0 <= k < es.len() ==> is_storable(#[trigger] es[k]),
    ensures
        lines(serialize_spec(es)) == es.map_values(|e: EntryView| entry_text(e)),
    decreases es.len(),
{
    if es.len() > 0 {
        let rest = es.drop_first();
        assert forall|k: int| 0 <= k < rest.len() implies is_storable(#[trigger] rest[k]) by {
            assert(rest[k] == es[k + 1]);
        }
        lemma_lines_serialized(rest);
        assert(is_storable(es[0]));
        lemma_line_entry_of_text(es[0], 1);
        lemma_lines_cons(entry_text(es[0]), serialize_spec(rest));
        assert(lines(serialize_spec(es)) =~= es.map_values(|e: EntryView| entry_text(e)));
    } else {
        assert(lines(Seq::<char>::empty()) =~= Seq::<Seq<char>>::empty());
        assert(es.map_values(|e: EntryView| entry_text(e)) =~= Seq::<Seq<char>>::empty());
    }
}

/// Saving then loading gives back every storable entry: its address,
/// hostnames, disabled flag and comment (an empty comment is not written and
/// reads back as none), with ids counted from 1 and the written line as its
/// raw text.
pub proof fn lemma_parse_serialize_roundtrip(es: Seq<EntryView>)
    requires
        forall|k: int| 0 <= k < es.len() ==> is_storable(#[trigger] es[k]),
    ensures
        parse_spec(serialize_spec(es)) == es.map(|k: int, e: EntryView| reloaded(e, (k + 1) as nat)),
{
    lemma_lines_serialized(es);
    lemma_parse_texts(es);
}

} // verus!
