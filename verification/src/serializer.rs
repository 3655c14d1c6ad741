//! Writing entries back as hosts-file text.
use crate::model::{Entry, EntryView};
use crate::text::push_char;
use vstd::prelude::*;

verus! {

/// Words joined by single spaces (`[String]::join(" ")`).
pub open spec fn join_words(ws: Seq<Seq<char>>) -> Seq<char>
    decreases ws.len(),
{
    if ws.len() == 0 {
        Seq::empty()
    } else if ws.len() == 1 {
        ws[0]
    } else {
        ws[0] + seq![' '] + join_words(ws.drop_first())
    }
}

/// All hostnames of an entry: the canonical one first, then the aliases.
pub open spec fn hostnames(e: EntryView) -> Seq<Seq<char>> {
    seq![e.canonical] + e.aliases
}

/// The ` # comment` part of a line; absent for no comment or an empty one.
pub open spec fn comment_suffix(c: Option<Seq<char>>) -> Seq<char> {
    match c {
        Some(t) => if t.len() > 0 {
            seq![' ', '#', ' '] + t
        } else {
            Seq::empty()
        },
        None => Seq::empty(),
    }
}

/// The text of the line that stands for an entry (without its newline).
pub open spec fn entry_text(e: EntryView) -> Seq<char> {
    (if e.disabled {
        seq!['#', ' ']
    } else {
        Seq::empty()
    }) + e.ip + seq![' '] + join_words(hostnames(e)) + comment_suffix(e.comment)
}

/// The hosts-file text of a sequence of entries: one line each.
pub open spec fn serialize_spec(es: Seq<EntryView>) -> Seq<char>
    decreases es.len(),
{
    if es.len() == 0 {
        Seq::empty()
    } else {
        entry_text(es[0]) + seq!['\n'] + serialize_spec(es.drop_first())
    }
}

/// Joining one more word adds a space and the word.
pub proof fn lemma_join_words_push(ws: Seq<Seq<char>>, w: Seq<char>)
    requires
        ws.len() > 0,
    ensures
        join_words(ws.push(w)) == join_words(ws) + seq![' '] + w,
    decreases ws.len(),
{
    if ws.len() == 1 {
        assert(ws.push(w).drop_first() =~= seq![w]);
        assert(join_words(seq![w]) == w);
        assert(ws.push(w)[0] == ws[0]);
        assert(join_words(ws) == ws[0]);
        assert(join_words(ws.push(w)) =~= join_words(ws) + seq![' '] + w);
    } else {
        lemma_join_words_push(ws.drop_first(), w);
        assert(ws.push(w).drop_first() =~= ws.drop_first().push(w));
        assert(join_words(ws.push(w)) =~= join_words(ws) + seq![' '] + w);
    }
}

/// Serialising one more entry adds its line.
pub proof fn lemma_serialize_push(es: Seq<EntryView>, e: EntryView)
    ensures
        serialize_spec(es.push(e)) == serialize_spec(es) + entry_text(e) + seq!['\n'],
    decreases es.len(),
{
    if es.len() == 0 {
        assert(es.push(e).drop_first() =~= Seq::<EntryView>::empty());
        assert(serialize_spec(Seq::<EntryView>::empty()) == Seq::<char>::empty());
        assert(es.push(e)[0] == e);
        assert(serialize_spec(es.push(e)) =~= serialize_spec(es) + entry_text(e) + seq!['\n']);
    } else {
        lemma_serialize_push(es.drop_first(), e);
        assert(es.push(e).drop_first() =~= es.drop_first().push(e));
        assert(serialize_spec(es.push(e)) =~= serialize_spec(es) + entry_text(e) + seq!['\n']);
    }
}

/// The hostnames of an entry joined by spaces.
pub fn join_hostnames(e: &Entry) -> (r: String)
    ensures
        r@ == join_words(hostnames(e@)),
{
    let mut r = e.canonical.clone();
    let ghost hs = hostnames(e@);
    assert(hs.take(1) =~= seq![e.canonical@]);
    for k in 0..e.aliases.len()
        invariant
            hs == hostnames(e@),
            r@ == join_words(hs.take(k + 1)),
    {
        proof {
            lemma_join_words_push(hs.take(k + 1), hs[k + 1]);
            assert(hs.take(k + 1).push(hs[k + 1]) =~= hs.take(k + 2));
        }
        push_char(&mut r, ' ');
        r.append(e.aliases[k].as_str());
    }
    assert(hs.take(e.aliases.len() + 1) =~= hs);
    r
}

/// Appends the line of one entry, newline included.
fn push_entry_line(output: &mut String, entry: &Entry)
    ensures
        final(output)@ == old(output)@ + entry_text(entry@) + seq!['\n'],
{
    if entry.disabled {
        push_char(output, '#');
        push_char(output, ' ');
    }
    output.append(entry.ip.as_str());
    push_char(output, ' ');
    let hosts = join_hostnames(entry);
    output.append(hosts.as_str());
    let ghost before_comment = output@;
    if let Some(c) = &entry.comment {
        if !c.as_str().is_empty() {
            push_char(output, ' ');
            push_char(output, '#');
            push_char(output, ' ');
            output.append(c.as_str());
        }
    }
    assert(output@ == before_comment + comment_suffix(entry@.comment));
    push_char(output, '\n');
    assert(final(output)@ =~= old(output)@ + entry_text(entry@) + seq!['\n']);
}

/// Render entries as hosts-file text, one line per entry.
pub fn serialize(entries: &[Entry]) -> (output: String)
    ensures
        output@ == serialize_spec(entries@.map_values(|e: Entry| e@)),
{
    let ghost es = entries@.map_values(|e: Entry| e@);
    let mut output = String::new();
    for i in 0..entries.len()
        invariant
            es == entries@.map_values(|e: Entry| e@),
            output@ == serialize_spec(es.take(i as int)),
    {
        proof {
            lemma_serialize_push(es.take(i as int), es[i as int]);
            assert(es.take(i as int).push(es[i as int]) =~= es.take(i + 1));
        }
        push_entry_line(&mut output, &entries[i]);
    }
    assert(es.take(entries.len() as int) =~= es);
    output
}

} // verus!
