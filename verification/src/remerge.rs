//! A merge replaces the blocks an earlier merge wrote: what survives of a
//! merged file when it is merged again is what the earlier merge kept of the
//! file before it.
use crate::cli::join_with;
use crate::merge::{
    merged_spec, section_spec, source_marker, starts_with, unmerged, unmerged_text,
};
use crate::text::{
    find_char, is_ws, lemma_find_char, lemma_find_char_unique, lemma_lines_from_shift,
    lines, lines_from, strip_cr, trim, trim_end,
};
use vstd::prelude::*;

verus! {

/// A line break.
pub open spec fn nl() -> Seq<char> {
    seq!['\n']
}

/// `find_char` stops inside a prefix that ends with the character sought.
proof fn lemma_find_char_prefix(t: Seq<char>, u: Seq<char>, i: int, c: char)
    requires
        0 <= i < t.len(),
        t.last() == c,
    ensures
        find_char(t + u, i, c) == find_char(t, i, c),
        find_char(t, i, c) < t.len(),
    decreases t.len() - i,
{
    let s = t + u;
    assert(s[i] == t[i]);
    if t[i] != c {
        lemma_find_char_prefix(t, u, i + 1, c);
    }
}

proof fn lemma_lines_from_append(a: Seq<char>, b: Seq<char>, i: int)
    requires
        0 <= i <= a.len(),
    ensures
        lines_from(a + nl() + b, i) == lines_from(a + nl(), i) + lines(b),
    decreases a.len() - i,
{
    let t = a + nl();
    let s = t + b;
    assert(a + nl() + b == s);
    lemma_find_char_prefix(t, b, i, '\n');
    lemma_find_char(t, i, '\n');
    let j = find_char(t, i, '\n');
    assert(s.subrange(i, j) =~= t.subrange(i, j));
    if j < a.len() {
        lemma_lines_from_append(a, b, j + 1);
    } else {
        lemma_lines_from_shift(t, b, 0);
        assert(lines_from(t, j + 1) == Seq::<Seq<char>>::empty());
    }
}

/// The lines of a text broken after `a` are the lines of `a` with its break,
/// then the lines of what follows.
pub proof fn lemma_lines_append(a: Seq<char>, b: Seq<char>)
    ensures
        lines(a + nl() + b) == lines(a + nl()) + lines(b),
{
    lemma_lines_from_append(a, b, 0);
}

/// A text without line breaks, with a break after it, is one line.
pub proof fn lemma_lines_one(l: Seq<char>)
    requires
        forall|k: int| 0 <= k < l.len() ==> #[trigger] l[k] != '\n',
    ensures
        lines(l + nl()) == seq![strip_cr(l)],
{
    let s = l + nl();
    lemma_find_char_unique(s, 0, '\n', l.len() as int);
    assert(s.subrange(0, l.len() as int) =~= l);
    assert(lines_from(s, l.len() + 1int) == Seq::<Seq<char>>::empty());
}

/// A non-empty text without line breaks is one line.
pub proof fn lemma_lines_bare(l: Seq<char>)
    requires
        l.len() > 0,
        forall|k: int| 0 <= k < l.len() ==> #[trigger] l[k] != '\n',
    ensures
        lines(l) == seq![l],
{
    lemma_find_char_unique(l, 0, '\n', l.len() as int);
    assert(l.subrange(0, l.len() as int) =~= l);
}

/// Whether reading the lines with `unmerged` ends inside a merged block.
pub open spec fn block_after(ls: Seq<Seq<char>>, in_block: bool) -> bool
    decreases ls.len(),
{
    if ls.len() == 0 {
        in_block
    } else {
        let l = ls[0];
        let rest = ls.subrange(1, ls.len() as int);
        if starts_with(l, source_marker()) {
            block_after(rest, true)
        } else if in_block && trim(l).len() > 0 {
            block_after(rest, true)
        } else {
            block_after(rest, false)
        }
    }
}

/// Reading two runs of lines is reading the first, then the second from
/// where the first left off.
proof fn lemma_unmerged_append(a: Seq<Seq<char>>, b: Seq<Seq<char>>, st: bool)
    ensures
        unmerged(a + b, st) == unmerged(a, st) + unmerged(b, block_after(a, st)),
    decreases a.len(),
{
    if a.len() == 0 {
        assert(a + b =~= b);
    } else {
        let l = a[0];
        let ra = a.subrange(1, a.len() as int);
        assert((a + b)[0] == l);
        assert((a + b).subrange(1, (a + b).len() as int) =~= ra + b);
        if starts_with(l, source_marker()) {
            lemma_unmerged_append(ra, b, true);
        } else if st && trim(l).len() > 0 {
            lemma_unmerged_append(ra, b, true);
        } else {
            lemma_unmerged_append(ra, b, false);
            assert(seq![l] + (unmerged(ra, false) + unmerged(b, block_after(ra, false))) =~= (seq![
                l,
            ] + unmerged(ra, false)) + unmerged(b, block_after(ra, false)));
        }
    }
}

/// Lines that are all blank.
pub open spec fn all_blank(ls: Seq<Seq<char>>) -> bool {
    forall|k: int| 0 <= k < ls.len() ==> trim(#[trigger] ls[k]).len() == 0
}

/// Lines none of which starts a merged block.
pub open spec fn no_marker(ls: Seq<Seq<char>>) -> bool {
    forall|k: int| 0 <= k < ls.len() ==> !starts_with(#[trigger] ls[k], source_marker())
}

/// Outside a block, lines that start no block are all kept.
proof fn lemma_unmerged_plain(a: Seq<Seq<char>>)
    requires
        no_marker(a),
    ensures
        unmerged(a, false) == a,
        !block_after(a, false),
    decreases a.len(),
{
    if a.len() > 0 {
        let ra = a.subrange(1, a.len() as int);
        assert(!starts_with(a[0], source_marker()));
        assert forall|k: int| 0 <= k < ra.len() implies !starts_with(
            #[trigger] ra[k],
            source_marker(),
        ) by {
            assert(ra[k] == a[k + 1]);
        }
        lemma_unmerged_plain(ra);
        assert(seq![a[0]] + ra =~= a);
    }
}

/// A blank line is kept and ends any block.
proof fn lemma_unmerged_blank_first(b: Seq<Seq<char>>, st: bool)
    ensures
        unmerged(seq![Seq::<char>::empty()] + b, st) == seq![Seq::<char>::empty()] + unmerged(
            b,
            false,
        ),
        block_after(seq![Seq::<char>::empty()] + b, st) == block_after(b, false),
{
    let ls = seq![Seq::<char>::empty()] + b;
    assert(ls[0] == Seq::<char>::empty());
    assert(ls.subrange(1, ls.len() as int) =~= b);
    assert(!starts_with(Seq::<char>::empty(), source_marker()));
    assert(trim(Seq::<char>::empty()).len() == 0);
}

/// A text whose merged blocks leave only blank lines behind, read on its own
/// and followed by a line break.
pub open spec fn is_block(s: Seq<char>) -> bool {
    all_blank(unmerged(lines(s), false)) && all_blank(unmerged(lines(s + nl()), false))
}

/// The separator between merged blocks.
pub open spec fn blank_line() -> Seq<char> {
    seq!['\n', '\n']
}

/// Blocks joined by blank lines leave only blank lines behind.
proof fn lemma_join_blocks(ss: Seq<Seq<char>>)
    requires
        ss.len() > 0,
        forall|k: int| 0 <= k < ss.len() ==> is_block(#[trigger] ss[k]),
    ensures
        is_block(join_with(ss, blank_line())),
    decreases ss.len(),
{
    if ss.len() > 1 {
        let rest = ss.drop_last();
        let s = ss.last();
        assert forall|k: int| 0 <= k < rest.len() implies is_block(#[trigger] rest[k]) by {
            assert(rest[k] == ss[k]);
        }
        assert(is_block(s)) by {
            assert(ss[ss.len() - 1] == s);
        }
        lemma_join_blocks(rest);
        let j0 = join_with(rest, blank_line());
        let j = join_with(ss, blank_line());
        assert(j == j0 + blank_line() + s);
        let e = Seq::<char>::empty();
        lemma_lines_one(e);
        assert(e + nl() =~= nl());
        assert(strip_cr(e) == e);
        // the text itself
        assert(j =~= j0 + nl() + (nl() + s));
        lemma_lines_append(j0, nl() + s);
        assert(nl() + s =~= e + nl() + s);
        lemma_lines_append(e, s);
        let a = lines(j0 + nl());
        assert(lines(j) == a + (seq![e] + lines(s)));
        lemma_unmerged_append(a, seq![e] + lines(s), false);
        lemma_unmerged_blank_first(lines(s), block_after(a, false));
        let u = unmerged(lines(j), false);
        assert(u == unmerged(a, false) + (seq![e] + unmerged(lines(s), false)));
        assert forall|k: int| 0 <= k < u.len() implies trim(#[trigger] u[k]).len() == 0 by {
            let ua = unmerged(a, false);
            if k < ua.len() {
                assert(u[k] == ua[k]);
            } else if k == ua.len() {
                assert(u[k] == e);
            } else {
                assert(u[k] == unmerged(lines(s), false)[k - ua.len() - 1]);
            }
        }
        // the text followed by a line break
        assert(j + nl() =~= j0 + nl() + (nl() + (s + nl())));
        lemma_lines_append(j0, nl() + (s + nl()));
        assert(nl() + (s + nl()) =~= e + nl() + (s + nl()));
        lemma_lines_append(e, s + nl());
        assert(lines(j + nl()) == a + (seq![e] + lines(s + nl())));
        lemma_unmerged_append(a, seq![e] + lines(s + nl()), false);
        lemma_unmerged_blank_first(lines(s + nl()), block_after(a, false));
        let w = unmerged(lines(j + nl()), false);
        assert(w == unmerged(a, false) + (seq![e] + unmerged(lines(s + nl()), false)));
        assert forall|k: int| 0 <= k < w.len() implies trim(#[trigger] w[k]).len() == 0 by {
            let ua = unmerged(a, false);
            if k < ua.len() {
                assert(w[k] == ua[k]);
            } else if k == ua.len() {
                assert(w[k] == e);
            } else {
                assert(w[k] == unmerged(lines(s + nl()), false)[k - ua.len() - 1]);
            }
        }
    }
}

/// A line is blank exactly when all its characters are white space.
proof fn lemma_blank(l: Seq<char>)
    ensures
        trim(l).len() == 0 <==> forall|m: int| 0 <= m < l.len() ==> is_ws(#[trigger] l[m]),
{
    crate::text::lemma_skip_ws(l, 0);
    crate::text::lemma_trim_end(l, l.len() as int);
    let a = crate::text::skip_ws(l, 0);
    if a < l.len() {
        assert(!is_ws(l[a]));
        assert(a < trim_end(l, l.len() as int));
    }
}

/// A text without its trailing white space.
pub open spec fn rtrim(x: Seq<char>) -> Seq<char> {
    x.take(trim_end(x, x.len() as int))
}

/// The lines that joining `ls` and trimming the end leaves: the lines up to
/// the last that is not blank, that one without its trailing white space;
/// a single empty line when every line is blank.
pub open spec fn trimmed_lines(ls: Seq<Seq<char>>) -> Seq<Seq<char>>
    decreases ls.len(),
{
    if ls.len() == 0 {
        seq![Seq::empty()]
    } else if trim(ls.last()).len() == 0 {
        trimmed_lines(ls.drop_last())
    } else {
        ls.drop_last().push(rtrim(ls.last()))
    }
}

/// Joined lines, with trailing white space trimmed, are the trimmed lines joined.
proof fn lemma_rtrim_join(ls: Seq<Seq<char>>)
    ensures
        rtrim(join_with(ls, nl())) == join_with(trimmed_lines(ls), nl()),
    decreases ls.len(),
{
    let x = join_with(ls, nl());
    if ls.len() == 0 {
        assert(rtrim(x) =~= Seq::<char>::empty());
    } else {
        let l = ls.last();
        lemma_blank(l);
        crate::text::lemma_trim_end(l, l.len() as int);
        let r = trim_end(l, l.len() as int);
        if ls.len() == 1 {
            assert(x == l);
            if trim(l).len() == 0 {
                crate::text::lemma_trim_end_unique(l, l.len() as int, 0);
                assert(rtrim(x) =~= Seq::<char>::empty());
                assert(trimmed_lines(ls.drop_last()) == seq![Seq::<char>::empty()]);
            } else {
                assert(trimmed_lines(ls) =~= seq![rtrim(l)]);
            }
        } else {
            let k = ls.drop_last();
            let j0 = join_with(k, nl());
            assert(x == j0 + nl() + l);
            let m = j0.len() as int;
            if trim(l).len() == 0 {
                lemma_rtrim_join(k);
                crate::text::lemma_trim_end(j0, m);
                let e = trim_end(j0, m);
                assert forall|i: int| e <= i < x.len() implies is_ws(#[trigger] x[i]) by {
                    if i < m {
                        assert(x[i] == j0[i]);
                    } else if i == m {
                        assert(x[i] == '\n');
                    } else {
                        assert(x[i] == l[i - m - 1]);
                    }
                }
                if e > 0 {
                    assert(x[e - 1] == j0[e - 1]);
                }
                crate::text::lemma_trim_end_unique(x, x.len() as int, e);
                assert(rtrim(x) =~= rtrim(j0));
            } else {
                let e = m + 1 + r;
                assert forall|i: int| e <= i < x.len() implies is_ws(#[trigger] x[i]) by {
                    assert(x[i] == l[i - m - 1]);
                }
                assert(r > 0);
                assert(x[e - 1] == l[r - 1]);
                crate::text::lemma_trim_end_unique(x, x.len() as int, e);
                let t = k.push(rtrim(l));
                assert(t.drop_last() =~= k);
                assert(join_with(t, nl()) == j0 + nl() + rtrim(l));
                assert(rtrim(x) =~= j0 + nl() + rtrim(l));
            }
        }
    }
}

/// Lines without breaks and without a trailing carriage return, joined and
/// followed by a break, read back as the same lines.
proof fn lemma_lines_of_join(ls: Seq<Seq<char>>)
    requires
        ls.len() > 0,
        forall|k: int, m: int|
            0 <= k < ls.len() && 0 <= m < ls[k].len() ==> #[trigger] ls[k][m] != '\n',
        forall|k: int| 0 <= k < ls.len() ==> (#[trigger] ls[k]).len() == 0 || ls[k].last() != '\r',
    ensures
        lines(join_with(ls, nl()) + nl()) == ls,
    decreases ls.len(),
{
    let l = ls.last();
    assert(l == ls[ls.len() - 1]);
    lemma_lines_one(l);
    assert(strip_cr(l) == l);
    if ls.len() == 1 {
        assert(seq![l] =~= ls);
    } else {
        let k = ls.drop_last();
        assert forall|a: int, m: int| 0 <= a < k.len() && 0 <= m < k[a].len() implies #[trigger] k[a][m]
            != '\n' by {
            assert(k[a] == ls[a]);
        }
        assert forall|a: int| 0 <= a < k.len() implies (#[trigger] k[a]).len() == 0 || k[a].last()
            != '\r' by {
            assert(k[a] == ls[a]);
        }
        lemma_lines_of_join(k);
        let j0 = join_with(k, nl());
        assert(join_with(ls, nl()) + nl() =~= j0 + nl() + (l + nl()));
        lemma_lines_append(j0, l + nl());
        assert(k.push(l) =~= ls);
    }
}

/// Lines without line breaks.
pub open spec fn no_breaks(ls: Seq<Seq<char>>) -> bool {
    forall|k: int, m: int| 0 <= k < ls.len() && 0 <= m < ls[k].len() ==> #[trigger] ls[k][m] != '\n'
}

/// Whether a line ends with a carriage return.
pub open spec fn ends_cr(l: Seq<char>) -> bool {
    l.len() > 0 && l.last() == '\r'
}

/// No line ends with a carriage return unless only blank lines follow it.
pub open spec fn cr_only_at_tail(ls: Seq<Seq<char>>) -> bool {
    forall|k: int, j: int|
        0 <= k < j < ls.len() && trim(#[trigger] ls[j]).len() > 0 ==> !ends_cr(#[trigger] ls[k])
}

proof fn lemma_lines_from_no_breaks(s: Seq<char>, i: int)
    ensures
        no_breaks(lines_from(s, i)),
    decreases s.len() - i,
{
    if 0 <= i < s.len() {
        lemma_find_char(s, i, '\n');
        let j = find_char(s, i, '\n');
        if j < s.len() {
            lemma_lines_from_no_breaks(s, j + 1);
            let first = strip_cr(s.subrange(i, j));
            let rest = lines_from(s, j + 1);
            assert forall|k: int, m: int|
                0 <= k < lines_from(s, i).len() && 0 <= m < lines_from(s, i)[k].len() implies #[trigger] lines_from(
                s,
                i,
            )[k][m] != '\n' by {
                if k == 0 {
                    assert(lines_from(s, i)[0] == first);
                    assert(first[m] == s[i + m]);
                } else {
                    assert(lines_from(s, i)[k] == rest[k - 1]);
                }
            }
        } else {
            assert forall|k: int, m: int|
                0 <= k < lines_from(s, i).len() && 0 <= m < lines_from(s, i)[k].len() implies #[trigger] lines_from(
                s,
                i,
            )[k][m] != '\n' by {
                assert(lines_from(s, i)[k] == s.subrange(i, s.len() as int));
                assert(lines_from(s, i)[k][m] == s[i + m]);
            }
        }
    }
}

/// What `unmerged` keeps are lines it was given: no marker lines, and
/// without breaks when the lines had none.
proof fn lemma_unmerged_keeps(ls: Seq<Seq<char>>, st: bool)
    ensures
        no_marker(unmerged(ls, st)),
        no_breaks(ls) ==> no_breaks(unmerged(ls, st)),
    decreases ls.len(),
{
    if ls.len() > 0 {
        let l = ls[0];
        let rest = ls.subrange(1, ls.len() as int);
        if no_breaks(ls) {
            assert forall|k: int, m: int| 0 <= k < rest.len() && 0 <= m < rest[k].len() implies #[trigger] rest[k][m]
                != '\n' by {
                assert(rest[k] == ls[k + 1]);
            }
        }
        if starts_with(l, source_marker()) {
            lemma_unmerged_keeps(rest, true);
        } else if st && trim(l).len() > 0 {
            lemma_unmerged_keeps(rest, true);
        } else {
            lemma_unmerged_keeps(rest, false);
            let u = unmerged(rest, false);
            assert forall|k: int| 0 <= k < unmerged(ls, st).len() implies !starts_with(
                #[trigger] unmerged(ls, st)[k],
                source_marker(),
            ) by {
                if k > 0 {
                    assert(unmerged(ls, st)[k] == u[k - 1]);
                }
            }
            if no_breaks(ls) {
                assert forall|k: int, m: int|
                    0 <= k < unmerged(ls, st).len() && 0 <= m < unmerged(ls, st)[k].len() implies #[trigger] unmerged(
                    ls,
                    st,
                )[k][m] != '\n' by {
                    if k > 0 {
                        assert(unmerged(ls, st)[k] == u[k - 1]);
                    } else {
                        assert(ls[0][m] != '\n');
                    }
                }
            }
        }
    }
}

/// The trimmed lines keep what the lines had: no breaks, no markers, and
/// (where carriage returns come only before blank lines) no trailing
/// carriage return.
proof fn lemma_trimmed_lines(ls: Seq<Seq<char>>)
    requires
        no_breaks(ls),
        no_marker(ls),
        cr_only_at_tail(ls),
    ensures
        trimmed_lines(ls).len() > 0,
        no_breaks(trimmed_lines(ls)),
        no_marker(trimmed_lines(ls)),
        forall|k: int| 0 <= k < trimmed_lines(ls).len() ==> !ends_cr(#[trigger] trimmed_lines(ls)[k]),
    decreases ls.len(),
{
    let t = trimmed_lines(ls);
    if ls.len() == 0 {
        assert(t == seq![Seq::<char>::empty()]);
        assert(!starts_with(Seq::<char>::empty(), source_marker()));
    } else {
        let k = ls.drop_last();
        let l = ls.last();
        assert(l == ls[ls.len() - 1]);
        assert forall|a: int, m: int| 0 <= a < k.len() && 0 <= m < k[a].len() implies #[trigger] k[a][m]
            != '\n' by {
            assert(k[a] == ls[a]);
        }
        assert forall|a: int| 0 <= a < k.len() implies !starts_with(#[trigger] k[a], source_marker()) by {
            assert(k[a] == ls[a]);
        }
        assert forall|a: int, j: int| 0 <= a < j < k.len() && trim(#[trigger] k[j]).len() > 0 implies !ends_cr(
            #[trigger] k[a],
        ) by {
            assert(k[a] == ls[a]);
            assert(k[j] == ls[j]);
        }
        if trim(l).len() == 0 {
            lemma_trimmed_lines(k);
        } else {
            crate::text::lemma_trim_end(l, l.len() as int);
            let r = trim_end(l, l.len() as int);
            let rl = rtrim(l);
            assert(t == k.push(rl));
            assert forall|a: int, m: int| 0 <= a < t.len() && 0 <= m < t[a].len() implies #[trigger] t[a][m]
                != '\n' by {
                if a < k.len() {
                    assert(t[a] == k[a]);
                } else {
                    assert(t[a] == rl);
                    assert(rl[m] == l[m]);
                    assert(l == ls[ls.len() - 1]);
                }
            }
            assert forall|a: int| 0 <= a < t.len() implies !starts_with(#[trigger] t[a], source_marker()) by {
                if a < k.len() {
                    assert(t[a] == k[a]);
                } else {
                    assert(t[a] == rl);
                    if starts_with(rl, source_marker()) {
                        assert(l.take(source_marker().len() as int) =~= rl.take(source_marker().len() as int));
                        assert(starts_with(ls[ls.len() - 1], source_marker()));
                    }
                }
            }
            assert forall|a: int| 0 <= a < t.len() implies !ends_cr(#[trigger] t[a]) by {
                if a < k.len() {
                    assert(t[a] == ls[a]);
                    assert(trim(ls[ls.len() - 1]).len() > 0);
                    assert(!ends_cr(ls[a]));
                } else {
                    assert(t[a] == rl);
                    if rl.len() > 0 {
                        assert(rl.last() == l[r - 1]);
                    }
                }
            }
        }
    }
}

/// Joining two non-empty runs of lines puts a separator between their joins.
proof fn lemma_join_append(a: Seq<Seq<char>>, b: Seq<Seq<char>>, sep: Seq<char>)
    requires
        a.len() > 0,
        b.len() > 0,
    ensures
        join_with(a + b, sep) == join_with(a, sep) + sep + join_with(b, sep),
    decreases b.len(),
{
    let ab = a + b;
    assert(ab.last() == b.last());
    if b.len() == 1 {
        assert(ab.drop_last() =~= a);
        assert(join_with(b, sep) == b[0]);
    } else {
        assert(ab.drop_last() =~= a + b.drop_last());
        lemma_join_append(a, b.drop_last(), sep);
        assert(join_with(ab, sep) =~= join_with(a, sep) + sep + join_with(b, sep));
    }
}

/// Blank lines joined by breaks are all white space.
proof fn lemma_join_blank(ls: Seq<Seq<char>>)
    requires
        all_blank(ls),
    ensures
        forall|i: int| 0 <= i < join_with(ls, nl()).len() ==> is_ws(#[trigger] join_with(ls, nl())[i]),
    decreases ls.len(),
{
    let x = join_with(ls, nl());
    if ls.len() == 1 {
        lemma_blank(ls[0]);
    } else if ls.len() > 1 {
        let k = ls.drop_last();
        let l = ls.last();
        assert forall|a: int| 0 <= a < k.len() implies trim(#[trigger] k[a]).len() == 0 by {
            assert(k[a] == ls[a]);
        }
        lemma_join_blank(k);
        assert(trim(ls[ls.len() - 1]).len() == 0);
        lemma_blank(l);
        let j0 = join_with(k, nl());
        assert forall|i: int| 0 <= i < x.len() implies is_ws(#[trigger] x[i]) by {
            if i < j0.len() {
                assert(x[i] == j0[i]);
            } else if i == j0.len() {
                assert(x[i] == '\n');
            } else {
                assert(x[i] == l[i - j0.len() - 1]);
            }
        }
    }
}

/// Trailing white space does not change what trimming the end leaves.
proof fn lemma_rtrim_ws_suffix(a: Seq<char>, w: Seq<char>)
    requires
        forall|i: int| 0 <= i < w.len() ==> is_ws(#[trigger] w[i]),
    ensures
        rtrim(a + w) == rtrim(a),
        rtrim(rtrim(a)) == rtrim(a),
{
    let x = a + w;
    crate::text::lemma_trim_end(a, a.len() as int);
    let e = trim_end(a, a.len() as int);
    assert forall|i: int| e <= i < x.len() implies is_ws(#[trigger] x[i]) by {
        if i < a.len() {
            assert(x[i] == a[i]);
        } else {
            assert(x[i] == w[i - a.len()]);
        }
    }
    if e > 0 {
        assert(x[e - 1] == a[e - 1]);
    }
    crate::text::lemma_trim_end_unique(x, x.len() as int, e);
    assert(rtrim(x) =~= rtrim(a));
    let p = rtrim(a);
    if e > 0 {
        assert(p[e - 1] == a[e - 1]);
    }
    crate::text::lemma_trim_end_unique(p, p.len() as int, e);
    assert(rtrim(p) =~= p);
}

/// Merging again into a merged file: the earlier blocks (each of which
/// leaves only blank lines behind) are dropped, and what remains is what the
/// earlier merge kept of the file before it, so the result is the same as
/// merging into that file.
proof fn lemma_merge_over_blocks(existing: Seq<char>, sections: Seq<Seq<char>>, later: Seq<Seq<char>>)
    requires
        forall|k: int| 0 <= k < sections.len() ==> is_block(#[trigger] sections[k]),
        cr_only_at_tail(unmerged(lines(existing), false)),
    ensures
        merged_spec(merged_spec(existing, sections), later) == merged_spec(existing, later),
{
    let kept = unmerged(lines(existing), false);
    lemma_lines_from_no_breaks(existing, 0);
    lemma_unmerged_keeps(lines(existing), false);
    lemma_trimmed_lines(kept);
    let tl = trimmed_lines(kept);
    let u = unmerged_text(existing);
    assert(u == join_with(kept, nl()));
    lemma_rtrim_join(kept);
    let p = rtrim(u);
    assert(p == join_with(tl, nl()));
    lemma_lines_of_join(tl);
    let j = join_with(sections, blank_line());
    let m = merged_spec(existing, sections);
    assert(m == p + blank_line() + j);
    let e = Seq::<char>::empty();
    assert(m =~= p + nl() + (nl() + j));
    lemma_lines_append(p, nl() + j);
    assert(nl() + j =~= e + nl() + j);
    lemma_lines_append(e, j);
    lemma_lines_one(e);
    assert(e + nl() =~= nl());
    assert(strip_cr(e) == e);
    assert(lines(m) == tl + (seq![e] + lines(j)));
    let w = unmerged(lines(j), false);
    if sections.len() == 0 {
        assert(j == e);
        assert(lines(e) == Seq::<Seq<char>>::empty());
        assert(w == Seq::<Seq<char>>::empty());
    } else {
        lemma_join_blocks(sections);
    }
    assert(all_blank(w));
    lemma_unmerged_append(tl, seq![e] + lines(j), false);
    lemma_unmerged_plain(tl);
    lemma_unmerged_blank_first(lines(j), block_after(tl, false));
    let tail = seq![e] + w;
    assert(unmerged(lines(m), false) == tl + tail);
    assert forall|k: int| 0 <= k < tail.len() implies trim(#[trigger] tail[k]).len() == 0 by {
        if k > 0 {
            assert(tail[k] == w[k - 1]);
        } else {
            assert(tail[k] == e);
        }
    }
    lemma_join_append(tl, tail, nl());
    let um = unmerged_text(m);
    assert(um == p + (nl() + join_with(tail, nl())));
    lemma_join_blank(tail);
    let ws = nl() + join_with(tail, nl());
    assert forall|i: int| 0 <= i < ws.len() implies is_ws(#[trigger] ws[i]) by {
        if i > 0 {
            assert(ws[i] == join_with(tail, nl())[i - 1]);
        }
    }
    lemma_rtrim_ws_suffix(p, ws);
    lemma_rtrim_ws_suffix(u, Seq::<char>::empty());
    assert(rtrim(um) == p);
}

/// A text without line breaks.
pub open spec fn no_break(t: Seq<char>) -> bool {
    forall|m: int| 0 <= m < t.len() ==> #[trigger] t[m] != '\n'
}

/// Lines none of which is blank.
pub open spec fn none_blank(ls: Seq<Seq<char>>) -> bool {
    forall|k: int| 0 <= k < ls.len() ==> trim(#[trigger] ls[k]).len() > 0
}

proof fn lemma_pieces_from_no_break(s: Seq<char>, i: int, c: char)
    requires
        no_break(s),
    ensures
        no_breaks(crate::addr::pieces_from(s, i, c)),
    decreases s.len() - i,
{
    let ps = crate::addr::pieces_from(s, i, c);
    if 0 <= i <= s.len() {
        lemma_find_char(s, i, c);
        let j = find_char(s, i, c);
        if j < s.len() {
            lemma_pieces_from_no_break(s, j + 1, c);
            let rest = crate::addr::pieces_from(s, j + 1, c);
            assert forall|k: int, m: int| 0 <= k < ps.len() && 0 <= m < ps[k].len() implies #[trigger] ps[k][m]
                != '\n' by {
                if k == 0 {
                    assert(ps[0] == s.subrange(i, j));
                    assert(ps[0][m] == s[i + m]);
                } else {
                    assert(ps[k] == rest[k - 1]);
                }
            }
        } else {
            assert forall|k: int, m: int| 0 <= k < ps.len() && 0 <= m < ps[k].len() implies #[trigger] ps[k][m]
                != '\n' by {
                assert(ps[k] == s.subrange(i, s.len() as int));
                assert(ps[k][m] == s[i + m]);
            }
        }
    }
}

proof fn lemma_file_name_no_break(parts: Seq<Seq<char>>)
    requires
        no_breaks(parts),
    ensures
        no_break(crate::merge::file_name(parts)),
    decreases parts.len(),
{
    if parts.len() > 0 {
        let k = parts.drop_last();
        assert forall|a: int, m: int| 0 <= a < k.len() && 0 <= m < k[a].len() implies #[trigger] k[a][m]
            != '\n' by {
            assert(k[a] == parts[a]);
        }
        lemma_file_name_no_break(k);
        let p = parts.last();
        assert forall|m: int| 0 <= m < p.len() implies #[trigger] p[m] != '\n' by {
            assert(parts[parts.len() - 1][m] == p[m]);
        }
    }
}

/// Entry lines are lines of the source that are not blank.
proof fn lemma_entry_lines(ls: Seq<Seq<char>>)
    requires
        no_breaks(ls),
    ensures
        no_breaks(crate::merge::entry_lines(ls)),
        none_blank(crate::merge::entry_lines(ls)),
    decreases ls.len(),
{
    if ls.len() > 0 {
        let k = ls.drop_last();
        assert forall|a: int, m: int| 0 <= a < k.len() && 0 <= m < k[a].len() implies #[trigger] k[a][m]
            != '\n' by {
            assert(k[a] == ls[a]);
        }
        lemma_entry_lines(k);
        let p = crate::merge::entry_lines(k);
        let l = ls.last();
        if crate::merge::is_entry_text(l) {
            let q = p.push(l);
            assert forall|a: int, m: int| 0 <= a < q.len() && 0 <= m < q[a].len() implies #[trigger] q[a][m]
                != '\n' by {
                if a < p.len() {
                    assert(q[a] == p[a]);
                } else {
                    assert(ls[ls.len() - 1][m] == l[m]);
                }
            }
            assert forall|a: int| 0 <= a < q.len() implies trim(#[trigger] q[a]).len() > 0 by {
                if a < p.len() {
                    assert(q[a] == p[a]);
                }
            }
        }
    }
}

/// Taking a trailing carriage return off a line that is not blank leaves
/// it not blank.
proof fn lemma_strip_cr_nonblank(l: Seq<char>)
    requires
        trim(l).len() > 0,
    ensures
        trim(strip_cr(l)).len() > 0,
{
    lemma_blank(l);
    let m = choose|m: int| 0 <= m < l.len() && !is_ws(l[m]);
    lemma_blank(strip_cr(l));
    if l.len() > 0 && l.last() == '\r' {
        assert(m < l.len() - 1);
        assert(strip_cr(l)[m] == l[m]);
    }
}

/// Lines that are not blank, joined by breaks, read back as lines that are
/// not blank, with or without a break after them.
proof fn lemma_lines_join_nonblank(ls: Seq<Seq<char>>)
    requires
        ls.len() > 0,
        no_breaks(ls),
        none_blank(ls),
    ensures
        none_blank(lines(join_with(ls, nl()))),
        none_blank(lines(join_with(ls, nl()) + nl())),
    decreases ls.len(),
{
    let l = ls.last();
    assert(l == ls[ls.len() - 1]);
    assert(trim(l).len() > 0);
    assert forall|m: int| 0 <= m < l.len() implies #[trigger] l[m] != '\n' by {
        assert(ls[ls.len() - 1][m] == l[m]);
    }
    lemma_blank(l);
    lemma_lines_one(l);
    lemma_strip_cr_nonblank(l);
    if ls.len() == 1 {
        lemma_lines_bare(l);
        assert(join_with(ls, nl()) == l);
    } else {
        let k = ls.drop_last();
        assert forall|a: int, m: int| 0 <= a < k.len() && 0 <= m < k[a].len() implies #[trigger] k[a][m]
            != '\n' by {
            assert(k[a] == ls[a]);
        }
        assert forall|a: int| 0 <= a < k.len() implies trim(#[trigger] k[a]).len() > 0 by {
            assert(k[a] == ls[a]);
        }
        lemma_lines_join_nonblank(k);
        let j0 = join_with(k, nl());
        let a0 = lines(j0 + nl());
        assert(join_with(ls, nl()) == j0 + nl() + l);
        lemma_lines_append(j0, l);
        lemma_lines_bare(l);
        let x = a0 + seq![l];
        assert forall|a: int| 0 <= a < x.len() implies trim(#[trigger] x[a]).len() > 0 by {
            if a < a0.len() {
                assert(x[a] == a0[a]);
            }
        }
        assert(join_with(ls, nl()) + nl() =~= j0 + nl() + (l + nl()));
        lemma_lines_append(j0, l + nl());
        let y = a0 + seq![strip_cr(l)];
        assert forall|a: int| 0 <= a < y.len() implies trim(#[trigger] y[a]).len() > 0 by {
            if a < a0.len() {
                assert(y[a] == a0[a]);
            }
        }
    }
}

/// Inside a block, lines that are not blank are all dropped.
proof fn lemma_unmerged_inside(ls: Seq<Seq<char>>)
    requires
        none_blank(ls),
    ensures
        unmerged(ls, true) == Seq::<Seq<char>>::empty(),
    decreases ls.len(),
{
    if ls.len() > 0 {
        let rest = ls.subrange(1, ls.len() as int);
        assert forall|k: int| 0 <= k < rest.len() implies trim(#[trigger] rest[k]).len() > 0 by {
            assert(rest[k] == ls[k + 1]);
        }
        assert(trim(ls[0]).len() > 0);
        lemma_unmerged_inside(rest);
    }
}

/// The block a merge writes for a source leaves only blank lines behind,
/// when neither the source nor the date holds a line break.
proof fn lemma_section_is_block(src: Seq<char>, date: Seq<char>, content: Seq<char>)
    requires
        no_break(src),
        no_break(date),
    ensures
        is_block(section_spec(src, date, content)),
{
    let label = crate::merge::label_spec(src);
    if !crate::merge::is_url_text(src) {
        lemma_pieces_from_no_break(src, 0, '/');
        lemma_file_name_no_break(crate::addr::pieces(src, '/'));
    }
    assert(no_break(label));
    let mk = source_marker();
    let h = mk + seq![' '] + label + seq![' ', '\u{2014}', ' '] + date;
    assert forall|m: int| 0 <= m < h.len() implies #[trigger] h[m] != '\n' by {
        let a = mk.len() as int;
        let b = a + 1 + label.len();
        if m < a {
            assert(h[m] == mk[m]);
        } else if m == a {
        } else if m < b {
            assert(h[m] == label[m - a - 1]);
        } else if m < b + 3 {
        } else {
            assert(h[m] == date[m - b - 3]);
        }
    }
    let hs = strip_cr(h);
    assert(starts_with(hs, mk)) by {
        assert(hs.take(mk.len() as int) =~= mk);
    }
    let ls = lines(content);
    lemma_lines_from_no_breaks(content, 0);
    lemma_entry_lines(ls);
    let el = crate::merge::entry_lines(ls);
    let body = crate::merge::strip_spec(content);
    assert(body == join_with(el, nl()));
    let sec = section_spec(src, date, content);
    assert(sec =~= h + nl() + body);
    lemma_lines_one(h);
    lemma_lines_append(h, body);
    assert(sec + nl() =~= h + nl() + (body + nl()));
    lemma_lines_append(h, body + nl());
    let e = Seq::<char>::empty();
    if el.len() == 0 {
        assert(body == e);
        assert(lines(e) == Seq::<Seq<char>>::empty());
        lemma_lines_one(e);
        assert(e + nl() =~= nl());
        assert(body + nl() =~= nl());
        assert(strip_cr(e) == e);
    } else {
        lemma_lines_join_nonblank(el);
        lemma_unmerged_inside(lines(body));
        lemma_unmerged_inside(lines(body + nl()));
    }
    let a1 = seq![hs] + lines(body);
    assert(a1[0] == hs);
    assert(a1.subrange(1, a1.len() as int) =~= lines(body));
    let a2 = seq![hs] + lines(body + nl());
    assert(a2[0] == hs);
    assert(a2.subrange(1, a2.len() as int) =~= lines(body + nl()));
    assert(lines(sec) == a1);
    assert(lines(sec + nl()) == a2);
    assert(unmerged(a1, false) == unmerged(lines(body), true));
    assert(unmerged(a2, false) == unmerged(lines(body + nl()), true));
    if el.len() == 0 {
        let one = seq![e];
        assert(lines(body + nl()) == one);
        assert(one[0] == e);
        assert(one.subrange(1, 1) =~= Seq::<Seq<char>>::empty());
        assert(trim(e).len() == 0);
        assert(!starts_with(e, mk));
        assert(unmerged(one, true) == seq![e] + unmerged(Seq::<Seq<char>>::empty(), false));
        assert(unmerged(one, true) =~= seq![e]);
        assert(all_blank(unmerged(one, true)));
        assert(all_blank(unmerged(Seq::<Seq<char>>::empty(), true)));
    }
}

/// The blocks a merge writes, one per source, all under one date.
pub open spec fn sections_of(srcs: Seq<Seq<char>>, date: Seq<char>, contents: Seq<Seq<char>>) -> Seq<
    Seq<char>,
> {
    Seq::new(srcs.len(), |k: int| section_spec(srcs[k], date, contents[k]))
}

/// A merge replaces the blocks an earlier merge wrote: merging into the file
/// an earlier merge wrote gives what merging into the file before that merge
/// gives. Stated for sources and dates without line breaks, and for files in
/// which no line that the earlier merge kept ends with a carriage return
/// before a line that is not blank.
pub proof fn lemma_merge_replaces_earlier_merge(
    existing: Seq<char>,
    srcs: Seq<Seq<char>>,
    contents: Seq<Seq<char>>,
    date: Seq<char>,
    later: Seq<Seq<char>>,
)
    requires
        srcs.len() == contents.len(),
        forall|k: int| 0 <= k < srcs.len() ==> no_break(#[trigger] srcs[k]),
        no_break(date),
        cr_only_at_tail(unmerged(lines(existing), false)),
    ensures
        merged_spec(merged_spec(existing, sections_of(srcs, date, contents)), later)
            == merged_spec(existing, later),
{
    let ss = sections_of(srcs, date, contents);
    assert forall|k: int| 0 <= k < ss.len() implies is_block(#[trigger] ss[k]) by {
        lemma_section_is_block(srcs[k], date, contents[k]);
    }
    lemma_merge_over_blocks(existing, ss, later);
}

} // verus!
