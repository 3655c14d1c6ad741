//! Character-level helpers shared by the parser, the serialiser and the editors:
//! white space, trimming, splitting into words and into lines.
use vstd::prelude::*;

verus! {

/// The Unicode `White_Space` property: the set that `char::is_whitespace`,
/// `str::trim`, `str::split_whitespace` and the regex class `\s` all use.
pub open spec fn is_ws(c: char) -> bool {
    let u = c as u32;
    (0x09 <= u && u <= 0x0d) || u == 0x20 || u == 0x85 || u == 0xa0 || u == 0x1680 || (0x2000
        <= u && u <= 0x200a) || u == 0x2028 || u == 0x2029 || u == 0x202f || u == 0x205f || u
        == 0x3000
}

/// Tests whether `c` is white space.
pub fn is_whitespace(c: char) -> (b: bool)
    ensures
        b == is_ws(c),
{
    let u = c as u32;
    (0x09 <= u && u <= 0x0d) || u == 0x20 || u == 0x85 || u == 0xa0 || u == 0x1680 || (0x2000
        <= u && u <= 0x200a) || u == 0x2028 || u == 0x2029 || u == 0x202f || u == 0x205f || u
        == 0x3000
}

/// Calls `String::push`; the contract claims that the character is appended
/// to the text and nothing else changes.
#[verifier::external_body]
pub(crate) fn push_char(s: &mut String, c: char)
    ensures
        final(s)@ == old(s)@.push(c),
{
    s.push(c);
}

/// The characters of a string slice, in order.
pub fn chars_of(s: &str) -> (v: Vec<char>)
    ensures
        v@ == s@,
{
    let mut v: Vec<char> = Vec::new();
    for c in it: s.chars()
        invariant
            v@ == it.seq().take(it.index() as int),
            it.seq() == s@,
    {
        v.push(c);
    }
    v
}

/// A `String` holding `s[lo..hi]`.
pub fn string_of(s: &Vec<char>, lo: usize, hi: usize) -> (r: String)
    requires
        lo <= hi <= s.len(),
    ensures
        r@ == s@.subrange(lo as int, hi as int),
{
    let mut r = String::new();
    let mut i = lo;
    while i < hi
        invariant
            lo <= i <= hi <= s.len(),
            r@ == s@.subrange(lo as int, i as int),
        decreases hi - i,
    {
        push_char(&mut r, s[i]);
        i += 1;
        assert(r@ =~= s@.subrange(lo as int, i as int));
    }
    r
}

/// A `Vec` holding `s[lo..hi]`.
pub fn slice_chars(s: &Vec<char>, lo: usize, hi: usize) -> (r: Vec<char>)
    requires
        lo <= hi <= s.len(),
    ensures
        r@ == s@.subrange(lo as int, hi as int),
{
    let mut r: Vec<char> = Vec::new();
    let mut i = lo;
    while i < hi
        invariant
            lo <= i <= hi <= s.len(),
            r@ == s@.subrange(lo as int, i as int),
        decreases hi - i,
    {
        r.push(s[i]);
        i += 1;
        assert(r@ =~= s@.subrange(lo as int, i as int));
    }
    r
}

/// First index at or after `i` that is not white space, or `s.len()`.
pub open spec fn skip_ws(s: Seq<char>, i: int) -> int
    decreases s.len() - i,
{
    if i >= s.len() {
        s.len() as int
    } else if is_ws(s[i]) {
        skip_ws(s, i + 1)
    } else {
        i
    }
}

/// First index at or after `i` that is white space, or `s.len()`.
pub open spec fn skip_nonws(s: Seq<char>, i: int) -> int
    decreases s.len() - i,
{
    if i >= s.len() {
        s.len() as int
    } else if !is_ws(s[i]) {
        skip_nonws(s, i + 1)
    } else {
        i
    }
}

/// First index at or after `i` holding `c`, or `s.len()`.
pub open spec fn find_char(s: Seq<char>, i: int, c: char) -> int
    decreases s.len() - i,
{
    if i >= s.len() {
        s.len() as int
    } else if s[i] == c {
        i
    } else {
        find_char(s, i + 1, c)
    }
}

/// `skip_ws` stops at the first character that is not white space.
pub proof fn lemma_skip_ws(s: Seq<char>, i: int)
    requires
        0 <= i <= s.len(),
    ensures
        i <= skip_ws(s, i) <= s.len(),
        forall|k: int| i <= k < skip_ws(s, i) ==> is_ws(#[trigger] s[k]),
        skip_ws(s, i) < s.len() ==> !is_ws(s[skip_ws(s, i)]),
    decreases s.len() - i,
{
    if i < s.len() && is_ws(s[i]) {
        lemma_skip_ws(s, i + 1);
    }
}

/// `skip_ws` is determined by the white-space run it skips.
pub proof fn lemma_skip_ws_unique(s: Seq<char>, i: int, j: int)
    requires
        0 <= i <= j <= s.len(),
        forall|k: int| i <= k < j ==> is_ws(#[trigger] s[k]),
        j < s.len() ==> !is_ws(s[j]),
    ensures
        skip_ws(s, i) == j,
    decreases j - i,
{
    if i < j {
        lemma_skip_ws_unique(s, i + 1, j);
    }
}

/// `skip_nonws` stops at the first white-space character.
pub proof fn lemma_skip_nonws(s: Seq<char>, i: int)
    requires
        0 <= i <= s.len(),
    ensures
        i <= skip_nonws(s, i) <= s.len(),
        forall|k: int| i <= k < skip_nonws(s, i) ==> !is_ws(#[trigger] s[k]),
        skip_nonws(s, i) < s.len() ==> is_ws(s[skip_nonws(s, i)]),
    decreases s.len() - i,
{
    if i < s.len() && !is_ws(s[i]) {
        lemma_skip_nonws(s, i + 1);
    }
}

/// `skip_nonws` is determined by the run of non-white-space it skips.
pub proof fn lemma_skip_nonws_unique(s: Seq<char>, i: int, j: int)
    requires
        0 <= i <= j <= s.len(),
        forall|k: int| i <= k < j ==> !is_ws(#[trigger] s[k]),
        j < s.len() ==> is_ws(s[j]),
    ensures
        skip_nonws(s, i) == j,
    decreases j - i,
{
    if i < j {
        lemma_skip_nonws_unique(s, i + 1, j);
    }
}

/// `find_char` stops at the first occurrence of the character.
pub proof fn lemma_find_char(s: Seq<char>, i: int, c: char)
    requires
        0 <= i <= s.len(),
    ensures
        i <= find_char(s, i, c) <= s.len(),
        forall|k: int| i <= k < find_char(s, i, c) ==> #[trigger] s[k] != c,
        find_char(s, i, c) < s.len() ==> s[find_char(s, i, c)] == c,
    decreases s.len() - i,
{
    if i < s.len() && s[i] != c {
        lemma_find_char(s, i + 1, c);
    }
}

/// `find_char` is determined by the first occurrence it stops at.
pub proof fn lemma_find_char_unique(s: Seq<char>, i: int, c: char, j: int)
    requires
        0 <= i <= j <= s.len(),
        forall|k: int| i <= k < j ==> #[trigger] s[k] != c,
        j < s.len() ==> s[j] == c,
    ensures
        find_char(s, i, c) == j,
    decreases j - i,
{
    if i < j {
        lemma_find_char_unique(s, i + 1, c, j);
    }
}

/// Returns `skip_ws(s, i)`.
pub fn skip_ws_at(s: &Vec<char>, i: usize) -> (j: usize)
    requires
        i <= s.len(),
    ensures
        j == skip_ws(s@, i as int),
        i <= j <= s.len(),
{
    let mut j = i;
    while j < s.len() && is_whitespace(s[j])
        invariant
            i <= j <= s.len(),
            skip_ws(s@, j as int) == skip_ws(s@, i as int),
        decreases s.len() - j,
    {
        j += 1;
    }
    j
}

/// Returns `skip_nonws(s, i)`.
pub fn skip_nonws_at(s: &Vec<char>, i: usize) -> (j: usize)
    requires
        i <= s.len(),
    ensures
        j == skip_nonws(s@, i as int),
        i <= j <= s.len(),
{
    let mut j = i;
    while j < s.len() && !is_whitespace(s[j])
        invariant
            i <= j <= s.len(),
            skip_nonws(s@, j as int) == skip_nonws(s@, i as int),
        decreases s.len() - j,
    {
        j += 1;
    }
    j
}

/// Returns `find_char(s, i, c)`.
pub fn find_char_at(s: &Vec<char>, i: usize, c: char) -> (j: usize)
    requires
        i <= s.len(),
    ensures
        j == find_char(s@, i as int, c),
        i <= j <= s.len(),
{
    let mut j = i;
    while j < s.len() && s[j] != c
        invariant
            i <= j <= s.len(),
            find_char(s@, j as int, c) == find_char(s@, i as int, c),
        decreases s.len() - j,
    {
        j += 1;
    }
    j
}

/// End of `s[..k]` once trailing white space is dropped.
pub open spec fn trim_end(s: Seq<char>, k: int) -> int
    decreases k,
{
    if k <= 0 {
        0
    } else if is_ws(s[k - 1]) {
        trim_end(s, k - 1)
    } else {
        k
    }
}

/// `trim_end` stops after the last character that is not white space.
pub proof fn lemma_trim_end(s: Seq<char>, k: int)
    requires
        0 <= k <= s.len(),
    ensures
        0 <= trim_end(s, k) <= k,
        forall|m: int| trim_end(s, k) <= m < k ==> is_ws(#[trigger] s[m]),
        trim_end(s, k) > 0 ==> !is_ws(s[trim_end(s, k) - 1]),
    decreases k,
{
    if k > 0 && is_ws(s[k - 1]) {
        lemma_trim_end(s, k - 1);
    }
}

/// `trim_end` is determined by the white-space run it drops.
pub proof fn lemma_trim_end_unique(s: Seq<char>, k: int, e: int)
    requires
        0 <= e <= k <= s.len(),
        forall|m: int| e <= m < k ==> is_ws(#[trigger] s[m]),
        e > 0 ==> !is_ws(s[e - 1]),
    ensures
        trim_end(s, k) == e,
    decreases k,
{
    if k > e {
        lemma_trim_end_unique(s, k - 1, e);
    }
}

/// `s` without leading white space (`str::trim_start`).
pub open spec fn trim_start(s: Seq<char>) -> Seq<char> {
    s.subrange(skip_ws(s, 0), s.len() as int)
}

/// `s` without leading and trailing white space (`str::trim`).
pub open spec fn trim(s: Seq<char>) -> Seq<char> {
    let a = skip_ws(s, 0);
    if a >= s.len() {
        Seq::empty()
    } else {
        s.subrange(a, trim_end(s, s.len() as int))
    }
}

/// Bounds of `trim(s)` within `s`.
pub fn trim_bounds(s: &Vec<char>) -> (r: (usize, usize))
    ensures
        r.0 <= r.1 <= s.len(),
        s@.subrange(r.0 as int, r.1 as int) == trim(s@),
{
    let a = skip_ws_at(s, 0);
    if a >= s.len() {
        return (a, a);
    }
    let mut e = s.len();
    proof {
        lemma_skip_ws(s@, 0);
    }
    while e > 0 && is_whitespace(s[e - 1])
        invariant
            a < s.len(),
            !is_ws(s@[a as int]),
            a < e <= s.len(),
            trim_end(s@, e as int) == trim_end(s@, s.len() as int),
        decreases e,
    {
        e -= 1;
    }
    (a, e)
}

/// Removes one trailing carriage return.
pub open spec fn strip_cr(t: Seq<char>) -> Seq<char> {
    if t.len() > 0 && t.last() == '\r' {
        t.drop_last()
    } else {
        t
    }
}

/// The lines of `s` from index `i` on, as `str::lines` gives them: split at
/// `\n`, a `\r` just before a `\n` dropped, and no empty line after a final `\n`.
pub open spec fn lines_from(s: Seq<char>, i: int) -> Seq<Seq<char>>
    decreases s.len() - i,
{
    if i < 0 || i >= s.len() {
        Seq::empty()
    } else {
        let j = find_char(s, i, '\n');
        proof {
            lemma_find_char(s, i, '\n');
        }
        if j >= s.len() {
            seq![s.subrange(i, s.len() as int)]
        } else {
            seq![strip_cr(s.subrange(i, j))] + lines_from(s, j + 1)
        }
    }
}

/// The lines of `s` (`str::lines`).
pub open spec fn lines(s: Seq<char>) -> Seq<Seq<char>> {
    lines_from(s, 0)
}

/// Splits a text into its lines (`str::lines`).
pub fn lines_of(text: &str) -> (ls: Vec<String>)
    ensures
        ls.deep_view() == lines(text@),
{
    let s = chars_of(text);
    let mut ls: Vec<String> = Vec::new();
    let mut start: usize = 0;
    while start < s.len()
        invariant
            start <= s.len(),
            s@ == text@,
            ls.deep_view() + lines_from(s@, start as int) == lines_from(s@, 0),
        decreases s.len() - start,
    {
        let j = find_char_at(&s, start, '\n');
        let ghost prev = ls.deep_view();
        if j == s.len() {
            let line = string_of(&s, start, j);
            ls.push(line);
            assert(ls.deep_view() =~= prev.push(s@.subrange(start as int, j as int)));
            start = j;
        } else {
            let mut end = j;
            if end > start && s[end - 1] == '\r' {
                end = end - 1;
            }
            let line = string_of(&s, start, end);
            assert(line@ == strip_cr(s@.subrange(start as int, j as int))) by {
                if j > start && s@[j - 1] == '\r' {
                    assert(s@.subrange(start as int, j as int).drop_last() =~= s@.subrange(
                        start as int,
                        end as int,
                    ));
                }
            }
            ls.push(line);
            assert(ls.deep_view() =~= prev.push(line@));
            start = j + 1;
        }
    }
    ls
}

/// The white-space separated words of `s` from index `i` on (`str::split_whitespace`).
pub open spec fn words_from(s: Seq<char>, i: int) -> Seq<Seq<char>>
    decreases s.len() - i,
{
    if i < 0 || i >= s.len() {
        Seq::empty()
    } else {
        let a = skip_ws(s, i);
        proof {
            lemma_skip_ws(s, i);
        }
        if a >= s.len() {
            Seq::empty()
        } else {
            let b = skip_nonws(s, a);
            proof {
                lemma_skip_nonws(s, a);
            }
            seq![s.subrange(a, b)] + words_from(s, b)
        }
    }
}

/// The white-space separated words of `s` (`str::split_whitespace`).
pub open spec fn words(s: Seq<char>) -> Seq<Seq<char>> {
    words_from(s, 0)
}

/// Splits a character sequence into its white-space separated words.
pub fn split_words(s: &Vec<char>) -> (ws: Vec<String>)
    ensures
        ws.deep_view() == words(s@),
{
    let mut ws: Vec<String> = Vec::new();
    let mut i: usize = 0;
    while i < s.len()
        invariant
            i <= s.len(),
            ws.deep_view() + words_from(s@, i as int) == words_from(s@, 0),
        decreases s.len() - i,
    {
        let a = skip_ws_at(s, i);
        if a == s.len() {
            i = a;
        } else {
            let b = skip_nonws_at(s, a);
            proof {
                lemma_skip_nonws(s@, a as int);
            }
            let ghost prev = ws.deep_view();
            let w = string_of(s, a, b);
            ws.push(w);
            assert(ws.deep_view() =~= prev.push(s@.subrange(a as int, b as int)));
            i = b;
        }
    }
    ws
}

/// `find_char` looks only at the part of the sequence it scans.
pub proof fn lemma_find_char_shift(p: Seq<char>, u: Seq<char>, k: int, c: char)
    requires
        0 <= k <= u.len(),
    ensures
        find_char(p + u, p.len() + k, c) == p.len() + find_char(u, k, c),
    decreases u.len() - k,
{
    let s = p + u;
    if k < u.len() {
        assert(s[p.len() + k] == u[k]);
        if u[k] != c {
            lemma_find_char_shift(p, u, k + 1, c);
        }
    }
}

/// `skip_ws` looks only at the part of the sequence it scans.
pub proof fn lemma_skip_ws_shift(p: Seq<char>, u: Seq<char>, k: int)
    requires
        0 <= k <= u.len(),
    ensures
        skip_ws(p + u, p.len() + k) == p.len() + skip_ws(u, k),
    decreases u.len() - k,
{
    let s = p + u;
    if k < u.len() {
        assert(s[p.len() + k] == u[k]);
        if is_ws(u[k]) {
            lemma_skip_ws_shift(p, u, k + 1);
        }
    }
}

/// `skip_nonws` looks only at the part of the sequence it scans.
pub proof fn lemma_skip_nonws_shift(p: Seq<char>, u: Seq<char>, k: int)
    requires
        0 <= k <= u.len(),
    ensures
        skip_nonws(p + u, p.len() + k) == p.len() + skip_nonws(u, k),
    decreases u.len() - k,
{
    let s = p + u;
    if k < u.len() {
        assert(s[p.len() + k] == u[k]);
        if !is_ws(u[k]) {
            lemma_skip_nonws_shift(p, u, k + 1);
        }
    }
}

/// The lines after a prefix are the lines of what follows it.
pub proof fn lemma_lines_from_shift(p: Seq<char>, u: Seq<char>, k: int)
    requires
        0 <= k <= u.len(),
    ensures
        lines_from(p + u, p.len() + k) == lines_from(u, k),
    decreases u.len() - k,
{
    let s = p + u;
    if k < u.len() {
        lemma_find_char_shift(p, u, k, '\n');
        lemma_find_char(u, k, '\n');
        let j = find_char(u, k, '\n');
        if j < u.len() {
            lemma_lines_from_shift(p, u, j + 1);
            assert(s.subrange(p.len() + k, p.len() + j) =~= u.subrange(k, j));
        } else {
            assert(s.subrange(p.len() + k, s.len() as int) =~= u.subrange(k, u.len() as int));
        }
    }
}

/// The words after a prefix are the words of what follows it.
pub proof fn lemma_words_from_shift(p: Seq<char>, u: Seq<char>, k: int)
    requires
        0 <= k <= u.len(),
    ensures
        words_from(p + u, p.len() + k) == words_from(u, k),
    decreases u.len() - k,
{
    let s = p + u;
    if k < u.len() {
        lemma_skip_ws_shift(p, u, k);
        lemma_skip_ws(u, k);
        let a = skip_ws(u, k);
        if a < u.len() {
            lemma_skip_nonws_shift(p, u, a);
            lemma_skip_nonws(u, a);
            let b = skip_nonws(u, a);
            lemma_words_from_shift(p, u, b);
            assert(s.subrange(p.len() + a, p.len() + b) =~= u.subrange(a, b));
        }
    }
}

/// A line of text followed by a newline is the first line.
pub proof fn lemma_lines_cons(t: Seq<char>, y: Seq<char>)
    requires
        forall|k: int| 0 <= k < t.len() ==> #[trigger] t[k] != '\n',
        t.len() > 0 ==> t.last() != '\r',
    ensures
        lines(t + seq!['\n'] + y) == seq![t] + lines(y),
{
    let s = t + seq!['\n'] + y;
    lemma_find_char_unique(s, 0, '\n', t.len() as int);
    assert(s.subrange(0, t.len() as int) =~= t);
    lemma_lines_from_shift(t + seq!['\n'], y, 0);
    assert(t + seq!['\n'] + y == (t + seq!['\n']) + y);
}

/// No words remain where only white space remains.
pub proof fn lemma_words_from_blank(s: Seq<char>, i: int)
    requires
        0 <= i <= s.len(),
        forall|k: int| i <= k < s.len() ==> is_ws(#[trigger] s[k]),
    ensures
        words_from(s, i) == Seq::<Seq<char>>::empty(),
{
    if i < s.len() {
        lemma_skip_ws_unique(s, i, s.len() as int);
    }
}

/// A white-space character before position `i + 1` is skipped.
pub proof fn lemma_words_from_ws_step(s: Seq<char>, i: int)
    requires
        0 <= i < s.len(),
        is_ws(s[i]),
    ensures
        words_from(s, i) == words_from(s, i + 1),
{
    if i + 1 < s.len() {
        assert(skip_ws(s, i) == skip_ws(s, i + 1));
    } else {
        assert(skip_ws(s, i + 1) == s.len());
        assert(skip_ws(s, i) == s.len());
    }
}

/// The lowercase form std gives a text (`str::to_lowercase`, by the Unicode
/// `Lowercase` mapping).
pub uninterp spec fn lowercase(s: Seq<char>) -> Seq<char>;

/// Calls `str::to_lowercase`. Its contract claims only that the result is a
/// function of the text; the Unicode case mapping itself is not restated.
#[verifier::external_body]
pub(crate) fn to_lowercase(s: &str) -> (r: String)
    ensures
        r@ == lowercase(s@),
{
    s.to_lowercase()
}

/// Whether `needle` occurs in `s` at index `i`.
pub open spec fn occurs_at(s: Seq<char>, needle: Seq<char>, i: int) -> bool {
    0 <= i && i + needle.len() <= s.len() && s.subrange(i, i + needle.len()) == needle
}

/// Whether `needle` occurs in `s` (`str::contains`).
pub open spec fn contains_seq(s: Seq<char>, needle: Seq<char>) -> bool {
    exists|i: int| occurs_at(s, needle, i)
}

/// Tests whether `needle` occurs in `s`.
pub fn contains_chars(s: &Vec<char>, needle: &Vec<char>) -> (b: bool)
    ensures
        b == contains_seq(s@, needle@),
{
    if needle.len() > s.len() {
        assert forall|i: int| !occurs_at(s@, needle@, i) by {}
        return false;
    }
    let last = s.len() - needle.len();
    let mut i: usize = 0;
    while i <= last
        invariant
            last == s.len() - needle.len(),
            needle.len() <= s.len(),
            i <= last + 1,
            forall|k: int| 0 <= k < i ==> !#[trigger] occurs_at(s@, needle@, k),
        decreases last + 1 - i,
    {
        let mut j: usize = 0;
        let mut same = true;
        while j < needle.len()
            invariant
                i <= last,
                last == s.len() - needle.len(),
                j <= needle.len(),
                same == (forall|m: int| 0 <= m < j ==> s@[i + m] == needle@[m]),
            decreases needle.len() - j,
        {
            if s[i + j] != needle[j] {
                same = false;
            }
            j += 1;
        }
        if same {
            assert(s@.subrange(i as int, i + needle.len()) =~= needle@);
            assert(occurs_at(s@, needle@, i as int));
            return true;
        }
        assert(!occurs_at(s@, needle@, i as int)) by {
            let m = choose|m: int| 0 <= m < needle.len() && s@[i + m] != needle@[m];
            assert(s@.subrange(i as int, i + needle.len())[m] == s@[i + m]);
        }
        i += 1;
    }
    false
}

/// Whether two character sequences are equal.
pub fn same_chars(p: &Vec<char>, t: &Vec<char>) -> (b: bool)
    ensures
        b == (p@ == t@),
{
    if p.len() != t.len() {
        return false;
    }
    let mut i: usize = 0;
    while i < p.len()
        invariant
            i <= p.len() == t.len(),
            forall|k: int| 0 <= k < i ==> p@[k] == t@[k],
        decreases p.len() - i,
    {
        if p[i] != t[i] {
            return false;
        }
        i += 1;
    }
    assert(p@ =~= t@);
    true
}

} // verus!
