//! The textual syntax of IP addresses, as std's address parsers accept it:
//! dotted-decimal IPv4 and colon-separated hexadecimal IPv6 with `::`
//! compression and an optional embedded IPv4 tail.
use crate::text::{find_char, lemma_find_char, find_char_at, slice_chars};
use vstd::prelude::*;

verus! {

/// The pieces of `s` between occurrences of `c`, from index `i` on.
pub open spec fn pieces_from(s: Seq<char>, i: int, c: char) -> Seq<Seq<char>>
    decreases s.len() - i,
{
    if i < 0 || i > s.len() {
        Seq::empty()
    } else {
        let j = find_char(s, i, c);
        proof {
            lemma_find_char(s, i, c);
        }
        if j >= s.len() {
            seq![s.subrange(i, s.len() as int)]
        } else {
            seq![s.subrange(i, j)] + pieces_from(s, j + 1, c)
        }
    }
}

/// `s` split at every `c` (`str::split`); never empty.
pub open spec fn pieces(s: Seq<char>, c: char) -> Seq<Seq<char>> {
    pieces_from(s, 0, c)
}

/// Splits `s` at every `c`.
pub fn split_chars(s: &Vec<char>, c: char) -> (r: Vec<Vec<char>>)
    ensures
        r@.len() == pieces(s@, c).len(),
        forall|k: int| 0 <= k < r@.len() ==> #[trigger] r@[k]@ == pieces(s@, c)[k],
{
    let mut r: Vec<Vec<char>> = Vec::new();
    let mut i: usize = 0;
    loop
        invariant
            i <= s.len(),
            r@.len() + pieces_from(s@, i as int, c).len() == pieces(s@, c).len(),
            forall|k: int| 0 <= k < r@.len() ==> #[trigger] r@[k]@ == pieces(s@, c)[k],
            forall|k: int|
                0 <= k < pieces_from(s@, i as int, c).len() ==> pieces_from(s@, i as int, c)[k]
                    == #[trigger] pieces(s@, c)[r@.len() + k],
        decreases s.len() - i,
    {
        let j = find_char_at(s, i, c);
        let piece = slice_chars(s, i, j);
        let ghost rest = pieces_from(s@, i as int, c);
        assert(rest[0] == piece@);
        assert(rest[0] == pieces(s@, c)[r@.len() + 0int]);
        r.push(piece);
        if j == s.len() {
            assert(rest.len() == 1);
            return r;
        }
        let ghost done = r@.len() - 1;
        assert forall|k: int| 0 <= k < pieces_from(s@, j + 1, c).len() implies pieces_from(
            s@,
            j + 1,
            c,
        )[k] == #[trigger] pieces(s@, c)[r@.len() + k] by {
            assert(pieces_from(s@, j + 1, c)[k] == rest[k + 1]);
            assert(rest[k + 1] == pieces(s@, c)[done + (k + 1)]);
        }
        i = j + 1;
    }
}

/// An ASCII decimal digit.
pub open spec fn is_dec_digit(c: char) -> bool {
    '0' <= c <= '9'
}

/// An ASCII hexadecimal digit, in either case.
pub open spec fn is_hex_digit(c: char) -> bool {
    ('0' <= c <= '9') || ('a' <= c <= 'f') || ('A' <= c <= 'F')
}

/// The value of a string of decimal digits.
pub open spec fn dec_value(t: Seq<char>) -> nat
    decreases t.len(),
{
    if t.len() == 0 {
        0
    } else {
        dec_value(t.drop_last()) * 10 + ((t.last() as u32) - ('0' as u32)) as nat
    }
}

/// One field of a dotted-decimal IPv4 address: one to three digits, no
/// leading zero before another digit, and a value that fits a byte.
pub open spec fn is_octet_text(t: Seq<char>) -> bool {
    &&& 1 <= t.len() <= 3
    &&& forall|k: int| 0 <= k < t.len() ==> is_dec_digit(#[trigger] t[k])
    &&& !(t.len() > 1 && t[0] == '0')
    &&& dec_value(t) <= 255
}

/// One group of an IPv6 address: one to four hexadecimal digits.
pub open spec fn is_hex_group(t: Seq<char>) -> bool {
    &&& 1 <= t.len() <= 4
    &&& forall|k: int| 0 <= k < t.len() ==> is_hex_digit(#[trigger] t[k])
}

/// The text of an IPv4 address: four octets separated by dots.
pub open spec fn is_ipv4_text(s: Seq<char>) -> bool {
    let ps = pieces(s, '.');
    ps.len() == 4 && forall|k: int| 0 <= k < 4 ==> is_octet_text(#[trigger] ps[k])
}

/// Every piece is a hexadecimal group.
pub open spec fn all_hex_groups(ps: Seq<Seq<char>>) -> bool {
    forall|k: int| 0 <= k < ps.len() ==> is_hex_group(#[trigger] ps[k])
}

/// Index of the first `::` in `s`, or `s.len()`.
pub open spec fn find_double_colon(s: Seq<char>, i: int) -> int
    decreases s.len() - i,
{
    if i >= s.len() || i + 1 >= s.len() {
        s.len() as int
    } else if s[i] == ':' && s[i + 1] == ':' {
        i
    } else {
        find_double_colon(s, i + 1)
    }
}

/// The groups of one side of `::`: none for an empty side.
pub open spec fn side_groups(t: Seq<char>) -> Seq<Seq<char>> {
    if t.len() == 0 {
        Seq::empty()
    } else {
        pieces(t, ':')
    }
}

/// How many 16-bit groups the pieces after `::` fill: a final IPv4 address
/// fills two, every other piece one. `None` when a piece is neither.
pub open spec fn tail_slots(ps: Seq<Seq<char>>) -> Option<nat> {
    if ps.len() == 0 {
        Some(0)
    } else if all_hex_groups(ps) {
        Some(ps.len())
    } else if all_hex_groups(ps.drop_last()) && is_ipv4_text(ps.last()) {
        Some(ps.len() + 1)
    } else {
        None
    }
}

/// The text of an IPv6 address. Without `::`: eight groups, or six groups and
/// an IPv4 address. With `::` (taken at its first occurrence): groups before
/// it and groups after it, the last of which may be an IPv4 address, filling
/// at most seven of the eight 16-bit slots.
pub open spec fn is_ipv6_text(s: Seq<char>) -> bool {
    let d = find_double_colon(s, 0);
    if d >= s.len() {
        let ps = pieces(s, ':');
        (ps.len() == 8 && all_hex_groups(ps)) || (ps.len() == 7 && all_hex_groups(ps.take(6))
            && is_ipv4_text(ps[6]))
    } else {
        let head = side_groups(s.subrange(0, d));
        let tail = side_groups(s.subrange(d + 2, s.len() as int));
        all_hex_groups(head) && match tail_slots(tail) {
            Some(n) => head.len() + n <= 7,
            None => false,
        }
    }
}

/// The text of an IP address of either family.
pub open spec fn is_ip_text(s: Seq<char>) -> bool {
    is_ipv4_text(s) || is_ipv6_text(s)
}

/// Tests one octet field.
fn octet_ok(t: &Vec<char>) -> (b: bool)
    ensures
        b == is_octet_text(t@),
{
    if t.len() < 1 || t.len() > 3 {
        return false;
    }
    if t.len() > 1 && t[0] == '0' {
        return false;
    }
    let mut v: u32 = 0;
    let mut k: usize = 0;
    while k < t.len()
        invariant
            1 <= t.len() <= 3,
            k <= t.len(),
            forall|m: int| 0 <= m < k ==> is_dec_digit(#[trigger] t@[m]),
            v == dec_value(t@.take(k as int)),
            v < 1000,
            k == 0 ==> v == 0,
            k == 1 ==> v < 10,
            k == 2 ==> v < 100,
        decreases t.len() - k,
    {
        let c = t[k];
        if !('0' <= c && c <= '9') {
            return false;
        }
        assert(t@.take(k + 1).drop_last() =~= t@.take(k as int));
        v = v * 10 + ((c as u32) - ('0' as u32));
        k += 1;
    }
    assert(t@.take(t.len() as int) =~= t@);
    v <= 255
}

/// Tests one hexadecimal group.
fn hex_group_ok(t: &Vec<char>) -> (b: bool)
    ensures
        b == is_hex_group(t@),
{
    if t.len() < 1 || t.len() > 4 {
        return false;
    }
    let mut k: usize = 0;
    while k < t.len()
        invariant
            k <= t.len(),
            forall|m: int| 0 <= m < k ==> is_hex_digit(#[trigger] t@[m]),
        decreases t.len() - k,
    {
        let c = t[k];
        if !(('0' <= c && c <= '9') || ('a' <= c && c <= 'f') || ('A' <= c && c <= 'F')) {
            return false;
        }
        k += 1;
    }
    true
}

/// Tests whether the pieces `ps[lo..hi]` are all hexadecimal groups.
fn hex_groups_ok(ps: &Vec<Vec<char>>, lo: usize, hi: usize) -> (b: bool)
    requires
        lo <= hi <= ps@.len(),
    ensures
        b == (forall|k: int| lo <= k < hi ==> is_hex_group(#[trigger] ps@[k]@)),
{
    let mut k = lo;
    while k < hi
        invariant
            lo <= k <= hi <= ps@.len(),
            forall|m: int| lo <= m < k ==> is_hex_group(#[trigger] ps@[m]@),
        decreases hi - k,
    {
        if !hex_group_ok(&ps[k]) {
            return false;
        }
        k += 1;
    }
    true
}

/// Tests the text of an IPv4 address.
pub fn ipv4_ok(s: &Vec<char>) -> (b: bool)
    ensures
        b == is_ipv4_text(s@),
{
    let ps = split_chars(s, '.');
    if ps.len() != 4 {
        return false;
    }
    let mut k: usize = 0;
    while k < 4
        invariant
            ps@.len() == 4,
            ps@.len() == pieces(s@, '.').len(),
            forall|m: int| 0 <= m < 4 ==> #[trigger] ps@[m]@ == pieces(s@, '.')[m],
            k <= 4,
            forall|m: int| 0 <= m < k ==> is_octet_text(#[trigger] pieces(s@, '.')[m]),
        decreases 4 - k,
    {
        if !octet_ok(&ps[k]) {
            return false;
        }
        k += 1;
    }
    true
}

/// Returns `find_double_colon(s, 0)`.
fn find_double_colon_at(s: &Vec<char>) -> (d: usize)
    ensures
        d == find_double_colon(s@, 0),
        d <= s.len(),
        d < s.len() ==> d + 1 < s.len() && s@[d as int] == ':' && s@[d + 1] == ':',
{
    let mut i: usize = 0;
    while i < s.len() && i + 1 < s.len() && !(s[i] == ':' && s[i + 1] == ':')
        invariant
            i <= s.len(),
            find_double_colon(s@, i as int) == find_double_colon(s@, 0),
        decreases s.len() - i,
    {
        i += 1;
    }
    if i >= s.len() || i + 1 >= s.len() {
        s.len()
    } else {
        i
    }
}

/// Splits one side of `::` into its groups.
fn side_groups_of(t: &Vec<char>) -> (r: Vec<Vec<char>>)
    ensures
        r@.len() == side_groups(t@).len(),
        forall|k: int| 0 <= k < r@.len() ==> #[trigger] r@[k]@ == side_groups(t@)[k],
{
    if t.len() == 0 {
        Vec::new()
    } else {
        split_chars(t, ':')
    }
}

/// Tests the text of an IPv6 address.
pub fn ipv6_ok(s: &Vec<char>) -> (b: bool)
    ensures
        b == is_ipv6_text(s@),
{
    let d = find_double_colon_at(s);
    if d >= s.len() {
        let ps = split_chars(s, ':');
        let ghost gs = pieces(s@, ':');
        if ps.len() == 8 {
            let r = hex_groups_ok(&ps, 0, 8);
            assert(r == all_hex_groups(gs)) by {
                if r {
                    assert forall|k: int| 0 <= k < gs.len() implies is_hex_group(
                        #[trigger] gs[k],
                    ) by {
                        assert(ps@[k]@ == gs[k]);
                    }
                } else {
                    let k = choose|k: int| 0 <= k < 8 && !is_hex_group(#[trigger] ps@[k]@);
                    assert(ps@[k]@ == gs[k]);
                }
            }
            return r;
        } else if ps.len() == 7 {
            let r1 = hex_groups_ok(&ps, 0, 6);
            let r2 = ipv4_ok(&ps[6]);
            assert(r1 == all_hex_groups(gs.take(6))) by {
                if r1 {
                    assert forall|k: int| 0 <= k < gs.take(6).len() implies is_hex_group(
                        #[trigger] gs.take(6)[k],
                    ) by {
                        assert(ps@[k]@ == gs[k]);
                    }
                } else {
                    let k = choose|k: int| 0 <= k < 6 && !is_hex_group(#[trigger] ps@[k]@);
                    assert(ps@[k]@ == gs.take(6)[k]);
                }
            }
            assert(ps@[6]@ == gs[6]);
            return r1 && r2;
        } else {
            return false;
        }
    }
    let head_chars = slice_chars(s, 0, d);
    let tail_chars = slice_chars(s, d + 2, s.len());
    let head = side_groups_of(&head_chars);
    let tail = side_groups_of(&tail_chars);
    let ghost hs = side_groups(s@.subrange(0, d as int));
    let ghost ts = side_groups(s@.subrange(d + 2, s.len() as int));
    let head_ok = hex_groups_ok(&head, 0, head.len());
    assert(head_ok == all_hex_groups(hs)) by {
        if head_ok {
            assert forall|k: int| 0 <= k < hs.len() implies is_hex_group(#[trigger] hs[k]) by {
                assert(head@[k]@ == hs[k]);
            }
        } else {
            let k = choose|k: int| 0 <= k < head@.len() && !is_hex_group(#[trigger] head@[k]@);
            assert(head@[k]@ == hs[k]);
        }
    }
    if !head_ok {
        return false;
    }
    let n = tail.len();
    if head.len() > 7 || n > 7 {
        return false;
    }
    let slots: usize;
    if n == 0 {
        slots = 0;
    } else {
        let all_hex = hex_groups_ok(&tail, 0, n);
        assert(all_hex == all_hex_groups(ts)) by {
            if all_hex {
                assert forall|k: int| 0 <= k < ts.len() implies is_hex_group(#[trigger] ts[k]) by {
                    assert(tail@[k]@ == ts[k]);
                }
            } else {
                let k = choose|k: int| 0 <= k < n && !is_hex_group(#[trigger] tail@[k]@);
                assert(tail@[k]@ == ts[k]);
            }
        }
        if all_hex {
            slots = n;
        } else {
            let front_hex = hex_groups_ok(&tail, 0, n - 1);
            assert(front_hex == all_hex_groups(ts.drop_last())) by {
                if front_hex {
                    assert forall|k: int| 0 <= k < ts.drop_last().len() implies is_hex_group(
                        #[trigger] ts.drop_last()[k],
                    ) by {
                        assert(tail@[k]@ == ts[k]);
                    }
                } else {
                    let k = choose|k: int| 0 <= k < n - 1 && !is_hex_group(#[trigger] tail@[k]@);
                    assert(tail@[k]@ == ts.drop_last()[k]);
                }
            }
            assert(tail@[n - 1]@ == ts.last());
            if front_hex && ipv4_ok(&tail[n - 1]) {
                slots = n + 1;
            } else {
                return false;
            }
        }
    }
    head.len() + slots <= 7
}

/// The first piece of a non-empty text runs up to the first separator.
proof fn lemma_first_piece(s: Seq<char>, c: char)
    requires
        s.len() > 0,
    ensures
        pieces(s, c).len() > 0,
        pieces(s, c)[0] == s.subrange(0, find_char(s, 0, c)),
        0 <= find_char(s, 0, c) <= s.len(),
{
    lemma_find_char(s, 0, c);
}

/// Where `find_double_colon` stops before the end, a `:` stands.
proof fn lemma_find_double_colon(s: Seq<char>, i: int)
    requires
        0 <= i,
    ensures
        find_double_colon(s, i) < s.len() ==> i <= find_double_colon(s, i) && s[find_double_colon(
            s,
            i,
        )] == ':',
    decreases s.len() - i,
{
    if !(i >= s.len() || i + 1 >= s.len()) && !(s[i] == ':' && s[i + 1] == ':') {
        lemma_find_double_colon(s, i + 1);
    }
}

/// An IP address starts with a digit, a hexadecimal digit or a colon, never
/// with `#`.
pub proof fn lemma_ip_text_start(s: Seq<char>)
    requires
        is_ip_text(s),
        s.len() > 0,
    ensures
        s[0] != '#',
{
    if is_ipv4_text(s) {
        lemma_first_piece(s, '.');
        let p = pieces(s, '.')[0];
        assert(is_octet_text(p));
        assert(is_dec_digit(p[0]));
        assert(p[0] == s[0]);
    } else {
        let d = find_double_colon(s, 0);
        lemma_find_double_colon(s, 0);
        if d >= s.len() {
            lemma_first_piece(s, ':');
            let ps = pieces(s, ':');
            if ps.len() == 8 {
                assert(is_hex_group(ps[0]));
            } else {
                assert(ps.take(6)[0] == ps[0]);
                assert(is_hex_group(ps.take(6)[0]));
            }
            assert(is_hex_digit(ps[0][0]));
            assert(ps[0][0] == s[0]);
        } else if d > 0 {
            let t = s.subrange(0, d);
            lemma_first_piece(t, ':');
            let head = side_groups(t);
            assert(head == pieces(t, ':'));
            assert(is_hex_group(head[0]));
            assert(t[0] == s[0]);
            assert(is_hex_digit(head[0][0]));
            assert(head[0][0] == s[0]);
        }
    }
}

} // verus!
