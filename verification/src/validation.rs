//! Validation and normalisation of addresses, hostnames, comments and paths.
use crate::addr::{ipv4_ok, ipv6_ok, is_ip_text, is_ipv4_text, is_ipv6_text, pieces, split_chars};
use crate::text::{
    chars_of, contains_seq, contains_chars, lowercase, to_lowercase, trim, trim_bounds,
};
use vstd::prelude::*;
use vstd::utf8::encode_utf8;

verus! {

/// Validate that an IP address is well-formed
pub fn is_valid_ip(ip: &str) -> (b: bool)
    ensures
        b == is_ip_text(ip@),
{
    let s = chars_of(ip);
    ipv4_ok(&s) || ipv6_ok(&s)
}

/// Validate IPv4
pub fn is_valid_ipv4(ip: &str) -> (b: bool)
    ensures
        b == is_ipv4_text(ip@),
{
    let s = chars_of(ip);
    ipv4_ok(&s)
}

/// Validate IPv6
pub fn is_valid_ipv6(ip: &str) -> (b: bool)
    ensures
        b == is_ipv6_text(ip@),
{
    let s = chars_of(ip);
    ipv6_ok(&s)
}

/// A character the hostname pattern `(?i)[a-z0-9]` accepts: an ASCII letter
/// of either case or digit, or one of the two non-ASCII characters whose
/// simple case folding reaches an ASCII letter (`ſ`, U+017F, and the Kelvin
/// sign, U+212A).
pub open spec fn is_label_char(c: char) -> bool {
    ('a' <= c <= 'z') || ('A' <= c <= 'Z') || ('0' <= c <= '9') || c == '\u{17f}' || c
        == '\u{212a}'
}

/// One label of a hostname (RFC 1123): label characters and inner hyphens.
pub open spec fn is_label(t: Seq<char>) -> bool {
    &&& t.len() > 0
    &&& is_label_char(t[0])
    &&& is_label_char(t.last())
    &&& forall|k: int| 0 <= k < t.len() ==> is_label_char(#[trigger] t[k]) || t[k] == '-'
}

/// How many bytes the UTF-8 encoding of a character takes.
pub open spec fn utf8_width(c: char) -> nat {
    let u = c as u32;
    if u <= 0x7f {
        1
    } else if u <= 0x7ff {
        2
    } else if u <= 0xffff {
        3
    } else {
        4
    }
}

/// How many bytes the UTF-8 encoding of a text takes (`str::len`).
pub open spec fn utf8_len(s: Seq<char>) -> nat
    decreases s.len(),
{
    if s.len() == 0 {
        0
    } else {
        utf8_len(s.drop_last()) + utf8_width(s.last())
    }
}

proof fn lemma_utf8_len_front(s: Seq<char>)
    requires
        s.len() > 0,
    ensures
        utf8_len(s) == utf8_width(s[0]) + utf8_len(s.drop_first()),
    decreases s.len(),
{
    if s.len() > 1 {
        lemma_utf8_len_front(s.drop_last());
        assert(s.drop_last().drop_first() =~= s.drop_first().drop_last());
        assert(s.drop_first().last() == s.last());
        assert(s.drop_last()[0] == s[0]);
        assert(utf8_len(s.drop_first()) == utf8_len(s.drop_first().drop_last()) + utf8_width(
            s.last(),
        ));
    } else {
        assert(s.drop_first().len() == 0);
        assert(s.drop_last().len() == 0);
        assert(utf8_len(s.drop_last()) == 0);
        assert(utf8_len(s.drop_first()) == 0);
        assert(s.last() == s[0]);
    }
}

/// `utf8_len` is the length of vstd's UTF-8 encoding of the text.
pub proof fn lemma_utf8_len(s: Seq<char>)
    ensures
        utf8_len(s) == encode_utf8(s).len(),
    decreases s.len(),
{
    if s.len() > 0 {
        lemma_utf8_len_front(s);
        lemma_utf8_len(s.drop_first());
        vstd::utf8::char_is_scalar(s[0]);
        let u = s[0] as u32;
        assert(vstd::utf8::encode_scalar(u).len() == utf8_width(s[0]));
    }
}

/// A hostname: 1 to 253 bytes of UTF-8, dot-separated labels.
pub open spec fn is_hostname_text(s: Seq<char>) -> bool {
    &&& 0 < utf8_len(s) <= 253
    &&& forall|k: int| 0 <= k < pieces(s, '.').len() ==> is_label(#[trigger] pieces(s, '.')[k])
}

/// Returns `utf8_len(s)` when it is at most `limit`, or some value past `limit`.
pub fn utf8_len_upto(s: &Vec<char>, limit: usize) -> (n: usize)
    requires
        limit < usize::MAX - 4,
    ensures
        n <= limit ==> n == utf8_len(s@),
        n > limit ==> utf8_len(s@) > limit,
{
    let mut n: usize = 0;
    let mut k: usize = 0;
    while k < s.len()
        invariant
            limit < usize::MAX - 4,
            k <= s.len(),
            n == utf8_len(s@.take(k as int)),
            n <= limit,
        decreases s.len() - k,
    {
        let u = s[k] as u32;
        let w: usize = if u <= 0x7f {
            1
        } else if u <= 0x7ff {
            2
        } else if u <= 0xffff {
            3
        } else {
            4
        };
        assert(s@.take(k + 1).drop_last() =~= s@.take(k as int));
        n = n + w;
        k += 1;
        if n > limit {
            proof {
                lemma_utf8_len_prefix(s@, k as int);
            }
            return n;
        }
    }
    assert(s@.take(s.len() as int) =~= s@);
    n
}

proof fn lemma_utf8_len_prefix(s: Seq<char>, k: int)
    requires
        0 <= k <= s.len(),
    ensures
        utf8_len(s.take(k)) <= utf8_len(s),
    decreases s.len(),
{
    if k < s.len() {
        lemma_utf8_len_prefix(s.drop_last(), k);
        assert(s.drop_last().take(k) =~= s.take(k));
    } else {
        assert(s.take(k) =~= s);
    }
}

fn label_char_ok(c: char) -> (b: bool)
    ensures
        b == is_label_char(c),
{
    ('a' <= c && c <= 'z') || ('A' <= c && c <= 'Z') || ('0' <= c && c <= '9') || c == '\u{17f}'
        || c == '\u{212a}'
}

fn label_ok(t: &Vec<char>) -> (b: bool)
    ensures
        b == is_label(t@),
{
    if t.len() == 0 {
        return false;
    }
    if !label_char_ok(t[0]) || !label_char_ok(t[t.len() - 1]) {
        return false;
    }
    let mut k: usize = 0;
    while k < t.len()
        invariant
            k <= t.len(),
            forall|m: int| 0 <= m < k ==> is_label_char(#[trigger] t@[m]) || t@[m] == '-',
        decreases t.len() - k,
    {
        if !(label_char_ok(t[k]) || t[k] == '-') {
            return false;
        }
        k += 1;
    }
    true
}

/// Validate a hostname according to RFC 1123
pub fn is_valid_hostname(hostname: &str) -> (b: bool)
    ensures
        b == is_hostname_text(hostname@),
{
    let s = chars_of(hostname);
    let n = utf8_len_upto(&s, 253);
    if n == 0 || n > 253 {
        return false;
    }
    let ls = split_chars(&s, '.');
    let mut k: usize = 0;
    while k < ls.len()
        invariant
            s@ == hostname@,
            0 < utf8_len(hostname@) <= 253,
            ls@.len() == pieces(s@, '.').len(),
            forall|m: int| 0 <= m < ls@.len() ==> #[trigger] ls@[m]@ == pieces(s@, '.')[m],
            k <= ls.len(),
            forall|m: int| 0 <= m < k ==> is_label(#[trigger] pieces(s@, '.')[m]),
        decreases ls.len() - k,
    {
        if !label_ok(&ls[k]) {
            return false;
        }
        k += 1;
    }
    true
}

/// A control character (Unicode general category `Cc`, as `char::is_control` tests).
pub open spec fn is_control(c: char) -> bool {
    (c as u32) <= 0x1f || (0x7f <= (c as u32) && (c as u32) <= 0x9f)
}

/// A comment that can stand on a hosts line: no line breaks and no control
/// characters other than tab.
pub open spec fn is_comment_text(s: Seq<char>) -> bool {
    forall|k: int| 0 <= k < s.len() ==> #[trigger] s[k] == '\t' || !is_control(s[k])
}

/// Validate a comment string (no newlines or control characters)
pub fn is_valid_comment(comment: &str) -> (b: bool)
    ensures
        b == is_comment_text(comment@),
{
    let s = chars_of(comment);
    let mut k: usize = 0;
    while k < s.len()
        invariant
            s@ == comment@,
            k <= s.len(),
            forall|m: int| 0 <= m < k ==> #[trigger] s@[m] == '\t' || !is_control(s@[m]),
        decreases s.len() - k,
    {
        let c = s[k];
        let u = c as u32;
        if c == '\n' || c == '\r' || (c != '\t' && (u <= 0x1f || (0x7f <= u && u <= 0x9f))) {
            return false;
        }
        k += 1;
    }
    true
}

/// Normalize a hostname (lowercase, trim)
pub fn normalize_hostname(hostname: &str) -> (r: String)
    ensures
        r@ == lowercase(trim(hostname@)),
{
    let s = chars_of(hostname);
    let (a, b) = trim_bounds(&s);
    let trimmed = hostname.substring_char(a, b);
    to_lowercase(trimmed)
}

/// Why a path is refused.
#[derive(Debug, PartialEq, Eq, Structural)]
pub enum PathError {
    /// The path holds a NUL character.
    NullBytes,
    /// A component of the path is `..`.
    Traversal,
    /// The lowercased path holds `%2e%2e` or `..%2f`.
    EncodedTraversal,
}

/// Whether some `/`-separated component of the path is `..` (what
/// `Path::components` yields as a parent-directory component).
pub open spec fn has_parent_component(s: Seq<char>) -> bool {
    exists|k: int| 0 <= k < pieces(s, '/').len() && #[trigger] pieces(s, '/')[k] == seq!['.', '.']
}

/// Validate a path for security: no path traversal, no null bytes
pub fn validate_secure_path(path: &str) -> (r: Result<(), PathError>)
    ensures
        r == (if path@.contains('\0') {
            Err(PathError::NullBytes)
        } else if has_parent_component(path@) {
            Err(PathError::Traversal)
        } else if is_encoded_traversal(lowercase(path@)) {
            Err(PathError::EncodedTraversal)
        } else {
            Ok(())
        }),
{
    let s = chars_of(path);
    let mut k: usize = 0;
    while k < s.len()
        invariant
            s@ == path@,
            k <= s.len(),
            forall|m: int| 0 <= m < k ==> s@[m] != '\0',
        decreases s.len() - k,
    {
        if s[k] == '\0' {
            assert(path@[k as int] == '\0');
            return Err(PathError::NullBytes);
        }
        k += 1;
    }
    assert(!path@.contains('\0'));
    let parts = split_chars(&s, '/');
    let mut j: usize = 0;
    while j < parts.len()
        invariant
            s@ == path@,
            !path@.contains('\0'),
            parts@.len() == pieces(s@, '/').len(),
            forall|m: int| 0 <= m < parts@.len() ==> #[trigger] parts@[m]@ == pieces(s@, '/')[m],
            j <= parts.len(),
            forall|m: int| 0 <= m < j ==> #[trigger] pieces(s@, '/')[m] != seq!['.', '.'],
        decreases parts.len() - j,
    {
        let p = &parts[j];
        if p.len() == 2 && p[0] == '.' && p[1] == '.' {
            assert(p@ =~= seq!['.', '.']);
            return Err(PathError::Traversal);
        }
        assert(p@ != seq!['.', '.']);
        j += 1;
    }
    let lower = to_lowercase(path);
    if has_encoded_traversal(lower.as_str()) {
        return Err(PathError::EncodedTraversal);
    }
    Ok(())
}

/// Whether a (lowercased) path holds `%2e%2e`, `..%2f` or `%2e%2e%2f`.
pub open spec fn is_encoded_traversal(lower: Seq<char>) -> bool {
    contains_seq(lower, seq!['%', '2', 'e', '%', '2', 'e'])
        || contains_seq(lower, seq!['.', '.', '%', '2', 'f'])
        || contains_seq(lower, seq!['%', '2', 'e', '%', '2', 'e', '%', '2', 'f'])
}

/// Tests a lowercased path for an encoded parent-directory step.
pub fn has_encoded_traversal(lower: &str) -> (b: bool)
    ensures
        b == is_encoded_traversal(lower@),
{
    let l = chars_of(lower);
    let p1: Vec<char> = vec!['%', '2', 'e', '%', '2', 'e'];
    let p2: Vec<char> = vec!['.', '.', '%', '2', 'f'];
    let p3: Vec<char> = vec!['%', '2', 'e', '%', '2', 'e', '%', '2', 'f'];
    assert(p1@ =~= seq!['%', '2', 'e', '%', '2', 'e']);
    assert(p2@ =~= seq!['.', '.', '%', '2', 'f']);
    assert(p3@ =~= seq!['%', '2', 'e', '%', '2', 'e', '%', '2', 'f']);
    contains_chars(&l, &p1) || contains_chars(&l, &p2) || contains_chars(&l, &p3)
}

impl PathError {
    /// The message that reports the refusal of `path`.
    pub fn message(&self, path: &str) -> (r: String)
        ensures
            r@ == match self {
                PathError::NullBytes => "Path contains null bytes"@,
                PathError::Traversal => "Path traversal detected: "@ + path@,
                PathError::EncodedTraversal => "Encoded path traversal detected: "@ + path@,
            },
    {
        match self {
            PathError::NullBytes => String::from_str("Path contains null bytes"),
            PathError::Traversal => {
                let mut r = String::from_str("Path traversal detected: ");
                r.append(path);
                r
            },
            PathError::EncodedTraversal => {
                let mut r = String::from_str("Encoded path traversal detected: ");
                r.append(path);
                r
            },
        }
    }
}

} // verus!
