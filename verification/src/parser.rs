//! Reading a hosts file into entries.
//!
//! Each line is trimmed and matched against the pattern
//! `^(\s*#\s*)?(\S+)\s+(.+?)(?:\s*#\s*(.*))?$`: an optional `#` that marks a
//! disabled entry, the address, the hostnames, and an optional `#` comment.
//! The spec functions below state, position by position, what that pattern
//! captures under leftmost-first matching.
use crate::addr::is_ip_text;
use crate::model::{Entry, EntryView};
use crate::text::{
    chars_of, find_char, find_char_at, lines, lines_of, skip_nonws, skip_nonws_at, skip_ws,
    skip_ws_at, slice_chars, split_words, string_of, trim, trim_bounds, trim_start, words,
};
use crate::validation::is_valid_ip;
use vstd::prelude::*;

verus! {

/// What the line pattern captures.
pub struct LineFields {
    pub disabled: bool,
    pub ip: Seq<char>,
    pub hosts: Seq<Seq<char>>,
    pub comment: Option<Seq<char>>,
}

/// Where the address of a trimmed line starts, and whether the line is
/// commented out. The `#` prefix is taken when an address and white space
/// follow it; otherwise the address starts at the first character. `None`
/// when no white space follows the address.
pub open spec fn address_start(l: Seq<char>) -> Option<(bool, int)> {
    if l.len() > 0 && l[0] == '#' && skip_ws(l, 1) < l.len() && skip_nonws(l, skip_ws(l, 1))
        < l.len() {
        Some((true, skip_ws(l, 1)))
    } else if l.len() > 0 && skip_nonws(l, 0) < l.len() {
        Some((false, 0))
    } else {
        None
    }
}

/// The captures of the line pattern on a trimmed line. The hostnames run up
/// to the first `#` after their first character; the comment is what follows
/// that `#`, without leading white space.
pub open spec fn match_line(l: Seq<char>) -> Option<LineFields> {
    match address_start(l) {
        None => None,
        Some((disabled, p)) => {
            let q = skip_nonws(l, p);
            let rest = l.subrange(skip_ws(l, q), l.len() as int);
            let h = find_char(rest, 1, '#');
            Some(
                LineFields {
                    disabled,
                    ip: l.subrange(p, q),
                    hosts: words(rest.subrange(0, h)),
                    comment: if h < rest.len() {
                        Some(trim_start(rest.subrange(h + 1, rest.len() as int)))
                    } else {
                        None
                    },
                },
            )
        },
    }
}

/// The entry a trimmed line yields under the given id: none when the line
/// does not match, when a disabled line's address is not an IP address, or
/// when no hostname was captured.
pub open spec fn line_entry(l: Seq<char>, id: nat) -> Option<EntryView> {
    match match_line(l) {
        None => None,
        Some(f) => if (f.disabled && !is_ip_text(f.ip)) || f.hosts.len() == 0 {
            None
        } else {
            Some(
                EntryView {
                    id,
                    ip: f.ip,
                    canonical: f.hosts[0],
                    aliases: f.hosts.drop_first(),
                    comment: f.comment,
                    disabled: f.disabled,
                    raw: Some(l),
                },
            )
        },
    }
}

/// The entries of a sequence of lines; ids count the entries from 1.
pub open spec fn parse_lines(ls: Seq<Seq<char>>) -> Seq<EntryView>
    decreases ls.len(),
{
    if ls.len() == 0 {
        Seq::empty()
    } else {
        let prev = parse_lines(ls.drop_last());
        match line_entry(trim(ls.last()), prev.len() + 1) {
            Some(e) => prev.push(e),
            None => prev,
        }
    }
}

/// The entries of a hosts file.
pub open spec fn parse_spec(content: Seq<char>) -> Seq<EntryView> {
    parse_lines(lines(content))
}

/// The value of an optional entry.
pub open spec fn opt_entry_view(o: Option<Entry>) -> Option<EntryView> {
    match o {
        Some(e) => Some(e@),
        None => None,
    }
}

/// The entry one trimmed line yields.
fn entry_of_line(l: &Vec<char>, id: usize) -> (r: Option<Entry>)
    ensures
        opt_entry_view(r) == line_entry(l@, id as nat),
{
    let n = l.len();
    let mut disabled = false;
    let mut p: usize = 0;
    let mut found = false;
    if n > 0 && l[0] == '#' {
        let p1 = skip_ws_at(l, 1);
        if p1 < n {
            let q1 = skip_nonws_at(l, p1);
            if q1 < n {
                disabled = true;
                p = p1;
                found = true;
            }
        }
    }
    if !found {
        if n > 0 && skip_nonws_at(l, 0) < n {
            p = 0;
        } else {
            return None;
        }
    }
    assert(address_start(l@) == Some((disabled, p as int)));
    let q = skip_nonws_at(l, p);
    let r = skip_ws_at(l, q);
    let rest = slice_chars(l, r, n);
    let h = if rest.len() == 0 {
        0
    } else {
        find_char_at(&rest, 1, '#')
    };
    let host_part = slice_chars(&rest, 0, h);
    let mut hosts = split_words(&host_part);
    let comment = if h < rest.len() {
        let after = slice_chars(&rest, h + 1, rest.len());
        let c0 = skip_ws_at(&after, 0);
        Some(string_of(&after, c0, after.len()))
    } else {
        None
    };
    let ip = string_of(l, p, q);
    let ghost f = match_line(l@).unwrap();
    assert(ip@ == f.ip);
    assert(hosts.deep_view() == f.hosts);
    assert(crate::model::opt_view(comment) == f.comment);
    if disabled && !is_valid_ip(ip.as_str()) {
        return None;
    }
    if hosts.len() == 0 {
        return None;
    }
    let ghost all = hosts.deep_view();
    let canonical = hosts.remove(0);
    assert(hosts.deep_view() =~= all.drop_first());
    let raw = string_of(l, 0, n);
    assert(raw@ =~= l@);
    Some(
        Entry {
            id,
            ip,
            canonical,
            aliases: hosts,
            comment,
            disabled,
            raw: Some(raw),
        },
    )
}

/// Parse a hosts file from a string
pub fn parse(content: &str) -> (entries: Vec<Entry>)
    ensures
        entries.deep_view() == parse_spec(content@),
{
    let ls = lines_of(content);
    let mut entries: Vec<Entry> = Vec::new();
    let mut entry_id: usize = 0;
    for i in 0..ls.len()
        invariant
            ls.deep_view() == lines(content@),
            entries.deep_view() == parse_lines(ls.deep_view().take(i as int)),
            entry_id == entries.len(),
            entries.len() <= i,
    {
        let chars = chars_of(ls[i].as_str());
        let (a, b) = trim_bounds(&chars);
        let line = slice_chars(&chars, a, b);
        let ghost prev = entries.deep_view();
        assert(ls.deep_view().take(i + 1).drop_last() =~= ls.deep_view().take(i as int));
        assert(ls.deep_view().take(i + 1).last() == ls@[i as int]@);
        match entry_of_line(&line, entry_id + 1) {
            Some(e) => {
                let ghost ev = e@;
                entry_id += 1;
                entries.push(e);
                assert(entries.deep_view() =~= prev.push(ev));
            },
            None => {},
        }
    }
    assert(ls.deep_view().take(ls.len() as int) =~= ls.deep_view());
    entries
}

} // verus!
