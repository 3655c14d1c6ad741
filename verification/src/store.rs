//! A hosts file held as text: loading its entries, editing them, and saving
//! them back. Reading and writing the file itself (with locking) is the
//! caller's part; the store holds what the file holds.
use crate::edit::{
    add_entry_in, add_entry_spec, clamp, count_ip_state, disable_hostname_spec,
    disable_hostnames_in, duplicates_of, duplicates_spec, enable_hostname_spec, enable_hostnames_in,
    entry_views, has_host, is_blank, lemma_other_ips_len, move_hostname_in, move_hostname_spec,
    opt_str_view, other_ips, remove_hostnames_in, remove_hostnames_spec, remove_ip_in,
    removed_total, set_ip_state, set_ip_state_in, strs,
};
use crate::check::{issues_of, issues_spec, issues_view, Issue};
use crate::model::{clone_opt, clone_strings, Entry, EntryView, Row, RowView};
use crate::parser::{parse, parse_spec};
use crate::serializer::{serialize, serialize_spec};
use crate::text::push_char;
use vstd::prelude::*;

verus! {

/// A hosts file: where it lives and what it holds.
pub struct Store {
    path: String,
    content: String,
}

/// The value of a [`Store`].
pub struct StoreView {
    pub path: Seq<char>,
    pub content: Seq<char>,
}

impl View for Store {
    type V = StoreView;

    closed spec fn view(&self) -> StoreView {
        StoreView { path: self.path@, content: self.content@ }
    }
}

/// The row that shows an entry: its canonical name as host.
pub open spec fn entry_row(e: EntryView) -> RowView {
    RowView {
        ip: e.ip,
        host: e.canonical,
        comment: e.comment,
        canonical: Some(e.canonical),
        aliases: e.aliases,
    }
}

/// The rows of the entries that hold a hostname, in order.
pub open spec fn rows_of(es: Seq<EntryView>) -> Seq<RowView>
    decreases es.len(),
{
    if es.len() == 0 {
        Seq::empty()
    } else if is_blank(es.last()) {
        rows_of(es.drop_last())
    } else {
        rows_of(es.drop_last()).push(entry_row(es.last()))
    }
}

/// Whether some enabled entry names `h`.
pub open spec fn any_enabled_host(es: Seq<EntryView>, h: Seq<char>) -> bool {
    exists|k: int| 0 <= k < es.len() && !es[k].disabled && #[trigger] has_host(es[k], h)
}

/// The entries once `h` is toggled, and whether it was disabled: disabled
/// when some enabled entry names it, enabled otherwise.
pub open spec fn toggle_host_spec(es: Seq<EntryView>, h: Seq<char>) -> (Seq<EntryView>, bool) {
    let d = any_enabled_host(es, h);
    (
        if d {
            disable_hostname_spec(es, seq![h]).0
        } else {
            enable_hostname_spec(es, seq![h]).0
        },
        d,
    )
}

/// Whether some enabled entry has address `ip`.
pub open spec fn any_enabled_ip(es: Seq<EntryView>, ip: Seq<char>) -> bool {
    exists|k: int| 0 <= k < es.len() && !es[k].disabled && #[trigger] es[k].ip == ip
}

/// The decimal digits of a number.
pub open spec fn decimal(n: nat) -> Seq<char>
    decreases n,
{
    if n < 10 {
        seq![(48 + n) as char]
    } else {
        decimal(n / 10).push((48 + (n % 10)) as char)
    }
}

/// The decimal text of a number (`usize::to_string`).
pub fn decimal_text(n: usize) -> (r: String)
    ensures
        r@ == decimal(n as nat),
    decreases n,
{
    if n < 10 {
        let mut r = String::new();
        push_char(&mut r, (48u8 + (n as u8)) as char);
        assert(r@ =~= decimal(n as nat));
        r
    } else {
        let mut r = decimal_text(n / 10);
        push_char(&mut r, (48u8 + ((n % 10) as u8)) as char);
        r
    }
}

/// `"disabled "` or `"enabled "`.
pub open spec fn state_word(disabled: bool) -> Seq<char> {
    if disabled {
        seq!['d', 'i', 's', 'a', 'b', 'l', 'e', 'd', ' ']
    } else {
        seq!['e', 'n', 'a', 'b', 'l', 'e', 'd', ' ']
    }
}

/// Appends `"disabled "` or `"enabled "`.
fn push_state_word(s: &mut String, disabled: bool)
    ensures
        final(s)@ == old(s)@ + state_word(disabled),
{
    if disabled {
        s.append("disabled ");
    } else {
        s.append("enabled ");
    }
    proof {
        reveal_strlit("disabled ");
        reveal_strlit("enabled ");
    }
    assert(final(s)@ =~= old(s)@ + state_word(disabled));
}

/// The message of toggling a hostname.
pub open spec fn toggle_host_message(disabled: bool, h: Seq<char>) -> Seq<char> {
    state_word(disabled) + h
}

/// `" entry(s) for IP "`.
pub open spec fn for_ip_words() -> Seq<char> {
    seq![' ', 'e', 'n', 't', 'r', 'y', '(', 's', ')', ' ', 'f', 'o', 'r', ' ', 'I', 'P', ' ']
}

/// The message of toggling an address.
pub open spec fn toggle_ip_message(disabled: bool, n: nat, ip: Seq<char>) -> Seq<char> {
    state_word(disabled) + decimal(n) + for_ip_words() + ip
}

impl Store {
    /// A store for the hosts file at `path`, holding nothing (as a file
    /// that does not exist yet).
    pub fn new(path: &str) -> (s: Self)
        ensures
            s@.path == path@,
            s@.content == Seq::<char>::empty(),
    {
        Store { path: path.to_owned(), content: String::new() }
    }

    /// A store for the hosts file at `path` that holds `content`, the text
    /// read from the file.
    pub fn with_content(path: &str, content: &str) -> (s: Self)
        ensures
            s@.path == path@,
            s@.content == content@,
    {
        Store { path: path.to_owned(), content: content.to_owned() }
    }

    /// Where the hosts file lives.
    pub fn path(&self) -> (p: &str)
        ensures
            p@ == self@.path,
    {
        self.path.as_str()
    }

    /// The text the hosts file holds.
    pub fn content(&self) -> (c: &str)
        ensures
            c@ == self@.content,
    {
        self.content.as_str()
    }

    /// Load all entries
    pub fn load(&self) -> (es: Vec<Entry>)
        ensures
            es.deep_view() == parse_spec(self@.content),
    {
        parse(self.content.as_str())
    }

    /// Save entries: the file holds their text from now on.
    pub fn save(&mut self, entries: &[Entry])
        ensures
            final(self)@.path == old(self)@.path,
            final(self)@.content == serialize_spec(entry_views(entries@)),
    {
        self.content = serialize(entries);
    }

    /// Save with locking (the lock is taken by whoever writes the file).
    pub fn safe_save(&mut self, entries: &[Entry])
        ensures
            final(self)@.path == old(self)@.path,
            final(self)@.content == serialize_spec(entry_views(entries@)),
    {
        self.save(entries);
    }

    /// Saves a list of entries.
    fn save_all(&mut self, entries: &Vec<Entry>)
        ensures
            final(self)@.path == old(self)@.path,
            final(self)@.content == serialize_spec(entries.deep_view()),
    {
        self.safe_save(entries.as_slice());
        assert(entry_views(entries@) =~= entries.deep_view());
    }

    /// Get all entries as display rows
    pub fn all_rows(&self) -> (rows: Vec<Row>)
        ensures
            rows.deep_view() == rows_of(parse_spec(self@.content)),
    {
        let entries = self.load();
        let ghost ev = entries.deep_view();
        let mut rows: Vec<Row> = Vec::new();
        for i in 0..entries.len()
            invariant
                ev == entries.deep_view(),
                rows.deep_view() == rows_of(ev.take(i as int)),
        {
            assert(ev.take(i + 1).drop_last() =~= ev.take(i as int));
            assert(ev.take(i + 1).last() == entries@[i as int]@);
            let entry = &entries[i];
            if !(entry.canonical.as_str().is_empty() && entry.aliases.len() == 0) {
                let row = Row {
                    ip: entry.ip.clone(),
                    host: entry.canonical.clone(),
                    comment: clone_opt(&entry.comment),
                    canonical: Some(entry.canonical.clone()),
                    aliases: clone_strings(&entry.aliases),
                };
                let ghost prev = rows.deep_view();
                rows.push(row);
                assert(rows.deep_view() =~= prev.push(entry_row(entry@)));
            }
        }
        assert(ev.take(entries.len() as int) =~= ev);
        rows
    }

    /// Add/merge an entry; returns the hostnames already named by an entry of
    /// another address.
    pub fn add_entry(&mut self, ip: &str, hosts: &[String], comment: Option<&str>) -> (dups: Vec<
        String,
    >)
        ensures
            final(self)@.path == old(self)@.path,
            final(self)@.content == serialize_spec(
                add_entry_spec(parse_spec(old(self)@.content), ip@, strs(hosts@), opt_str_view(comment)),
            ),
            dups.deep_view() == duplicates_spec(parse_spec(old(self)@.content), ip@, strs(hosts@)),
    {
        let mut entries = self.load();
        let ip_s = ip.to_owned();
        let duplicates = duplicates_of(&entries, &ip_s, hosts);
        add_entry_in(&mut entries, &ip_s, hosts, comment);
        self.save_all(&entries);
        duplicates
    }

    /// Remove hostnames from all entries; returns how many hostnames went
    /// (counted up to `usize::MAX`).
    pub fn remove_hostnames(&mut self, hostnames: &[String]) -> (removed: usize)
        ensures
            final(self)@.path == old(self)@.path,
            final(self)@.content == serialize_spec(
                remove_hostnames_spec(parse_spec(old(self)@.content), strs(hostnames@)),
            ),
            removed == clamp(removed_total(parse_spec(old(self)@.content), strs(hostnames@)) as int),
    {
        let entries = self.load();
        let (kept, removed) = remove_hostnames_in(&entries, hostnames);
        self.save_all(&kept);
        removed
    }

    /// Remove all entries for an IP; returns how many went.
    pub fn remove_by_ip(&mut self, ip: &str) -> (removed: usize)
        ensures
            final(self)@.path == old(self)@.path,
            final(self)@.content == serialize_spec(other_ips(parse_spec(old(self)@.content), ip@)),
            removed == parse_spec(old(self)@.content).len() - other_ips(
                parse_spec(old(self)@.content),
                ip@,
            ).len(),
    {
        let entries = self.load();
        let ip_s = ip.to_owned();
        let kept = remove_ip_in(&entries, &ip_s);
        proof {
            lemma_other_ips_len(entries.deep_view(), ip@);
        }
        let removed = entries.len() - kept.len();
        self.save_all(&kept);
        removed
    }

    /// Disable hostnames: split each out into its own disabled line.
    pub fn disable_hostname(&mut self, hostnames: &[String]) -> (count: usize)
        ensures
            final(self)@.path == old(self)@.path,
            final(self)@.content == serialize_spec(
                disable_hostname_spec(parse_spec(old(self)@.content), strs(hostnames@)).0,
            ),
            count == disable_hostname_spec(parse_spec(old(self)@.content), strs(hostnames@)).1,
    {
        let entries = self.load();
        let (out, count) = disable_hostnames_in(&entries, hostnames);
        self.save_all(&out);
        count
    }

    /// Enable hostnames: merge disabled entries back into their IP line.
    pub fn enable_hostname(&mut self, hostnames: &[String]) -> (count: usize)
        ensures
            final(self)@.path == old(self)@.path,
            final(self)@.content == serialize_spec(
                enable_hostname_spec(parse_spec(old(self)@.content), strs(hostnames@)).0,
            ),
            count == enable_hostname_spec(parse_spec(old(self)@.content), strs(hostnames@)).1,
    {
        let entries = self.load();
        let (out, count) = enable_hostnames_in(&entries, hostnames);
        self.save_all(&out);
        count
    }

    /// Toggle a hostname: if any entry with it is enabled → disable; else → enable.
    pub fn toggle_hostname(&mut self, hostname: &str) -> (msg: String)
        ensures
            final(self)@.path == old(self)@.path,
            final(self)@.content == serialize_spec(
                toggle_host_spec(parse_spec(old(self)@.content), hostname@).0,
            ),
            msg@ == toggle_host_message(
                toggle_host_spec(parse_spec(old(self)@.content), hostname@).1,
                hostname@,
            ),
    {
        let entries = self.load();
        let ghost ev = entries.deep_view();
        let h = hostname.to_owned();
        let mut any_enabled = false;
        for i in 0..entries.len()
            invariant
                ev == entries.deep_view(),
                any_enabled == exists|k: int|
                    0 <= k < i && !ev[k].disabled && #[trigger] has_host(ev[k], h@),
        {
            assert(ev[i as int] == entries@[i as int]@);
            if !entries[i].disabled && crate::edit::entry_has_host(&entries[i], &h) {
                any_enabled = true;
            }
        }
        let names = vec![h];
        assert(strs(names@) =~= seq![hostname@]);
        let mut msg = String::new();
        push_state_word(&mut msg, any_enabled);
        if any_enabled {
            let (out, _) = disable_hostnames_in(&entries, names.as_slice());
            self.save_all(&out);
        } else {
            let (out, _) = enable_hostnames_in(&entries, names.as_slice());
            self.save_all(&out);
        }
        msg.append(hostname);
        msg
    }

    /// Disable all entries for an IP; returns how many entries changed (the
    /// file is rewritten only when some did).
    pub fn disable_by_ip(&mut self, ip: &str) -> (count: usize)
        ensures
            final(self)@.path == old(self)@.path,
            count == count_ip_state(parse_spec(old(self)@.content), ip@, false),
            final(self)@.content == crate::stored::ip_state_text(old(self)@.content, ip@, true),
    {
        let mut entries = self.load();
        let ip_s = ip.to_owned();
        let count = set_ip_state_in(&mut entries, &ip_s, true);
        if count > 0 {
            self.save_all(&entries);
        }
        count
    }

    /// Enable all disabled entries for an IP; returns how many entries
    /// changed (the file is rewritten only when some did).
    pub fn enable_by_ip(&mut self, ip: &str) -> (count: usize)
        ensures
            final(self)@.path == old(self)@.path,
            count == count_ip_state(parse_spec(old(self)@.content), ip@, true),
            final(self)@.content == crate::stored::ip_state_text(old(self)@.content, ip@, false),
    {
        let mut entries = self.load();
        let ip_s = ip.to_owned();
        let count = set_ip_state_in(&mut entries, &ip_s, false);
        if count > 0 {
            self.save_all(&entries);
        }
        count
    }

    /// Toggle all entries for an IP
    pub fn toggle_by_ip(&mut self, ip: &str) -> (msg: String)
        ensures
            final(self)@.path == old(self)@.path,
            ({
                let es = parse_spec(old(self)@.content);
                let d = any_enabled_ip(es, ip@);
                let n = count_ip_state(es, ip@, !d);
                &&& msg@ == toggle_ip_message(d, n, ip@)
                &&& final(self)@.content == if n > 0 {
                    serialize_spec(set_ip_state(es, ip@, d))
                } else {
                    old(self)@.content
                }
            }),
    {
        let entries = self.load();
        let ghost ev = entries.deep_view();
        let ip_s = ip.to_owned();
        let mut any_enabled = false;
        for i in 0..entries.len()
            invariant
                ev == entries.deep_view(),
                ip_s@ == ip@,
                any_enabled == exists|k: int|
                    0 <= k < i && !ev[k].disabled && #[trigger] ev[k].ip == ip@,
        {
            assert(ev[i as int] == entries@[i as int]@);
            let hit = !entries[i].disabled && entries[i].ip == ip_s;
            assert(hit == (!ev[i as int].disabled && ev[i as int].ip == ip@));
            if hit {
                any_enabled = true;
            }
        }
        let n = if any_enabled {
            self.disable_by_ip(ip)
        } else {
            self.enable_by_ip(ip)
        };
        let mut msg = String::new();
        push_state_word(&mut msg, any_enabled);
        let digits = decimal_text(n);
        msg.append(digits.as_str());
        msg.append(" entry(s) for IP ");
        proof {
            reveal_strlit(" entry(s) for IP ");
        }
        msg.append(ip);
        assert(msg@ =~= toggle_ip_message(any_enabled, n as nat, ip@));
        msg
    }

    /// Move a hostname from its current IP(s) to a new IP; returns how many
    /// entries it left (the file is rewritten only when some did).
    pub fn move_hostname(&mut self, hostname: &str, new_ip: &str) -> (moved: usize)
        ensures
            final(self)@.path == old(self)@.path,
            moved == move_hostname_spec(parse_spec(old(self)@.content), hostname@, new_ip@).1,
            final(self)@.content == if moved > 0 {
                serialize_spec(
                    move_hostname_spec(parse_spec(old(self)@.content), hostname@, new_ip@).0,
                )
            } else {
                old(self)@.content
            },
    {
        let entries = self.load();
        let h = hostname.to_owned();
        let ip_s = new_ip.to_owned();
        let (out, moved) = move_hostname_in(&entries, &h, &ip_s);
        if moved > 0 {
            self.save_all(&out);
        }
        moved
    }

    /// Verify the hosts file. Returns structured issues (line, ip, host, issue).
    pub fn verify(&self) -> (issues: Vec<Issue>)
        ensures
            issues_view(issues@) == issues_spec(self@.content),
    {
        issues_of(self.content.as_str())
    }
}

} // verus!
