//! The data of a hosts file: entries, and the rows shown to users.
use vstd::prelude::*;

verus! {

/// One line of a hosts file: an address, its canonical hostname and its aliases.
#[derive(Debug)]
pub struct Entry {
    pub id: usize,
    pub ip: String,
    pub canonical: String,
    pub aliases: Vec<String>,
    pub comment: Option<String>,
    pub disabled: bool,
    pub raw: Option<String>,
}

/// The mathematical value of an [`Entry`].
pub struct EntryView {
    pub id: nat,
    pub ip: Seq<char>,
    pub canonical: Seq<char>,
    pub aliases: Seq<Seq<char>>,
    pub comment: Option<Seq<char>>,
    pub disabled: bool,
    pub raw: Option<Seq<char>>,
}

/// The value of an optional string.
pub open spec fn opt_view(o: Option<String>) -> Option<Seq<char>> {
    match o {
        Some(s) => Some(s@),
        None => None,
    }
}

impl View for Entry {
    type V = EntryView;

    open spec fn view(&self) -> EntryView {
        EntryView {
            id: self.id as nat,
            ip: self.ip@,
            canonical: self.canonical@,
            aliases: self.aliases.deep_view(),
            comment: opt_view(self.comment),
            disabled: self.disabled,
            raw: opt_view(self.raw),
        }
    }
}

impl DeepView for Entry {
    type V = EntryView;

    open spec fn deep_view(&self) -> EntryView {
        self@
    }
}

/// A row for display and rendering.
#[derive(Debug)]
pub struct Row {
    pub ip: String,
    pub host: String,
    pub comment: Option<String>,
    /// The canonical hostname for this IP
    pub canonical: Option<String>,
    /// Alias hostnames (empty if none)
    pub aliases: Vec<String>,
}

/// The mathematical value of a [`Row`].
pub struct RowView {
    pub ip: Seq<char>,
    pub host: Seq<char>,
    pub comment: Option<Seq<char>>,
    pub canonical: Option<Seq<char>>,
    pub aliases: Seq<Seq<char>>,
}

impl View for Row {
    type V = RowView;

    open spec fn view(&self) -> RowView {
        RowView {
            ip: self.ip@,
            host: self.host@,
            comment: opt_view(self.comment),
            canonical: opt_view(self.canonical),
            aliases: self.aliases.deep_view(),
        }
    }
}

impl DeepView for Row {
    type V = RowView;

    open spec fn deep_view(&self) -> RowView {
        self@
    }
}

/// Search match info
#[derive(Debug)]
pub struct SearchMatch {
    pub entry_id: Option<usize>,
    pub field: String,
    pub matched_text: String,
    pub line: String,
}

/// A copy of an optional string.
pub fn clone_opt(o: &Option<String>) -> (r: Option<String>)
    ensures
        opt_view(r) == opt_view(*o),
{
    match o {
        Some(s) => Some(s.clone()),
        None => None,
    }
}

/// A copy of a list of strings.
pub fn clone_strings(v: &Vec<String>) -> (r: Vec<String>)
    ensures
        r.deep_view() == v.deep_view(),
{
    let mut r: Vec<String> = Vec::new();
    for i in 0..v.len()
        invariant
            r@.len() == i,
            forall|j: int| 0 <= j < i ==> #[trigger] r@[j]@ == v@[j]@,
    {
        let s = v[i].clone();
        r.push(s);
    }
    assert(r.deep_view() =~= v.deep_view());
    r
}

/// A copy of an entry.
pub fn clone_entry(e: &Entry) -> (r: Entry)
    ensures
        r@ == e@,
{
    Entry {
        id: e.id,
        ip: e.ip.clone(),
        canonical: e.canonical.clone(),
        aliases: clone_strings(&e.aliases),
        comment: clone_opt(&e.comment),
        disabled: e.disabled,
        raw: clone_opt(&e.raw),
    }
}

} // verus!
