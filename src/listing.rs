//! Listing a real directory, and watching it for changes.

use vstd::prelude::*;

use crate::archive_entry::format_local_time;
use crate::decode::{nfc, to_nfc};
use crate::entry::{default_time, default_time_text, Entry, EntryView};
use crate::format::{decimal, decimal_chars, full_perm_string, full_perm_text, ls_style_size, size_text, FileKind};
use crate::text::{chars_of, concat_chars, string_of};
use crate::virtual_dir::{entry_views, insert_sorted, names_sorted};

verus! {

broadcast use vstd::seq_lib::group_to_multiset_ensures, vstd::multiset::group_multiset_axioms;

/// What the file system says of one entry of a directory.
pub struct ChildMeta {
    pub kind: FileKind,
    pub mode: u32,
    pub len: u64,
    /// The change time, in seconds since the epoch.
    pub ctime: i64,
}

/// Where a symbolic link leads.
pub enum LinkTarget {
    /// Not a link, or it could not be read.
    NotALink,
    /// A directory, at this path.
    Dir(String),
    /// A file, at this path.
    File(String),
    /// Nothing that can be read, at this path.
    Missing(String),
}

/// The link column: `d:`, `f:` or `e:` followed by the target; empty for
/// an entry that is no link.
pub open spec fn link_text(t: LinkTarget) -> Seq<char> {
    match t {
        LinkTarget::NotALink => Seq::empty(),
        LinkTarget::Dir(p) => seq!['d', ':'] + p@,
        LinkTarget::File(p) => seq!['f', ':'] + p@,
        LinkTarget::Missing(p) => seq!['e', ':'] + p@,
    }
}

fn link_string(t: &LinkTarget) -> (r: String)
    ensures
        r@ == link_text(*t),
{
    let (c, p) = match t {
        LinkTarget::NotALink => return String::new(),
        LinkTarget::Dir(p) => ('d', p),
        LinkTarget::File(p) => ('f', p),
        LinkTarget::Missing(p) => ('e', p),
    };
    let mut head: Vec<char> = Vec::new();
    head.push(c);
    head.push(':');
    string_of(&concat_chars(&head, &chars_of(p.as_str())))
}

/// Lists real directories, with times written in one style.
pub struct Ls {
    time_style: String,
}

impl Ls {
    pub closed spec fn style(&self) -> Seq<char> {
        self.time_style@
    }

    pub fn new(time_style: &str) -> (r: Ls)
        ensures
            r.style() == time_style@,
    {
        Ls { time_style: string_of(&chars_of(time_style)) }
    }

    /// A name as the listing shows it: NFC-normalised.
    pub fn to_nfc_string(&self, name: &str) -> (r: String)
        ensures
            r@ == nfc(name@),
    {
        to_nfc(name)
    }

    /// The entry of a directory's child named `name`: the defaults when its
    /// metadata could not be read; otherwise its permissions, size, change
    /// time and, for a link, where it leads.
    pub fn child_entry(&self, name: &str, meta: &Option<ChildMeta>, link: &LinkTarget) -> (r: Entry)
        ensures
            r@.name == nfc(name@),
            meta is None ==> r@.perm == full_perm_text(FileKind::File, None) && r@.size == seq!['0']
                && r@.time == default_time_text() && r@.link.len() == 0,
            meta matches Some(m) ==> r@.perm == full_perm_text(m.kind, Some(m.mode)) && r@.size == size_text(m.len as nat)
                && (m.kind == FileKind::Symlink ==> r@.link == link_text(*link))
                && (m.kind != FileKind::Symlink ==> r@.link.len() == 0),
    {
        let n = to_nfc(name);
        match meta {
            None => {
                let mut z: Vec<char> = Vec::new();
                z.push('0');
                assert(z@ =~= seq!['0']);
                Entry {
                    perm: full_perm_string(FileKind::File, None),
                    size: string_of(&z),
                    time: default_time(),
                    name: n,
                    link: String::new(),
                }
            },
            Some(m) => {
                let time = match format_local_time(m.ctime, self.time_style.as_str()) {
                    Some(t) => t,
                    None => default_time(),
                };
                let link = match m.kind {
                    FileKind::Symlink => link_string(link),
                    _ => String::new(),
                };
                Entry { perm: full_perm_string(m.kind, Some(m.mode)), size: ls_style_size(m.len), time, name: n, link }
            },
        }
    }

    /// A directory's listing: the `..` entry, then the children's entries
    /// in order of their names.
    pub fn entries(&self, parent: Entry, children: Vec<Entry>) -> (r: Vec<Entry>)
        ensures
            r@.len() == children@.len() + 1,
            r@[0]@ == parent@,
            names_sorted(entry_views(r@).drop_first()),
            entry_views(r@).drop_first().to_multiset() == entry_views(children@).to_multiset(),
    {
        let ghost all = entry_views(children@);
        let mut sorted: Vec<Entry> = Vec::new();
        let mut rest = children;
        let ghost taken: Seq<EntryView> = Seq::empty();
        assert(all =~= taken + entry_views(rest@));
        while rest.len() > 0
            invariant
                names_sorted(entry_views(sorted@)),
                entry_views(sorted@).to_multiset() == taken.to_multiset(),
                all == taken + entry_views(rest@),
            decreases rest@.len(),
        {
            let e = rest.remove(0);
            let ghost ev = e@;
            proof {
                let rv = entry_views(rest@);
                assert(taken + seq![ev] + rv =~= all);
                taken = taken.push(ev);
                assert(taken + rv =~= all);
            }
            insert_sorted(&mut sorted, e);
        }
        assert(taken =~= all);
        let ghost pv = parent@;
        let mut out: Vec<Entry> = Vec::new();
        out.push(parent);
        let ghost sv = entry_views(sorted@);
        let mut srt = sorted;
        assert(entry_views(out@).drop_first() =~= Seq::<EntryView>::empty());
        while srt.len() > 0
            invariant
                entry_views(out@).len() >= 1,
                entry_views(out@)[0] == pv,
                entry_views(out@).drop_first() + entry_views(srt@) == sv,
            decreases srt@.len(),
        {
            let e = srt.remove(0);
            let ghost before = entry_views(out@);
            out.push(e);
            assert(entry_views(out@) =~= before.push(e@));
            assert(entry_views(out@).drop_first() =~= before.drop_first().push(e@));
            assert(entry_views(out@)[0] == before[0]);
        }
        assert(entry_views(out@).drop_first() =~= sv);
        assert(out@[0]@ == entry_views(out@)[0]);
        proof {
            vstd::seq_lib::to_multiset_len(sv);
            vstd::seq_lib::to_multiset_len(all);
        }
        out
    }

    /// The fingerprint of a directory: each child's change time, seconds
    /// then nanoseconds, written one after the other.
    pub fn signature(&self, stamps: &Vec<(i64, i64)>) -> (r: String)
        ensures
            r@ == signature_text(stamps@),
    {
        let mut out: Vec<char> = Vec::new();
        let mut i: usize = 0;
        while i < stamps.len()
            invariant
                i <= stamps@.len(),
                out@ == signature_text(stamps@.subrange(0, i as int)),
            decreases stamps@.len() - i,
        {
            let (s, n) = stamps[i];
            let a = signed_decimal(s);
            let b = signed_decimal(n);
            let ghost before = out@;
            out = concat_chars(&concat_chars(&out, &a), &b);
            let ghost sub = stamps@.subrange(0, i as int + 1);
            assert(sub.drop_last() =~= stamps@.subrange(0, i as int));
            i += 1;
        }
        assert(stamps@.subrange(0, stamps@.len() as int) =~= stamps@);
        string_of(&out)
    }
}

/// An integer in decimal, with a `-` when negative.
pub open spec fn signed_text(n: i64) -> Seq<char> {
    if n < 0 {
        seq!['-'] + decimal((-(n as int)) as nat)
    } else {
        decimal(n as nat)
    }
}

pub open spec fn signature_text(stamps: Seq<(i64, i64)>) -> Seq<char>
    decreases stamps.len(),
{
    if stamps.len() == 0 {
        Seq::empty()
    } else {
        signature_text(stamps.drop_last()) + signed_text(stamps.last().0) + signed_text(stamps.last().1)
    }
}

fn signed_decimal(n: i64) -> (r: Vec<char>)
    ensures
        r@ == signed_text(n),
{
    if n < 0 {
        let mag: u64 = if n == i64::MIN { 9223372036854775808u64 } else { (-n) as u64 };
        let mut head: Vec<char> = Vec::new();
        head.push('-');
        concat_chars(&head, &decimal_chars(mag))
    } else {
        decimal_chars(n as u64)
    }
}

/// A watched directory: its path, its fingerprint and its entries as last
/// listed.
pub struct Watch {
    pub path: String,
    pub signature: String,
    pub entries: Vec<Entry>,
}

impl Watch {
    /// A watch of `path`, listed with `entries` under fingerprint
    /// `signature`.
    pub fn new(path: &str, signature: String, entries: Vec<Entry>) -> (r: Watch)
        ensures
            r.path@ == path@,
            r.signature@ == signature@,
            r.entries == entries,
    {
        Watch { path: string_of(&chars_of(path)), signature, entries }
    }

    /// Compares a fresh fingerprint with the stored one: when they differ
    /// the new one is kept and `true` says that the entries are to be listed
    /// again (and handed to `set_entries`).
    pub fn check_updates(&mut self, signature: String) -> (r: bool)
        ensures
            r == (signature@ != old(self).signature@),
            final(self).signature@ == signature@,
            final(self).path == old(self).path,
            final(self).entries == old(self).entries,
    {
        let a = chars_of(self.signature.as_str());
        let b = chars_of(signature.as_str());
        if crate::text::chars_eq(&a, &b) {
            false
        } else {
            self.signature = signature;
            true
        }
    }

    /// Keeps a fresh listing.
    pub fn set_entries(&mut self, entries: Vec<Entry>)
        ensures
            final(self).entries == entries,
            final(self).path == old(self).path,
            final(self).signature@ == old(self).signature@,
    {
        self.entries = entries;
    }
}

} // verus!
