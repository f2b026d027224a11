//! Directory entries as the client sees them, and the entries that archive
//! readers hand over.

use vstd::prelude::*;

use crate::format::{ls_style_size, size_text};
use crate::text::{chars_of, string_of};

verus! {

/// One line of a directory listing.
pub struct Entry {
    /// Ten characters: the file type, then `rwx` triples.
    pub perm: String,
    /// The size in the style of `ls -h`.
    pub size: String,
    /// The modification or change time, formatted.
    pub time: String,
    /// The name, NFC-normalised.
    pub name: String,
    /// Where a symbolic link points (`d:`, `f:` or `e:` and the target);
    /// empty otherwise.
    pub link: String,
}

/// The mathematical content of an `Entry`.
pub ghost struct EntryView {
    pub perm: Seq<char>,
    pub size: Seq<char>,
    pub time: Seq<char>,
    pub name: Seq<char>,
    pub link: Seq<char>,
}

impl View for Entry {
    type V = EntryView;

    open spec fn view(&self) -> EntryView {
        EntryView {
            perm: self.perm@,
            size: self.size@,
            time: self.time@,
            name: self.name@,
            link: self.link@,
        }
    }
}

impl Entry {
    /// A copy of the entry.
    pub fn duplicate(&self) -> (r: Entry)
        ensures
            r@ == self@,
    {
        Entry {
            perm: string_of(&chars_of(self.perm.as_str())),
            size: string_of(&chars_of(self.size.as_str())),
            time: string_of(&chars_of(self.time.as_str())),
            name: string_of(&chars_of(self.name.as_str())),
            link: string_of(&chars_of(self.link.as_str())),
        }
    }
}

/// The time text used when an entry's time is not known.
pub open spec fn default_time_text() -> Seq<char> {
    seq!['-', '-', '/', '-', '-', '/', '-', '-', ' ', '-', '-', ':', '-', '-', ':', '-', '-']
}

pub fn default_time() -> (r: String)
    ensures
        r@ == default_time_text(),
{
    let mut v: Vec<char> = Vec::new();
    v.push('-');
    v.push('-');
    v.push('/');
    v.push('-');
    v.push('-');
    v.push('/');
    v.push('-');
    v.push('-');
    v.push(' ');
    v.push('-');
    v.push('-');
    v.push(':');
    v.push('-');
    v.push('-');
    v.push(':');
    v.push('-');
    v.push('-');
    assert(v@ =~= default_time_text());
    string_of(&v)
}

/// One entry of an archive, as every archive reader presents it.
pub struct ArchiveRecord {
    /// Ten permission characters.
    pub perm: String,
    /// The path inside the archive, decoded, without a leading `./`; a
    /// directory's path ends with `/`.
    pub path: String,
    pub size: u64,
    /// The modification time, formatted.
    pub time: String,
}

/// The mathematical content of an `ArchiveRecord`.
pub ghost struct RecordView {
    pub perm: Seq<char>,
    pub path: Seq<char>,
    pub size: u64,
    pub time: Seq<char>,
}

impl View for ArchiveRecord {
    type V = RecordView;

    open spec fn view(&self) -> RecordView {
        RecordView { perm: self.perm@, path: self.path@, size: self.size, time: self.time@ }
    }
}

/// The entry that a listing shows for an archive record under `name`.
pub open spec fn record_entry(perm: Seq<char>, size: u64, time: Seq<char>, name: Seq<char>) -> EntryView {
    EntryView { perm, size: size_text(size as nat), time, name, link: Seq::empty() }
}

impl ArchiveRecord {
    /// The listing entry for this record, shown under `name`.
    pub fn entry(&self, name: &str) -> (r: Entry)
        ensures
            r@ == record_entry(self.perm@, self.size, self.time@, name@),
    {
        Entry {
            perm: string_of(&chars_of(self.perm.as_str())),
            size: ls_style_size(self.size),
            time: string_of(&chars_of(self.time.as_str())),
            name: string_of(&chars_of(name)),
            link: String::new(),
        }
    }
}

} // verus!
