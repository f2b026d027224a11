//! The entries of tar and zip archives, from the plain values their headers
//! hold to the uniform record that listings read.

use std::fmt::Write as _;

use vstd::prelude::*;

use crate::decode::{decode_path, nfc, raw_text, strip_dot_slash, tar_path_bytes, name_unreliable};
use crate::entry::{default_time, default_time_text, ArchiveRecord, RecordView};
use crate::format::{full_perm_string, full_perm_text, FileKind};
use crate::text::{chars_of, string_of};

verus! {

/// Relies on `chrono::Local::timestamp_opt` and `DateTime::format`: the
/// local time of `secs` seconds after the epoch, formatted with `style`;
/// none when the time does not exist locally or the style cannot be
/// written. The result depends on the machine's time zone.
#[verifier::external_body]
pub(crate) fn format_local_time(secs: i64, style: &str) -> (r: Option<String>)
{
    let dt = chrono::TimeZone::timestamp_opt(&chrono::Local, secs, 0).single()?;
    let mut out = String::new();
    write!(out, "{}", dt.format(style)).ok()?;
    Some(out)
}

pub uninterp spec fn naive_text(year: u16, month: u8, day: u8, hour: u8, minute: u8, second: u8, style: Seq<char>) -> Option<Seq<char>>;

/// Relies on `chrono::NaiveDate::from_ymd_opt`, `NaiveDate::and_hms_opt` and
/// `NaiveDateTime::format`: the date and time written with `style`, without
/// a time zone; none when the date or time does not exist or the style
/// cannot be written.
#[verifier::external_body]
fn format_naive_time(year: u16, month: u8, day: u8, hour: u8, minute: u8, second: u8, style: &str) -> (r: Option<String>)
    ensures
        match naive_text(year, month, day, hour, minute, second, style@) {
            Some(t) => r matches Some(s) && s@ == t,
            None => r is None,
        },
{
    let d = chrono::NaiveDate::from_ymd_opt(year as i32, month as u32, day as u32)?;
    let dt = d.and_hms_opt(hour as u32, minute as u32, second as u32)?;
    let mut out = String::new();
    write!(out, "{}", dt.format(style)).ok()?;
    Some(out)
}

/// What every archive entry offers: its permissions, path, size and time.
pub trait ArchiveEntry {
    spec fn record_view(&self) -> RecordView;

    /// The entry as a record of plain values.
    fn record(&self) -> (r: ArchiveRecord)
        ensures
            r@ == self.record_view(),
    ;
}

/// What a tar header says of an entry, as plain values.
pub struct TarHeader {
    pub kind: FileKind,
    /// The mode, if it could be read.
    pub mode: Option<u32>,
    /// The name field's bytes.
    pub path_bytes: Vec<u8>,
    /// The full path the reader assembled (from extensions), if known.
    pub full_path: Option<Vec<u8>>,
    pub size: Option<u64>,
    /// Seconds since the epoch, if they could be read.
    pub mtime: Option<u64>,
}

/// An entry of a tar archive.
pub struct TarEntry {
    time_style: String,
    perm: String,
    path: String,
    size: u64,
    time: String,
}

/// The path a tar entry gets from its header.
pub open spec fn tar_entry_path(h_bytes: Seq<u8>, full: Option<Seq<u8>>) -> Seq<char> {
    let raw = if name_unreliable(h_bytes) && full is Some { full->Some_0 } else { h_bytes };
    strip_dot_slash(nfc(raw_text(raw)))
}

impl ArchiveEntry for TarEntry {
    closed spec fn record_view(&self) -> RecordView {
        RecordView { perm: self.perm@, path: self.path@, size: self.size, time: self.time@ }
    }

    fn record(&self) -> (r: ArchiveRecord) {
        ArchiveRecord {
            perm: string_of(&chars_of(self.perm.as_str())),
            path: string_of(&chars_of(self.path.as_str())),
            size: self.size,
            time: string_of(&chars_of(self.time.as_str())),
        }
    }
}

impl TarEntry {
    pub closed spec fn style(&self) -> Seq<char> {
        self.time_style@
    }

    /// An entry with the defaults: ten dashes, no path, size 0, no time.
    pub fn new(time_style: &str) -> (r: TarEntry)
        ensures
            r.record_view() == (RecordView {
                perm: full_perm_text(FileKind::File, None),
                path: Seq::empty(),
                size: 0,
                time: default_time_text(),
            }),
            r.style() == time_style@,
    {
        TarEntry {
            time_style: string_of(&chars_of(time_style)),
            perm: full_perm_string(FileKind::File, None),
            path: String::new(),
            size: 0,
            time: default_time(),
        }
    }

    /// Takes the entry's values from its header. The time is the local
    /// time of the modification time, formatted with the entry's style, or
    /// the default when it cannot be read or written.
    pub fn init(&mut self, header: &TarHeader)
        ensures
            final(self).style() == old(self).style(),
            final(self).record_view().perm == full_perm_text(header.kind, header.mode),
            final(self).record_view().path == tar_entry_path(header.path_bytes@, match header.full_path {
                Some(f) => Some(f@),
                None => None,
            }),
            final(self).record_view().size == match header.size {
                Some(s) => s,
                None => 0,
            },
            header.mtime is None ==> final(self).record_view().time == default_time_text(),
    {
        self.perm = full_perm_string(header.kind, header.mode);
        let raw = tar_path_bytes(copy_bytes(&header.path_bytes), match &header.full_path {
            Some(f) => Some(copy_bytes(f)),
            None => None,
        });
        self.path = decode_path(&raw);
        self.size = match header.size {
            Some(s) => s,
            None => 0,
        };
        self.time = match header.mtime {
            Some(ts) => {
                let t = if ts <= i64::MAX as u64 {
                    format_local_time(ts as i64, self.time_style.as_str())
                } else {
                    None
                };
                match t {
                    Some(t) => t,
                    None => default_time(),
                }
            },
            None => default_time(),
        };
    }
}

fn copy_bytes(v: &Vec<u8>) -> (r: Vec<u8>)
    ensures
        r@ == v@,
{
    let mut r: Vec<u8> = Vec::new();
    let mut i: usize = 0;
    while i < v.len()
        invariant
            i <= v@.len(),
            r@ == v@.subrange(0, i as int),
        decreases v@.len() - i,
    {
        r.push(v[i]);
        i += 1;
        assert(r@ =~= v@.subrange(0, i as int));
    }
    assert(v@.subrange(0, v@.len() as int) =~= v@);
    r
}

/// A date and time as a zip header stores it, in local time without a
/// zone.
pub struct DosTime {
    pub year: u16,
    pub month: u8,
    pub day: u8,
    pub hour: u8,
    pub minute: u8,
    pub second: u8,
}

/// What a zip header says of an entry, as plain values.
pub struct ZipHeader {
    pub kind: FileKind,
    /// The Unix mode, if the archive records one.
    pub mode: Option<u32>,
    /// The name's bytes.
    pub name_bytes: Vec<u8>,
    pub size: u64,
    /// The modification time from the extended-timestamp field, in seconds
    /// since the epoch, if there is one.
    pub extended_mtime: Option<i64>,
    /// The DOS modification time, if there is one.
    pub dos_time: Option<DosTime>,
}

/// An entry of a zip archive.
pub struct ZipEntry {
    time_style: String,
    perm: String,
    path: String,
    size: u64,
    time: String,
}

impl ArchiveEntry for ZipEntry {
    closed spec fn record_view(&self) -> RecordView {
        RecordView { perm: self.perm@, path: self.path@, size: self.size, time: self.time@ }
    }

    fn record(&self) -> (r: ArchiveRecord) {
        ArchiveRecord {
            perm: string_of(&chars_of(self.perm.as_str())),
            path: string_of(&chars_of(self.path.as_str())),
            size: self.size,
            time: string_of(&chars_of(self.time.as_str())),
        }
    }
}

impl ZipEntry {
    pub closed spec fn style(&self) -> Seq<char> {
        self.time_style@
    }

    /// An entry with the defaults: ten dashes, no path, size 0, no time.
    pub fn new(time_style: &str) -> (r: ZipEntry)
        ensures
            r.record_view() == (RecordView {
                perm: full_perm_text(FileKind::File, None),
                path: Seq::empty(),
                size: 0,
                time: default_time_text(),
            }),
            r.style() == time_style@,
    {
        ZipEntry {
            time_style: string_of(&chars_of(time_style)),
            perm: full_perm_string(FileKind::File, None),
            path: String::new(),
            size: 0,
            time: default_time(),
        }
    }

    /// Takes the entry's values from its header. The time prefers the
    /// extended timestamp (local time), then the DOS time, then the
    /// default.
    pub fn init(&mut self, header: &ZipHeader)
        ensures
            final(self).style() == old(self).style(),
            final(self).record_view().perm == full_perm_text(header.kind, header.mode),
            final(self).record_view().path == strip_dot_slash(nfc(raw_text(header.name_bytes@))),
            final(self).record_view().size == header.size,
            header.extended_mtime is None ==> final(self).record_view().time == match header.dos_time {
                Some(d) => match naive_text(d.year, d.month, d.day, d.hour, d.minute, d.second, old(self).style()) {
                    Some(t) => t,
                    None => default_time_text(),
                },
                None => default_time_text(),
            },
    {
        self.perm = full_perm_string(header.kind, header.mode);
        self.path = decode_path(&header.name_bytes);
        self.size = header.size;
        let from_ext = match header.extended_mtime {
            Some(secs) => format_local_time(secs, self.time_style.as_str()),
            None => None,
        };
        self.time = match from_ext {
            Some(t) => t,
            None => match &header.dos_time {
                Some(d) => match format_naive_time(d.year, d.month, d.day, d.hour, d.minute, d.second, self.time_style.as_str()) {
                    Some(t) => t,
                    None => default_time(),
                },
                None => default_time(),
            },
        };
    }
}

} // verus!
