//! The archive formats that can be browsed and extracted.

use vstd::prelude::*;

use crate::errors::VirtualDirError;

verus! {

/// An archive format.
#[derive(Clone, Copy, Debug, PartialEq, Eq, Structural)]
pub enum ArchiveKind {
    Zip,
    Tar,
    Tgz,
}

impl ArchiveKind {
    /// The kind named `s`, if any: `zip`, `tar` or `tgz`.
    pub open spec fn parse_view(s: Seq<char>) -> Option<ArchiveKind> {
        if s == "zip"@ {
            Some(ArchiveKind::Zip)
        } else if s == "tar"@ {
            Some(ArchiveKind::Tar)
        } else if s == "tgz"@ {
            Some(ArchiveKind::Tgz)
        } else {
            None
        }
    }

    /// Reads an archive kind; any other name is unsupported.
    pub fn from_str(s: &str) -> (r: Result<ArchiveKind, VirtualDirError>)
        ensures
            match ArchiveKind::parse_view(s@) {
                Some(k) => r == Ok::<ArchiveKind, VirtualDirError>(k),
                None => r == Err::<ArchiveKind, VirtualDirError>(VirtualDirError::UnsupportedArchive),
            },
    {
        proof {
            reveal_strlit("zip");
            reveal_strlit("tar");
            reveal_strlit("tgz");
        }
        let c = crate::text::chars_of(s);
        if c.len() == 3 && c[0] == 'z' && c[1] == 'i' && c[2] == 'p' {
            assert(s@ =~= "zip"@);
            Ok(ArchiveKind::Zip)
        } else if c.len() == 3 && c[0] == 't' && c[1] == 'a' && c[2] == 'r' {
            assert(s@ =~= "tar"@);
            Ok(ArchiveKind::Tar)
        } else if c.len() == 3 && c[0] == 't' && c[1] == 'g' && c[2] == 'z' {
            assert(s@ =~= "tgz"@);
            Ok(ArchiveKind::Tgz)
        } else {
            assert(s@ != "zip"@ && s@ != "tar"@ && s@ != "tgz"@);
            Err(VirtualDirError::UnsupportedArchive)
        }
    }
}

} // verus!
