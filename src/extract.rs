//! Extracting chosen entries of an archive onto the file system: which
//! entries are chosen, where each one goes, and what is reported.

use vstd::prelude::*;

use crate::errors::VirtualDirError;
use crate::message::Payload;
use crate::path::string_views;
use crate::task_manager::TaskResult;
use crate::text::{chars_eq, chars_of, concat_chars, has_prefix, string_of, suffix_from};

verus! {

pub open spec fn starts_with(s: Seq<char>, p: Seq<char>) -> bool {
    p.len() <= s.len() && s.subrange(0, p.len() as int) == p
}

pub open spec fn after_prefix(s: Seq<char>, p: Seq<char>) -> Seq<char> {
    s.subrange(p.len() as int, s.len() as int)
}

/// `s` without one leading `/`.
pub open spec fn strip_slash(s: Seq<char>) -> Seq<char> {
    if s.len() > 0 && s[0] == '/' {
        s.drop_first()
    } else {
        s
    }
}

/// Whether the entry at archive path `path` is one of `srcs` or lies
/// under one of them (`srcs` are paths inside the archive, with a leading
/// `/`).
pub open spec fn is_chosen(path: Seq<char>, srcs: Seq<Seq<char>>) -> bool {
    let p = seq!['/'] + path;
    exists|i: int| 0 <= i < srcs.len() && (#[trigger] srcs[i] == p || starts_with(p, srcs[i].push('/')))
}

fn strip_slash_exec(s: &Vec<char>) -> (r: Vec<char>)
    ensures
        r@ == strip_slash(s@),
{
    if s.len() > 0 && s[0] == '/' {
        suffix_from(s, 1)
    } else {
        let r = suffix_from(s, 0);
        assert(r@ =~= s@);
        r
    }
}

/// The tasks that extract entries.
pub struct ExtractEntriesTask;

impl ExtractEntriesTask {
    pub fn new() -> ExtractEntriesTask {
        ExtractEntriesTask
    }

    /// Whether the entry at `path` (decoded, without a leading `./`) is
    /// chosen by `srcs`.
    pub fn is_match(&self, path: &str, srcs: &Vec<String>) -> (r: bool)
        ensures
            r == is_chosen(path@, string_views(srcs@)),
    {
        let mut p: Vec<char> = Vec::new();
        p.push('/');
        let p = concat_chars(&p, &chars_of(path));
        assert(p@ =~= seq!['/'] + path@);
        let ghost sv = string_views(srcs@);
        let mut i: usize = 0;
        while i < srcs.len()
            invariant
                i <= srcs@.len(),
                sv == string_views(srcs@),
                p@ == seq!['/'] + path@,
                forall|j: int| 0 <= j < i ==> !(#[trigger] sv[j] == p@ || starts_with(p@, sv[j].push('/'))),
            decreases srcs@.len() - i,
        {
            let s = chars_of(srcs[i].as_str());
            assert(s@ == sv[i as int]);
            let mut sl = suffix_from(&s, 0);
            assert(sl@ =~= s@);
            sl.push('/');
            if chars_eq(&s, &p) || has_prefix(&p, &sl) {
                return true;
            }
            i += 1;
        }
        false
    }

    /// Where the entry at `path` goes, relative to the destination: the
    /// path below the directory that the frame shows (`cwd`, which lies in
    /// the archive `archive`). None when the entry is not below it.
    pub fn relative_path(&self, archive: &str, path: &str, cwd: &str) -> (r: Option<String>)
        ensures
            r matches Some(s) ==> starts_with(cwd@, archive@) && starts_with(path@, strip_slash(after_prefix(cwd@, archive@)))
                && s@ == strip_slash(after_prefix(path@, strip_slash(after_prefix(cwd@, archive@)))),
            r is None ==> !starts_with(cwd@, archive@) || !starts_with(path@, strip_slash(after_prefix(cwd@, archive@))),
    {
        let c = chars_of(cwd);
        let a = chars_of(archive);
        if !has_prefix(&c, &a) {
            return None;
        }
        let root = strip_slash_exec(&suffix_from(&c, a.len()));
        let p = chars_of(path);
        if !has_prefix(&p, &root) {
            return None;
        }
        let rest = strip_slash_exec(&suffix_from(&p, root.len()));
        Some(string_of(&rest))
    }

    /// The chosen sources as paths inside the archive: each one without the
    /// archive's own path. `Args` when one of them is not inside the
    /// archive.
    pub fn sources_in_archive(&self, archive: &str, srcs: &Vec<String>) -> (r: Result<Vec<String>, VirtualDirError>)
        ensures
            match r {
                Ok(v) => v@.len() == srcs@.len() && forall|i: int| 0 <= i < srcs@.len() ==> starts_with(#[trigger] srcs@[i]@, archive@)
                    && v@[i]@ == after_prefix(srcs@[i]@, archive@),
                Err(e) => e == VirtualDirError::Args && exists|i: int| 0 <= i < srcs@.len() && !starts_with(#[trigger] srcs@[i]@, archive@),
            },
    {
        let a = chars_of(archive);
        let mut out: Vec<String> = Vec::new();
        let mut i: usize = 0;
        while i < srcs.len()
            invariant
                i <= srcs@.len(),
                a@ == archive@,
                out@.len() == i,
                forall|j: int| 0 <= j < i ==> starts_with(#[trigger] srcs@[j]@, archive@) && out@[j]@ == after_prefix(srcs@[j]@, archive@),
            decreases srcs@.len() - i,
        {
            let s = chars_of(srcs[i].as_str());
            if !has_prefix(&s, &a) {
                return Err(VirtualDirError::Args);
            }
            out.push(string_of(&suffix_from(&s, a.len())));
            i += 1;
        }
        Ok(out)
    }

    /// Where an entry with relative path `rel` goes under `dest`: `rel`
    /// itself when absolute, otherwise joined onto `dest` with one `/`.
    pub fn target_path(&self, dest: &str, rel: &str) -> (r: String)
        ensures
            r@ == joined_target(dest@, rel@),
    {
        let d = chars_of(dest);
        let rc = chars_of(rel);
        if rc.len() > 0 && rc[0] == '/' {
            return string_of(&rc);
        }
        if d.len() == 0 || d[d.len() - 1] == '/' {
            return string_of(&concat_chars(&d, &rc));
        }
        let mut ds = suffix_from(&d, 0);
        assert(ds@ =~= d@);
        ds.push('/');
        string_of(&concat_chars(&ds, &rc))
    }

    /// Whether the entry with relative path `rel` is a directory.
    pub fn is_dir_entry(&self, rel: &str) -> (r: bool)
        ensures
            r == is_dir_path(rel@),
    {
        let c = chars_of(rel);
        c.len() > 0 && c[c.len() - 1] == '/'
    }

    /// What extracting reports: success when nothing was skipped, otherwise
    /// the skipped targets under the status `SKIPPED`.
    pub fn outcome<T>(&self, skipped: Vec<String>) -> (r: TaskResult<T>)
        ensures
            skipped@.len() == 0 ==> r is Success,
            skipped@.len() > 0 ==> (r matches TaskResult::Data(d) && d.data == Payload::Paths(skipped)
                && (d.status matches Some(st) && st@ == "SKIPPED"@)),
    {
        if skipped.len() == 0 {
            TaskResult::success()
        } else {
            TaskResult::data(Payload::Paths(skipped), Some(<String as vstd::string::StringExecFns>::from_str("SKIPPED")))
        }
    }
}

/// `Path::join`: `rel` when absolute, otherwise `dest`, a `/` unless `dest`
/// is empty or already ends with one, and `rel`.
pub open spec fn joined_target(dest: Seq<char>, rel: Seq<char>) -> Seq<char> {
    if rel.len() > 0 && rel[0] == '/' {
        rel
    } else if dest.len() == 0 || dest.last() == '/' {
        dest + rel
    } else {
        dest + seq!['/'] + rel
    }
}

/// Whether an entry with relative path `rel` is a directory: its path ends
/// with `/`.
pub open spec fn is_dir_path(rel: Seq<char>) -> bool {
    rel.len() > 0 && rel.last() == '/'
}

} // verus!
