//! The tasks a client can run, as far as they decide: which arguments they
//! accept and what they hand on.

use vstd::prelude::*;

use crate::bookmark::BookmarkManager;
use crate::command::{arg_str_array_view, arg_str_view, Command};
use crate::errors::VirtualDirError;
use crate::extract::{after_prefix, starts_with};
use crate::path::resolve_outcome;
use crate::task_manager::{TaskControl, TaskStatus};
use crate::text::{chars_of, has_prefix, string_of, suffix_from};

verus! {

/// Whether argument `key` stands for a path against `cwd`, for some outcome
/// of its tilde expansion.
pub open spec fn path_arg_outcome(args: Seq<(String, crate::command::ArgValue)>, key: Seq<char>, cwd: Seq<char>, ok: bool) -> bool {
    match arg_str_view(args, key) {
        Some(p) => if ok {
            resolves(p, cwd)
        } else {
            resolve_outcome(p, cwd, None)
        },
        None => !ok,
    }
}

/// Whether argument `key` of `cmd` is a string that stands for a path.
pub fn path_arg_ok(cmd: &Command, key: &str) -> (r: bool)
    ensures
        path_arg_outcome(cmd.args@, key@, cmd.cwd@, r),
{
    match cmd.arg_as_path(key, cmd.cwd.as_str()) {
        Some(p) => {
            assert(resolve_outcome(arg_str_view(cmd.args@, key@)->Some_0, cmd.cwd@, Some(p@)));
            true
        },
        None => false,
    }
}

/// Whether `p` stands for some path against `cwd`.
pub open spec fn resolves(p: Seq<char>, cwd: Seq<char>) -> bool {
    exists|x: Seq<char>| resolve_outcome(p, cwd, Some(x))
}

/// Whether the list argument `key` stands for a list of paths against
/// `cwd`, for some outcome of the tilde expansions.
pub open spec fn path_array_arg_outcome(args: Seq<(String, crate::command::ArgValue)>, key: Seq<char>, cwd: Seq<char>, ok: bool) -> bool {
    match arg_str_array_view(args, key) {
        Some(ps) => if ok {
            forall|i: int| 0 <= i < ps.len() ==> resolves(#[trigger] ps[i], cwd)
        } else {
            exists|i: int| 0 <= i < ps.len() && resolve_outcome(#[trigger] ps[i], cwd, None)
        },
        None => !ok,
    }
}

/// Whether argument `key` of `cmd` is a list of strings that all stand for
/// paths.
pub fn path_array_arg_ok(cmd: &Command, key: &str) -> (r: bool)
    ensures
        path_array_arg_outcome(cmd.args@, key@, cmd.cwd@, r),
{
    match cmd.arg_as_path_array(key, cmd.cwd.as_str()) {
        Some(v) => {
            let ghost ps = arg_str_array_view(cmd.args@, key@)->Some_0;
            assert forall|i: int| 0 <= i < ps.len() implies resolves(#[trigger] ps[i], cmd.cwd@) by {
                assert(resolve_outcome(ps[i], cmd.cwd@, Some(v@[i]@)));
            }
            true
        },
        None => {
            proof {
                if arg_str_array_view(cmd.args@, key@) is Some {
                    let ps = arg_str_array_view(cmd.args@, key@)->Some_0;
                    let i = choose|i: int|
                        0 <= i < ps.len() && resolve_outcome(
                            #[trigger] arg_str_array_view(cmd.args@, key@)->Some_0[i],
                            cmd.cwd@,
                            None,
                        );
                    assert(resolve_outcome(ps[i], cmd.cwd@, None));
                }
            }
            false
        },
    }
}

/// Cancels a progress task: `kill {pid}`.
pub struct AbortProgressTask;

impl AbortProgressTask {
    pub fn new() -> AbortProgressTask {
        AbortProgressTask
    }

    /// The notice that cancels the task named by the `pid` argument.
    pub fn control(&self, cmd: &Command) -> (r: Option<TaskControl>)
        ensures
            match arg_str_view(cmd.args@, "pid"@) {
                Some(p) => r matches Some(c) && c.pid@ == p && c.status == TaskStatus::Abort,
                None => r is None,
            },
    {
        match cmd.arg_as_str("pid") {
            Some(p) => Some(TaskControl { pid: string_of(&chars_of(p)), status: TaskStatus::Abort }),
            None => None,
        }
    }
}

/// Reads and changes the bookmark list: `bookmark {action, name?, path?}`.
pub struct BookmarkTask {
    pub bookmark_manager: BookmarkManager,
}

impl BookmarkTask {
    pub fn new(bookmark_manager: BookmarkManager) -> (r: BookmarkTask)
        ensures
            r.bookmark_manager == bookmark_manager,
    {
        BookmarkTask { bookmark_manager }
    }

    /// Beyond its schema, a bookmark command needs a path that resolves,
    /// unless it only reads the list.
    pub fn args_valid(&self, cmd: &Command) -> (r: bool)
        ensures
            arg_str_view(cmd.args@, "action"@) == Some("get"@) ==> r,
            arg_str_view(cmd.args@, "action"@) != Some("get"@) ==> path_arg_outcome(cmd.args@, "path"@, cmd.cwd@, r),
    {
        proof {
            reveal_strlit("get");
        }
        match cmd.arg_as_str("action") {
            Some(a) => {
                let c = chars_of(a);
                if c.len() == 3 && c[0] == 'g' && c[1] == 'e' && c[2] == 't' {
                    assert(a@ =~= "get"@);
                    return true;
                }
                assert(a@ != "get"@);
            },
            None => {},
        }
        path_arg_ok(cmd, "path")
    }
}

/// Opens a path with the system's handler: `open {path, app?}`.
pub struct OpenTask;

impl OpenTask {
    pub fn new() -> OpenTask {
        OpenTask
    }

    /// Beyond its schema, the path must resolve.
    pub fn args_valid(&self, cmd: &Command) -> (r: bool)
        ensures
            path_arg_outcome(cmd.args@, "path"@, cmd.cwd@, r),
    {
        path_arg_ok(cmd, "path")
    }
}

/// Runs a shell command with progress: `progress {sources, destination?,
/// config}`.
pub struct ProgressTask;

impl ProgressTask {
    pub fn new() -> ProgressTask {
        ProgressTask
    }

    /// Beyond its schema, every source must resolve.
    pub fn args_valid(&self, cmd: &Command) -> (r: bool)
        ensures
            path_array_arg_outcome(cmd.args@, "sources"@, cmd.cwd@, r),
    {
        path_array_arg_ok(cmd, "sources")
    }
}

/// Runs a shell command and answers with its output: `sh {sources?,
/// destination?, config}`.
pub struct ShTask;

impl ShTask {
    pub fn new() -> ShTask {
        ShTask
    }
}

/// Changes to a real directory: `cd {path}`.
pub struct ChangeDirTask;

impl ChangeDirTask {
    pub fn new() -> ChangeDirTask {
        ChangeDirTask
    }

    /// Beyond its schema, the path must resolve.
    pub fn args_valid(&self, cmd: &Command) -> (r: bool)
        ensures
            path_arg_outcome(cmd.args@, "path"@, cmd.cwd@, r),
    {
        path_arg_ok(cmd, "path")
    }
}

/// Changes to a directory inside an archive: `cvd {kind, archive, path,
/// filter?}`.
pub struct ChangeVirtualDirTask {
    time_style: String,
}

impl ChangeVirtualDirTask {
    pub closed spec fn style(&self) -> Seq<char> {
        self.time_style@
    }

    pub fn new(time_style: &str) -> (r: ChangeVirtualDirTask)
        ensures
            r.style() == time_style@,
    {
        ChangeVirtualDirTask { time_style: string_of(&chars_of(time_style)) }
    }

    /// The time style of the listing.
    pub fn time_style(&self) -> (r: &str)
        ensures
            r@ == self.style(),
    {
        self.time_style.as_str()
    }

    /// Beyond its schema, the archive and the path must resolve.
    pub fn args_valid(&self, cmd: &Command) -> (r: bool)
        ensures
            r ==> path_arg_outcome(cmd.args@, "archive"@, cmd.cwd@, true) && path_arg_outcome(cmd.args@, "path"@, cmd.cwd@, true),
            !r ==> path_arg_outcome(cmd.args@, "archive"@, cmd.cwd@, false) || path_arg_outcome(cmd.args@, "path"@, cmd.cwd@, false),
    {
        path_arg_ok(cmd, "archive") && path_arg_ok(cmd, "path")
    }

    /// The directory inside the archive that `path` names: what follows the
    /// archive's own path. `OutsideRoot` when `path` is not inside the
    /// archive.
    pub fn virtual_cwd(&self, archive: &str, path: &str) -> (r: Result<String, VirtualDirError>)
        ensures
            starts_with(path@, archive@) ==> (r matches Ok(s) && s@ == after_prefix(path@, archive@)),
            !starts_with(path@, archive@) ==> r == Err::<String, VirtualDirError>(VirtualDirError::OutsideRoot),
    {
        let p = chars_of(path);
        let a = chars_of(archive);
        if has_prefix(&p, &a) {
            Ok(string_of(&suffix_from(&p, a.len())))
        } else {
            Err(VirtualDirError::OutsideRoot)
        }
    }
}

/// Extracts entries of an archive: `vcp {kind, archive, sources,
/// destination}`; see `ExtractEntriesTask`.
pub fn extract_args_valid(cmd: &Command) -> (r: bool)
    ensures
        r ==> path_array_arg_outcome(cmd.args@, "sources"@, cmd.cwd@, true) && path_arg_outcome(cmd.args@, "archive"@, cmd.cwd@, true)
            && path_arg_outcome(cmd.args@, "destination"@, cmd.cwd@, true),
        !r ==> path_array_arg_outcome(cmd.args@, "sources"@, cmd.cwd@, false) || path_arg_outcome(cmd.args@, "archive"@, cmd.cwd@, false)
            || path_arg_outcome(cmd.args@, "destination"@, cmd.cwd@, false),
{
    path_array_arg_ok(cmd, "sources") && path_arg_ok(cmd, "archive") && path_arg_ok(cmd, "destination")
}

} // verus!
