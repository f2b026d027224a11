//! The messages sent to a client, before they are serialised.

use vstd::prelude::*;
use vstd::string::*;

use crate::bookmark::Bookmark;
use crate::entry::Entry;
use crate::errors::ServerError;
use crate::text::{chars_of, string_of};

verus! {

/// What a data message carries.
pub enum Payload {
    /// No data.
    Empty,
    /// An error: its code and its message.
    Error { code: String, msg: String },
    /// A watch that failed: code, message and the watched path.
    WatchError { code: String, msg: String, path: String },
    /// A directory and its entries.
    Listing { path: String, entries: Vec<Entry> },
    /// The bookmark list.
    Bookmarks(Vec<Bookmark>),
    /// A list of paths.
    Paths(Vec<String>),
    /// Text, such as the output of a shell command.
    Text(String),
    /// The id of a progress task.
    Pid { pid: String },
    /// How far a progress task has come, in percent.
    Progress { pid: String, progress: u128 },
    /// A progress task's error.
    ProgressError { pid: String, msg: String },
}

/// One outbound message: the command id it answers (empty when it answers
/// none), a status word, and the data.
pub struct Message {
    pub cid: String,
    pub status: String,
    pub data: Payload,
}

/// The status word of each kind of message.
pub open spec fn status_text(kind: MessageKind) -> Seq<char> {
    match kind {
        MessageKind::Success => "SUCCESS"@,
        MessageKind::Error => "ERROR"@,
        MessageKind::CommandError => "COMMAND_ERROR"@,
        MessageKind::WatchError => "WATCH_ERROR"@,
        MessageKind::DirUpdate => "DIR_UPDATE"@,
        MessageKind::ProgressTask => "PROGRESS_TASK"@,
        MessageKind::Progress => "PROGRESS"@,
        MessageKind::ProgressEnd => "PROGRESS_END"@,
        MessageKind::ProgressError => "PROGRESS_ERROR"@,
        MessageKind::ProgressAbort => "PROGRESS_ABORT"@,
    }
}

/// The kinds of message with a fixed status word.
#[derive(Clone, Copy, Debug, PartialEq, Eq, Structural)]
pub enum MessageKind {
    Success,
    Error,
    CommandError,
    WatchError,
    DirUpdate,
    ProgressTask,
    Progress,
    ProgressEnd,
    ProgressError,
    ProgressAbort,
}

/// The status word of a kind of message.
pub fn status_of(kind: MessageKind) -> (r: String)
    ensures
        r@ == status_text(kind),
{
    let s = match kind {
        MessageKind::Success => "SUCCESS",
        MessageKind::Error => "ERROR",
        MessageKind::CommandError => "COMMAND_ERROR",
        MessageKind::WatchError => "WATCH_ERROR",
        MessageKind::DirUpdate => "DIR_UPDATE",
        MessageKind::ProgressTask => "PROGRESS_TASK",
        MessageKind::Progress => "PROGRESS",
        MessageKind::ProgressEnd => "PROGRESS_END",
        MessageKind::ProgressError => "PROGRESS_ERROR",
        MessageKind::ProgressAbort => "PROGRESS_ABORT",
    };
    String::from_str(s)
}

fn copy_text(s: &str) -> (r: String)
    ensures
        r@ == s@,
{
    string_of(&chars_of(s))
}

impl Message {
    /// The command `cid` succeeded.
    pub fn success(cid: &str) -> (r: Message)
        ensures
            r.cid@ == cid@,
            r.status@ == status_text(MessageKind::Success),
            r.data is Empty,
    {
        Message { cid: copy_text(cid), status: status_of(MessageKind::Success), data: Payload::Empty }
    }

    /// The command `cid` failed with `err`, whose text is `msg`.
    pub fn error(cid: &str, err: &ServerError, msg: &str) -> (r: Message)
        ensures
            r.cid@ == cid@,
            r.status@ == status_text(MessageKind::Error),
            r.data matches Payload::Error { code, msg: m } && code@ == err.code_view() && m@ == msg@,
    {
        Message {
            cid: copy_text(cid),
            status: status_of(MessageKind::Error),
            data: Payload::Error { code: copy_text(err.err_code()), msg: copy_text(msg) },
        }
    }

    /// The command `cid` answered with data, under `status`.
    pub fn data(cid: &str, status: &str, data: Payload) -> (r: Message)
        ensures
            r.cid@ == cid@,
            r.status@ == status@,
            r.data == data,
    {
        Message { cid: copy_text(cid), status: copy_text(status), data }
    }

    /// A message that could not be read as a command.
    pub fn command_error(err: &ServerError, msg: &str) -> (r: Message)
        ensures
            r.cid@.len() == 0,
            r.status@ == status_text(MessageKind::CommandError),
            r.data matches Payload::Error { code, msg: m } && code@ == err.code_view() && m@ == msg@,
    {
        Message {
            cid: String::new(),
            status: status_of(MessageKind::CommandError),
            data: Payload::Error { code: copy_text(err.err_code()), msg: copy_text(msg) },
        }
    }

    /// The watch on `path` failed with `err`, whose text is `msg`.
    pub fn watch_error(err: &ServerError, msg: &str, path: &str) -> (r: Message)
        ensures
            r.cid@.len() == 0,
            r.status@ == status_text(MessageKind::WatchError),
            r.data matches Payload::WatchError { code, msg: m, path: p } && code@ == err.code_view()
                && m@ == msg@ && p@ == path@,
    {
        Message {
            cid: String::new(),
            status: status_of(MessageKind::WatchError),
            data: Payload::WatchError {
                code: copy_text(err.err_code()),
                msg: copy_text(msg),
                path: copy_text(path),
            },
        }
    }

    /// A watched directory changed: its path and entries.
    pub fn dir_update(path: &str, entries: Vec<Entry>) -> (r: Message)
        ensures
            r.cid@.len() == 0,
            r.status@ == status_text(MessageKind::DirUpdate),
            r.data matches Payload::Listing { path: p, entries: e } && p@ == path@ && e == entries,
    {
        Message {
            cid: String::new(),
            status: status_of(MessageKind::DirUpdate),
            data: Payload::Listing { path: copy_text(path), entries },
        }
    }

    /// The command `cid` started the progress task `pid`.
    pub fn progress_task(cid: &str, pid: &str) -> (r: Message)
        ensures
            r.cid@ == cid@,
            r.status@ == status_text(MessageKind::ProgressTask),
            r.data matches Payload::Pid { pid: p } && p@ == pid@,
    {
        Message {
            cid: copy_text(cid),
            status: status_of(MessageKind::ProgressTask),
            data: Payload::Pid { pid: copy_text(pid) },
        }
    }

    /// The progress task `pid` is `progress` percent done.
    pub fn progress(pid: &str, progress: u128) -> (r: Message)
        ensures
            r.cid@.len() == 0,
            r.status@ == status_text(MessageKind::Progress),
            r.data matches Payload::Progress { pid: p, progress: n } && p@ == pid@ && n == progress,
    {
        Message {
            cid: String::new(),
            status: status_of(MessageKind::Progress),
            data: Payload::Progress { pid: copy_text(pid), progress },
        }
    }

    /// The progress task `pid` finished.
    pub fn progress_end(pid: &str) -> (r: Message)
        ensures
            r.cid@.len() == 0,
            r.status@ == status_text(MessageKind::ProgressEnd),
            r.data matches Payload::Pid { pid: p } && p@ == pid@,
    {
        Message {
            cid: String::new(),
            status: status_of(MessageKind::ProgressEnd),
            data: Payload::Pid { pid: copy_text(pid) },
        }
    }

    /// The progress task `pid` reported an error, with text `msg`.
    pub fn progress_error(pid: &str, msg: &str) -> (r: Message)
        ensures
            r.cid@.len() == 0,
            r.status@ == status_text(MessageKind::ProgressError),
            r.data matches Payload::ProgressError { pid: p, msg: m } && p@ == pid@ && m@ == msg@,
    {
        Message {
            cid: String::new(),
            status: status_of(MessageKind::ProgressError),
            data: Payload::ProgressError { pid: copy_text(pid), msg: copy_text(msg) },
        }
    }

    /// The progress task `pid` was cancelled.
    pub fn progress_abort(pid: &str) -> (r: Message)
        ensures
            r.cid@.len() == 0,
            r.status@ == status_text(MessageKind::ProgressAbort),
            r.data matches Payload::Pid { pid: p } && p@ == pid@,
    {
        Message {
            cid: String::new(),
            status: status_of(MessageKind::ProgressAbort),
            data: Payload::Pid { pid: copy_text(pid) },
        }
    }
}

} // verus!
