//! The errors that reach the client, each with a stable code.

use vstd::prelude::*;


verus! {

/// A kind of error that the client is told about by its code.
pub trait ErrorCode {
    spec fn code_text(&self) -> Seq<char>;

    /// The code sent to the client with the error.
    fn code(&self) -> (r: &'static str)
        ensures
            r@ == self.code_text(),
    ;
}

/// Failures of the bookmark list.
#[derive(Debug, PartialEq, Eq)]
pub enum BookmarkError {
    /// No bookmark file is configured.
    NotAvailable,
    /// No bookmark has the given path.
    NotFound,
    /// A bookmark with the given name or path exists already.
    Exists,
    /// Reading, parsing or writing the bookmark file failed.
    IO(String),
}

impl ErrorCode for BookmarkError {
    open spec fn code_text(&self) -> Seq<char> {
        match self {
            BookmarkError::NotAvailable => "E005001"@,
            BookmarkError::NotFound => "E005002"@,
            BookmarkError::Exists => "E005003"@,
            BookmarkError::IO(_) => "E005004"@,
        }
    }

    fn code(&self) -> (r: &'static str) {
        match self {
            BookmarkError::NotAvailable => "E005001",
            BookmarkError::NotFound => "E005002",
            BookmarkError::Exists => "E005003",
            BookmarkError::IO(_) => "E005004",
        }
    }
}

/// Failures of an incoming command before its task runs.
#[derive(Debug, PartialEq, Eq, Structural)]
pub enum CommandError {
    /// The command envelope does not match its schema.
    Parse,
    /// No task is registered under the command's name.
    NotFound,
    /// The arguments do not match the task's schema or do not resolve.
    Args,
}

impl ErrorCode for CommandError {
    open spec fn code_text(&self) -> Seq<char> {
        match self {
            CommandError::Parse => "E001001"@,
            CommandError::NotFound => "E001002"@,
            CommandError::Args => "E001003"@,
        }
    }

    fn code(&self) -> (r: &'static str) {
        match self {
            CommandError::Parse => "E001001",
            CommandError::NotFound => "E001002",
            CommandError::Args => "E001003",
        }
    }
}

/// The outbound channel of a connection is broken.
#[derive(Debug, PartialEq, Eq, Structural)]
pub enum SenderError {
    Send,
}

impl ErrorCode for SenderError {
    open spec fn code_text(&self) -> Seq<char> {
        "E002001"@
    }

    fn code(&self) -> (r: &'static str) {
        "E002001"
    }
}

/// Any other failure of a task, with its message.
#[derive(Debug, PartialEq, Eq)]
pub enum TaskError {
    Run(String),
}

impl ErrorCode for TaskError {
    open spec fn code_text(&self) -> Seq<char> {
        "E003001"@
    }

    fn code(&self) -> (r: &'static str) {
        "E003001"
    }
}

/// Failures of navigating or extracting inside an archive.
#[derive(Debug, PartialEq, Eq, Structural)]
pub enum VirtualDirError {
    /// The archive kind is none of `zip`, `tar`, `tgz`.
    UnsupportedArchive,
    /// The requested path is not inside the archive.
    OutsideRoot,
    /// A source to extract is not inside the archive.
    Args,
}

impl ErrorCode for VirtualDirError {
    open spec fn code_text(&self) -> Seq<char> {
        match self {
            VirtualDirError::UnsupportedArchive => "E006001"@,
            VirtualDirError::OutsideRoot => "E006002"@,
            VirtualDirError::Args => "E006003"@,
        }
    }

    fn code(&self) -> (r: &'static str) {
        match self {
            VirtualDirError::UnsupportedArchive => "E006001",
            VirtualDirError::OutsideRoot => "E006002",
            VirtualDirError::Args => "E006003",
        }
    }
}

/// Failures of watching a directory: the message and the path.
#[derive(Debug, PartialEq, Eq)]
pub enum WatchError {
    /// The first listing of a new watch failed.
    Watch(String, String),
    /// A running watch found its directory unavailable.
    Dir(String, String),
}

impl ErrorCode for WatchError {
    open spec fn code_text(&self) -> Seq<char> {
        match self {
            WatchError::Watch(_, _) => "E004001"@,
            WatchError::Dir(_, _) => "E004002"@,
        }
    }

    fn code(&self) -> (r: &'static str) {
        match self {
            WatchError::Watch(_, _) => "E004001",
            WatchError::Dir(_, _) => "E004002",
        }
    }
}

/// An error as it reaches a connection: one of the known kinds, or another
/// failure that has no code.
#[derive(Debug, PartialEq, Eq)]
pub enum ServerError {
    Bookmark(BookmarkError),
    Command(CommandError),
    Sender(SenderError),
    Task(TaskError),
    VirtualDir(VirtualDirError),
    Watch(WatchError),
    Other(String),
}

impl ServerError {
    /// The code of the known kind; empty for any other failure.
    pub open spec fn code_view(&self) -> Seq<char> {
        match self {
            ServerError::Bookmark(e) => e.code_text(),
            ServerError::Command(e) => e.code_text(),
            ServerError::Sender(e) => e.code_text(),
            ServerError::Task(e) => e.code_text(),
            ServerError::VirtualDir(e) => e.code_text(),
            ServerError::Watch(e) => e.code_text(),
            ServerError::Other(_) => Seq::empty(),
        }
    }

    /// The code sent to the client for this error.
    pub fn err_code(&self) -> (r: &'static str)
        ensures
            r@ == self.code_view(),
    {
        match self {
            ServerError::Bookmark(e) => e.code(),
            ServerError::Command(e) => e.code(),
            ServerError::Sender(e) => e.code(),
            ServerError::Task(e) => e.code(),
            ServerError::VirtualDir(e) => e.code(),
            ServerError::Watch(e) => e.code(),
            ServerError::Other(_) => {
                proof {
                    reveal_strlit("");
                }
                ""
            },
        }
    }

    /// A task that failed with the text `msg`: `TaskRun`, its text kept.
    pub fn task_failure(msg: &str) -> (r: ServerError)
        ensures
            r matches ServerError::Task(TaskError::Run(m)) && m@ == msg@,
            r.code_view() == "E003001"@,
    {
        ServerError::Task(TaskError::Run(crate::text::string_of(&crate::text::chars_of(msg))))
    }

    pub open spec fn is_send_failure_view(&self) -> bool {
        self matches ServerError::Sender(SenderError::Send)
    }

    /// Whether this is the failure of the outbound channel, which is never
    /// reported over that same channel.
    pub fn is_send_failure(&self) -> (r: bool)
        ensures
            r == self.is_send_failure_view(),
    {
        match self {
            ServerError::Sender(SenderError::Send) => true,
            _ => false,
        }
    }
}

} // verus!
