//! Server-side core of a two-pane file manager: path handling, directory
//! listings (real and inside archives), watch multiplexing, task dispatch,
//! progress streaming and bookmarks.

mod text;
pub mod table;
pub mod path;
pub mod format;
pub mod entry;
pub mod decode;
pub mod archive_entry;
pub mod errors;
pub mod archive_kind;
pub mod virtual_dir;
pub mod extract;
pub mod frame_set;
pub mod bookmark;
pub mod command;
pub mod message;
pub mod task_manager;
pub mod watch_manager;
pub mod progress;
pub mod tasks;
pub mod listing;
