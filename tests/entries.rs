use footloose::archive_entry::{ArchiveEntry, DosTime, TarEntry, TarHeader, ZipEntry, ZipHeader};
use footloose::archive_kind::ArchiveKind;
use footloose::decode::{decode_path, decode_string, tar_path_bytes};
use footloose::errors::{CommandError, ErrorCode, ServerError, SenderError, TaskError, VirtualDirError, WatchError};
use footloose::extract::ExtractEntriesTask;
use footloose::format::FileKind;
use footloose::listing::{ChildMeta, LinkTarget, Ls, Watch};
use footloose::message::{Message, Payload};
use footloose::task_manager::{error_reply, find_task, reply_for, Reply, TaskResult};

#[test]
fn test_decode_string() {
    assert_eq!(decode_string(&"テスト".as_bytes().to_vec()), "テスト");
    assert_eq!(decode_string(&"テ\u{3099}ススト".as_bytes().to_vec()), "デススト");
    assert_eq!(decode_string(&vec![0x83, 0x65, 0x83, 0x58, 0x83, 0x67]), "テスト");
}

#[test]
fn decode_path_strips_dot_slash() {
    assert_eq!(decode_path(&b"./a/b".to_vec()), "a/b");
    assert_eq!(decode_path(&b"a/./b".to_vec()), "a/./b");
}

#[test]
fn long_tar_names_use_the_full_path() {
    let short = b"abc".to_vec();
    assert_eq!(tar_path_bytes(short.clone(), Some(b"zzz".to_vec())), short);
    let nul = b"ab\0".to_vec();
    assert_eq!(tar_path_bytes(nul, Some(b"full".to_vec())), b"full".to_vec());
    let long = vec![b'a'; 100];
    assert_eq!(tar_path_bytes(long.clone(), None), long);
}

#[test]
fn tar_entry_from_header() {
    let mut e = TarEntry::new("%y/%m/%d %H:%M:%S");
    let r = e.record();
    assert_eq!(r.perm, "----------");
    assert_eq!(r.time, "--/--/-- --:--:--");
    e.init(&TarHeader {
        kind: FileKind::Dir,
        mode: Some(0o755),
        path_bytes: b"./1 game/".to_vec(),
        full_path: None,
        size: Some(0),
        mtime: None,
    });
    let r = e.record();
    assert_eq!(r.perm, "drwxr-xr-x");
    assert_eq!(r.path, "1 game/");
    assert_eq!(r.size, 0);
    assert_eq!(r.time, "--/--/-- --:--:--");
}

#[test]
fn zip_entry_from_header() {
    let mut e = ZipEntry::new("%y/%m/%d %H:%M:%S");
    e.init(&ZipHeader {
        kind: FileKind::File,
        mode: Some(0o644),
        name_bytes: b"2 movies/1 action/1 text.txt".to_vec(),
        size: 20,
        extended_mtime: None,
        dos_time: Some(DosTime { year: 2025, month: 6, day: 15, hour: 16, minute: 31, second: 23 }),
    });
    let r = e.record();
    assert_eq!(r.perm, "-rw-r--r--");
    assert_eq!(r.path, "2 movies/1 action/1 text.txt");
    assert_eq!(r.size, 20);
    assert_eq!(r.time, "25/06/15 16:31:23");
    let mut e = ZipEntry::new("%y");
    e.init(&ZipHeader {
        kind: FileKind::File,
        mode: None,
        name_bytes: b"x".to_vec(),
        size: 1,
        extended_mtime: None,
        dos_time: Some(DosTime { year: 2025, month: 2, day: 30, hour: 0, minute: 0, second: 0 }),
    });
    assert_eq!(e.record().time, "--/--/-- --:--:--");
    assert_eq!(e.record().perm, "----------");
}

#[test]
fn archive_kinds() {
    assert_eq!(ArchiveKind::from_str("zip"), Ok(ArchiveKind::Zip));
    assert_eq!(ArchiveKind::from_str("tar"), Ok(ArchiveKind::Tar));
    assert_eq!(ArchiveKind::from_str("tgz"), Ok(ArchiveKind::Tgz));
    assert_eq!(ArchiveKind::from_str("rar"), Err(VirtualDirError::UnsupportedArchive));
}

#[test]
fn error_codes() {
    assert_eq!(CommandError::Parse.code(), "E001001");
    assert_eq!(CommandError::NotFound.code(), "E001002");
    assert_eq!(CommandError::Args.code(), "E001003");
    assert_eq!(SenderError::Send.code(), "E002001");
    assert_eq!(TaskError::Run("x".to_owned()).code(), "E003001");
    assert_eq!(WatchError::Watch("m".to_owned(), "p".to_owned()).code(), "E004001");
    assert_eq!(WatchError::Dir("m".to_owned(), "p".to_owned()).code(), "E004002");
    assert_eq!(VirtualDirError::UnsupportedArchive.code(), "E006001");
    assert_eq!(VirtualDirError::OutsideRoot.code(), "E006002");
    assert_eq!(VirtualDirError::Args.code(), "E006003");
    assert_eq!(ServerError::Other("x".to_owned()).err_code(), "");
    assert_eq!(ServerError::Command(CommandError::Args).err_code(), "E001003");
}

#[test]
fn extract_entries_task_test_run_success() {
    let task = ExtractEntriesTask::new();
    let srcs = task
        .sources_in_archive("/archive", &vec!["/archive/a/x.txt".to_owned()])
        .ok()
        .unwrap();
    assert_eq!(srcs, vec!["/a/x.txt".to_owned()]);
    assert!(task.is_match("a/x.txt", &srcs));
    assert!(!task.is_match("a/x.txt2", &srcs));
    assert!(task.is_match("a/x.txt/inner", &srcs));
    let rel = task.relative_path("/archive", "a/x.txt", "/archive").unwrap();
    assert_eq!(rel, "a/x.txt");
    assert_eq!(task.target_path("/D", &rel), "/D/a/x.txt");
    let rel = task.relative_path("/archive", "a/x.txt", "/archive/a").unwrap();
    assert_eq!(rel, "x.txt");
    assert!(task.relative_path("/archive", "b/y", "/archive/a").is_none());
    assert!(task.is_dir_entry("a/"));
    assert!(!task.is_dir_entry("a"));
}

#[test]
fn extract_entries_task_test_run_error() {
    let task = ExtractEntriesTask::new();
    let res = task.sources_in_archive("/archive", &vec!["/elsewhere/a".to_owned()]);
    assert_eq!(res.err(), Some(VirtualDirError::Args));
}

#[test]
fn extract_reports_skipped_files() {
    let task = ExtractEntriesTask::new();
    let out: TaskResult<()> = task.outcome(vec!["/D/a/x.txt".to_owned()]);
    match out {
        TaskResult::Data(d) => {
            match d.data {
                Payload::Paths(p) => assert_eq!(p, vec!["/D/a/x.txt".to_owned()]),
                _ => panic!("expected paths"),
            }
            assert_eq!(d.status.as_deref(), Some("SKIPPED"));
        },
        _ => panic!("expected skipped data"),
    }
    let out: TaskResult<()> = task.outcome(vec![]);
    assert!(matches!(out, TaskResult::Success(_)));
}

#[test]
fn replies_for_outcomes() {
    match reply_for::<()>("7", TaskResult::success()) {
        Reply::Send(m, None) => {
            assert_eq!(m.cid, "7");
            assert_eq!(m.status, "SUCCESS");
        },
        _ => panic!("expected a success message"),
    }
    match reply_for::<()>("7", TaskResult::data(Payload::Text("out".to_owned()), None)) {
        Reply::Send(m, None) => assert_eq!(m.status, "SUCCESS"),
        _ => panic!("expected a data message"),
    }
    match reply_for("7", TaskResult::progress("P".to_owned(), 5u8)) {
        Reply::Send(m, Some((pid, h))) => {
            assert_eq!(m.status, "PROGRESS_TASK");
            assert_eq!(pid, "P");
            assert_eq!(h, 5);
        },
        _ => panic!("expected a progress message"),
    }
    assert!(error_reply("7", &ServerError::Sender(SenderError::Send), "x").is_none());
    let m = error_reply("7", &ServerError::Command(CommandError::NotFound), "Command not found").unwrap();
    assert_eq!(m.status, "ERROR");
    match m.data {
        Payload::Error { code, msg } => {
            assert_eq!(code, "E001002");
            assert_eq!(msg, "Command not found");
        },
        _ => panic!("expected an error payload"),
    }
}

#[test]
fn messages_carry_their_status() {
    assert_eq!(Message::progress_end("p").status, "PROGRESS_END");
    assert_eq!(Message::progress_abort("p").status, "PROGRESS_ABORT");
    assert_eq!(Message::command_error(&ServerError::Command(CommandError::Parse), "bad").status, "COMMAND_ERROR");
    let m = Message::watch_error(&ServerError::Watch(WatchError::Dir("m".to_owned(), "/p".to_owned())), "m", "/p");
    assert_eq!(m.status, "WATCH_ERROR");
    assert_eq!(m.cid, "");
    assert_eq!(Message::dir_update("/p", vec![]).status, "DIR_UPDATE");
}

#[test]
fn listing_sorts_children() {
    let ls = Ls::new("%Y");
    let parent = ls.child_entry("..", &None, &LinkTarget::NotALink);
    let b = ls.child_entry("b", &Some(ChildMeta { kind: FileKind::File, mode: 0o644, len: 1536, ctime: 0 }), &LinkTarget::NotALink);
    let a = ls.child_entry(
        "a",
        &Some(ChildMeta { kind: FileKind::Symlink, mode: 0o755, len: 3, ctime: 0 }),
        &LinkTarget::File("/t/f".to_owned()),
    );
    assert_eq!(b.size, "1.5K");
    assert_eq!(a.link, "f:/t/f");
    assert_eq!(a.perm, "lrwxr-xr-x");
    let list = ls.entries(parent, vec![b, a]);
    let names: Vec<_> = list.iter().map(|e| e.name.clone()).collect();
    assert_eq!(names, vec!["..", "a", "b"]);
    assert_eq!(list[0].perm, "----------");
}

#[test]
fn signatures_and_updates() {
    let ls = Ls::new("%Y");
    assert_eq!(ls.signature(&vec![(12, 5), (-3, 0)]), "125-30");
    let mut w = Watch::new("/p", ls.signature(&vec![(1, 2)]), vec![]);
    assert!(!w.check_updates("12".to_owned()));
    assert!(w.check_updates("13".to_owned()));
    assert!(!w.check_updates("13".to_owned()));
}

#[test]
fn unknown_tasks_and_bad_arguments() {
    assert_eq!(find_task(false, true), Err(CommandError::NotFound));
    assert_eq!(find_task(true, false), Err(CommandError::Args));
    assert_eq!(find_task(true, true), Ok(()));
}
