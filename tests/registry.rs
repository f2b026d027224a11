use footloose::frame_set::FrameSet;
use footloose::task_manager::{DisposerTable, TaskControl, TaskStatus};
use footloose::entry::Entry;
use footloose::message::Payload;
use footloose::watch_manager::{PollResult, WatchControl, WatchRegistry, WatchStatus};

fn subs(reg: &WatchRegistry, path: &str) -> Option<usize> {
    reg.subscribers(path).map(|v| v.len())
}

#[test]
fn cd_then_disconnect() {
    let mut reg = WatchRegistry::new();
    let mut frames = FrameSet::new();
    let step = reg.watch(&mut frames, "a", "/T/test1", "c1");
    assert!(step.create);
    reg.add_watch("/T/test1", "c1");
    assert_eq!(reg.len(), 1);
    assert_eq!(subs(&reg, "/T/test1"), Some(1));
    let stopped = reg.remove_subscriber(&frames, "c1");
    assert_eq!(stopped, vec!["/T/test1".to_owned()]);
    assert_eq!(reg.len(), 0);
}

#[test]
fn cd_aggregation() {
    let mut reg = WatchRegistry::new();
    let mut f1 = FrameSet::new();
    let mut f2 = FrameSet::new();
    assert!(reg.watch(&mut f1, "a", "/T/test1", "c1").create);
    reg.add_watch("/T/test1", "c1");
    let step = reg.watch(&mut f2, "a", "/T/test1", "c2");
    assert!(!step.create);
    assert_eq!(reg.len(), 1);
    assert_eq!(subs(&reg, "/T/test1"), Some(2));
    reg.remove_subscriber(&f1, "c1");
    assert_eq!(reg.len(), 1);
    assert_eq!(subs(&reg, "/T/test1"), Some(1));
}

#[test]
fn cd_elsewhere_moves_the_subscription() {
    let mut reg = WatchRegistry::new();
    let mut f = FrameSet::new();
    reg.watch(&mut f, "a", "/x", "c");
    reg.add_watch("/x", "c");
    let step = reg.watch(&mut f, "a", "/y", "c");
    assert_eq!(step.stopped, Some("/x".to_owned()));
    assert!(step.create);
    reg.add_watch("/y", "c");
    assert_eq!(subs(&reg, "/x"), None);
    assert_eq!(subs(&reg, "/y"), Some(1));
    assert_eq!(f.path("a"), "/y");
}

#[test]
fn both_frames_on_one_path_keep_the_watch() {
    let mut reg = WatchRegistry::new();
    let mut f = FrameSet::new();
    reg.watch(&mut f, "a", "/x", "c");
    reg.add_watch("/x", "c");
    assert!(!reg.watch(&mut f, "b", "/x", "c").create);
    assert_eq!(subs(&reg, "/x"), Some(1));
    let step = reg.watch(&mut f, "a", "/y", "c");
    assert_eq!(step.stopped, None);
    assert_eq!(subs(&reg, "/x"), Some(1));
}

#[test]
fn failed_watch_is_removed() {
    let mut reg = WatchRegistry::new();
    reg.add_watch("/x", "c");
    reg.remove_watch("/x");
    assert_eq!(reg.len(), 0);
    assert!(!reg.drop_subscriber("/x", "c"));
}

#[test]
fn test_drop_all_disposers() {
    let mut table: DisposerTable<u32> = DisposerTable::new();
    table.register("pid-a".to_owned(), "s1".to_owned(), 1);
    table.register("pid-b".to_owned(), "s1".to_owned(), 2);
    table.register("pid-c".to_owned(), "s2".to_owned(), 3);
    let mut ctrls = table.drop_all_disposers("s1");
    assert_eq!(ctrls.len(), 2);
    let mut aborted = vec![];
    for c in ctrls.drain(..) {
        assert!(c.status == TaskStatus::Abort);
        if let Some(h) = table.control(&c) {
            aborted.push(h);
        }
    }
    aborted.sort();
    assert_eq!(aborted, vec![1, 2]);
    assert!(table.pids_of("s1").is_empty());
    assert_eq!(table.pids_of("s2"), vec!["pid-c".to_owned()]);
}

#[test]
fn end_removes_without_abort_and_repeats_are_ignored() {
    let mut table: DisposerTable<u32> = DisposerTable::new();
    table.register("p".to_owned(), "s".to_owned(), 7);
    let end = TaskControl { pid: "p".to_owned(), status: TaskStatus::End };
    assert_eq!(table.control(&end), None);
    let abort = TaskControl { pid: "p".to_owned(), status: TaskStatus::Abort };
    assert_eq!(table.control(&abort), None);
    assert!(table.pids_of("s").is_empty());
}

fn entry(name: &str) -> Entry {
    Entry { perm: "-rw-r--r--".to_owned(), size: "1".to_owned(), time: "t".to_owned(), name: name.to_owned(), link: String::new() }
}

#[test]
fn a_change_reaches_every_subscriber() {
    let mut reg = WatchRegistry::new();
    let (mut f1, mut f2) = (FrameSet::new(), FrameSet::new());
    reg.watch(&mut f1, "a", "/w", "c1");
    reg.add_watch("/w", "c1");
    reg.watch(&mut f2, "b", "/w", "c2");
    assert!(reg.on_poll("/w", PollResult::Unchanged).is_empty());
    let mut sends = reg.on_poll("/w", PollResult::Changed(vec![entry("x")]));
    sends.sort_by(|a, b| a.0.cmp(&b.0));
    assert_eq!(sends.len(), 2);
    assert_eq!(sends[0].0, "c1");
    assert_eq!(sends[1].0, "c2");
    for (_, m) in &sends {
        assert_eq!(m.status, "DIR_UPDATE");
        match &m.data {
            Payload::Listing { path, entries } => {
                assert_eq!(path, "/w");
                assert_eq!(entries[0].name, "x");
            },
            _ => panic!("expected a listing"),
        }
    }
    assert_eq!(reg.len(), 1);
}

#[test]
fn a_failed_poll_ends_the_watch() {
    let mut reg = WatchRegistry::new();
    reg.add_watch("/w", "c1");
    let sends = reg.on_poll("/w", PollResult::Failed("gone".to_owned()));
    assert_eq!(sends.len(), 1);
    assert_eq!(sends[0].1.status, "WATCH_ERROR");
    match &sends[0].1.data {
        Payload::WatchError { code, msg, path } => {
            assert_eq!(code, "E004002");
            assert_eq!(msg, "gone");
            assert_eq!(path, "/w");
        },
        _ => panic!("expected a watch error"),
    }
    assert_eq!(reg.len(), 0);
    reg.add_watch("/v", "c1");
    reg.control(&WatchControl { path: "/v".to_owned(), status: WatchStatus::Abort });
    assert_eq!(reg.len(), 0);
}
