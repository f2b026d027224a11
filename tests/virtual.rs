use footloose::entry::{ArchiveRecord, Entry};
use footloose::errors::VirtualDirError;
use footloose::tasks::ChangeVirtualDirTask;
use footloose::virtual_dir::{dir_entry, parent_path, virtual_listing};

fn rec(perm: &str, path: &str, size: u64, time: &str) -> ArchiveRecord {
    ArchiveRecord { perm: perm.to_owned(), path: path.to_owned(), size, time: time.to_owned() }
}

fn parent() -> Entry {
    Entry {
        perm: "drwxr-xr-x".to_owned(),
        size: "0".to_owned(),
        time: "t".to_owned(),
        name: "..".to_owned(),
        link: String::new(),
    }
}

fn with_dirs() -> Vec<ArchiveRecord> {
    vec![
        rec("drwxr-xr-x", "2 movies/", 0, "25/06/15 17:30:28"),
        rec("-rw-r--r--", "2 movies/1 action/1 text.txt", 20, "25/06/15 16:31:23"),
        rec("drwxr-xr-x", "1 game/", 0, "25/06/15 17:24:25"),
        rec("-rw-r--r--", "1 game/a.txt", 445, "25/06/15 16:31:23"),
        rec("-rw-r--r--", "1 text.txt", 2048, "25/06/15 16:31:23"),
        rec("-rw-r--r--", ".hidden_file", 0, "25/06/15 16:31:23"),
        rec("-rw-r--r--", "._2 image.jpg", 4, "25/06/15 16:31:23"),
        rec("-rw-r--r--", "__MACOSX/x", 4, "25/06/15 16:31:23"),
        rec("-rw-r--r--", "2 image.jpg", 4, "25/06/15 16:31:23"),
        rec("drwxr-xr-x", "3 blank/", 0, "25/06/15 16:31:23"),
    ]
}

fn names(v: &[Entry]) -> Vec<String> {
    v.iter().map(|e| e.name.clone()).collect()
}

#[test]
fn virtual_listing_at_root() {
    let filter = Some("^(__MACOSX/|\\._.+)".to_owned());
    let list = virtual_listing(&with_dirs(), "", &filter, parent());
    assert_eq!(
        names(&list),
        vec!["..", ".hidden_file", "1 game", "1 text.txt", "2 image.jpg", "2 movies", "3 blank"]
    );
    assert_eq!(list[3].size, "2.0K");
    assert_eq!(list[2].perm, "drwxr-xr-x");
    assert_eq!(list[2].time, "25/06/15 17:24:25");
}

#[test]
fn test_run_filter() {
    let list = virtual_listing(&with_dirs(), "", &None, parent());
    assert_eq!(list[1].name, "._2 image.jpg");
    let filter = Some("^(__MACOSX/|\\._.+)".to_owned());
    let list = virtual_listing(&with_dirs(), "", &filter, parent());
    assert_eq!(list[1].name, ".hidden_file");
}

#[test]
fn missing_directory_entries_are_made_up() {
    let without: Vec<ArchiveRecord> = with_dirs().into_iter().filter(|r| !r.path.ends_with('/')).collect();
    let filter = Some("^(__MACOSX/|\\._.+)".to_owned());
    let list = virtual_listing(&without, "", &filter, parent());
    assert_eq!(names(&list), vec!["..", ".hidden_file", "1 game", "1 text.txt", "2 image.jpg", "2 movies"]);
    assert_eq!(list[2].perm, "d---------");
    assert_eq!(list[2].time, "--/--/-- --:--:--");
    assert_eq!(list[2].size, "0");
    assert_eq!(list[5].perm, "d---------");
}

#[test]
fn listing_below_the_root() {
    let list = virtual_listing(&with_dirs(), "/2 movies", &None, parent());
    assert_eq!(names(&list), vec!["..", "1 action"]);
    assert_eq!(list[1].perm, "d---------");
    let list = virtual_listing(&with_dirs(), "/2 movies/1 action", &None, parent());
    assert_eq!(names(&list), vec!["..", "1 text.txt"]);
    assert_eq!(list[0].perm, "drwxr-xr-x");
}

#[test]
fn parent_entry_comes_from_the_caller() {
    let recs = vec![
        rec("drwx------", "a", 0, "pt"),
        rec("-rw-r--r--", "a/b/c.txt", 1, "ct"),
    ];
    let list = virtual_listing(&recs, "/a/b", &None, parent());
    assert_eq!(list[0].name, "..");
    assert_eq!(list[0].perm, "drwxr-xr-x");
    assert_eq!(list[0].time, "t");
    assert_eq!(names(&list), vec!["..", "c.txt"]);
}

#[test]
fn parent_paths() {
    assert_eq!(parent_path(""), "/");
    assert_eq!(parent_path("foo/"), "/");
    assert_eq!(parent_path("foo/bar/"), "foo");
    assert_eq!(parent_path("a/b/c/"), "a/b");
}

#[test]
fn made_up_directory_entry() {
    let e = dir_entry("dir");
    assert_eq!(e.perm, "d---------");
    assert_eq!(e.size, "0");
    assert_eq!(e.time, "--/--/-- --:--:--");
    assert_eq!(e.name, "dir");
    assert_eq!(e.link, "");
}

#[test]
fn change_virtual_dir_task_test_run_error() {
    let task = ChangeVirtualDirTask::new("%y/%m/%d %H:%M:%S");
    let res = task.virtual_cwd("/t/dir-entries.zip", "/t");
    assert_eq!(res, Err(VirtualDirError::OutsideRoot));
    let res = task.virtual_cwd("/t/dir-entries.zip", "/t/dir-entries.zip/1 game");
    assert_eq!(res, Ok("/1 game".to_owned()));
    assert_eq!(task.time_style(), "%y/%m/%d %H:%M:%S");
}

#[test]
fn same_tree_with_and_without_directory_entries() {
    let with: Vec<ArchiveRecord> = with_dirs().into_iter().filter(|r| r.path != "3 blank/").collect();
    let without: Vec<ArchiveRecord> = with_dirs().into_iter().filter(|r| !r.path.ends_with('/')).collect();
    let filter = Some("^(__MACOSX/|\\._.+)".to_owned());
    let a = virtual_listing(&with, "", &filter, parent());
    let b = virtual_listing(&without, "", &filter, parent());
    assert_eq!(names(&a), names(&b));
    for (x, y) in a.iter().zip(b.iter()) {
        assert!(x.perm == y.perm || (y.perm == "d---------" && y.time == "--/--/-- --:--:--"));
    }
}

#[test]
fn a_directory_record_after_its_children_is_listed_once() {
    let recs = vec![
        rec("-rw-r--r--", "a/b", 1, "t1"),
        rec("drwxr-x---", "a/", 0, "t2"),
        rec("-rw-r--r--", "a/c", 1, "t3"),
    ];
    let mut p = parent();
    p.name = "parent".to_owned();
    let list = virtual_listing(&recs, "", &None, p);
    assert_eq!(names(&list), vec!["..", "a"]);
    assert_eq!(list[1].perm, "drwxr-x---");
    assert_eq!(list[1].time, "t2");
}
