use footloose::bookmark::{Bookmark, BookmarkManager};
use footloose::errors::{BookmarkError, ErrorCode, ServerError};

fn bm(name: &str, path: &str) -> Bookmark {
    Bookmark { name: name.to_owned(), path: path.to_owned() }
}

fn dummy() -> Vec<Bookmark> {
    vec![bm("test1", "/test1"), bm("test2", "/test2")]
}

fn pairs(v: &[Bookmark]) -> Vec<(String, String)> {
    v.iter().map(|b| (b.name.clone(), b.path.clone())).collect()
}

#[test]
fn test_get_bookmark() {
    let bookmarks = BookmarkManager::process(dummy(), "get", "", "").ok().unwrap();
    assert_eq!(bookmarks.len(), 2);
    assert_eq!(bookmarks[0].name, "test1");
    assert_eq!(bookmarks[1].name, "test2");
}

#[test]
fn test_add_bookmark() {
    let bookmarks = BookmarkManager::process(vec![], "add", "test1", "/test1").ok().unwrap();
    assert_eq!(bookmarks.len(), 1);
    assert_eq!(bookmarks[0].name, "test1");
    assert_eq!(bookmarks[0].path, "/test1");
}

#[test]
fn add_puts_the_bookmark_first() {
    let bookmarks = BookmarkManager::process(dummy(), "add", "new", "/new").ok().unwrap();
    assert_eq!(
        pairs(&bookmarks),
        vec![
            ("new".to_owned(), "/new".to_owned()),
            ("test1".to_owned(), "/test1".to_owned()),
            ("test2".to_owned(), "/test2".to_owned()),
        ]
    );
}

#[test]
fn test_rename_bookmark() {
    let bookmarks = BookmarkManager::process(dummy(), "rename", "new_test1", "/test1").ok().unwrap();
    assert_eq!(bookmarks.len(), 2);
    assert_eq!(bookmarks[0].name, "new_test1");
    assert_eq!(bookmarks[0].path, "/test1");
}

#[test]
fn test_delete_bookmark() {
    let bookmarks = BookmarkManager::process(dummy(), "delete", "", "/test1").ok().unwrap();
    assert_eq!(bookmarks.len(), 1);
    assert_eq!(bookmarks[0].name, "test2");
    assert_eq!(bookmarks[0].path, "/test2");
}

#[test]
fn test_add_existing_bookmark() {
    let res = BookmarkManager::process(dummy(), "add", "test1", "/test1");
    assert!(matches!(res, Err(BookmarkError::Exists)));
}

#[test]
fn test_rename_bookmark_to_existing_name() {
    let res = BookmarkManager::process(dummy(), "rename", "test2", "/test1");
    assert!(matches!(res, Err(BookmarkError::Exists)));
}

#[test]
fn test_rename_nonexistent_bookmark() {
    let res = BookmarkManager::process(vec![], "rename", "new_test1", "/test1");
    assert!(matches!(res, Err(BookmarkError::NotFound)));
}

#[test]
fn test_delete_nonexistent_bookmark() {
    let res = BookmarkManager::process(vec![], "delete", "", "/test1");
    assert!(matches!(res, Err(BookmarkError::NotFound)));
}

#[test]
fn bookmark_add_get_delete_scenario() {
    let list = BookmarkManager::process(vec![], "add", "x", "/a").ok().unwrap();
    assert_eq!(pairs(&list), vec![("x".to_owned(), "/a".to_owned())]);
    let again = BookmarkManager::process(list, "add", "x", "/a");
    let err = again.err().unwrap();
    assert_eq!(err.code(), "E005003");
    let list = BookmarkManager::process(vec![bm("x", "/a")], "delete", "", "/a").ok().unwrap();
    assert!(list.is_empty());
    let err = BookmarkManager::process(list, "delete", "", "/a").err().unwrap();
    assert_eq!(err.code(), "E005002");
}

#[test]
fn bookmark_lists_stay_unique() {
    let list = BookmarkManager::process(dummy(), "rename", "other", "/test2").ok().unwrap();
    let names: Vec<_> = list.iter().map(|b| b.name.clone()).collect();
    assert_eq!(names, vec!["test1".to_owned(), "other".to_owned()]);
    assert!(BookmarkManager::process(list, "add", "z", "/test1").is_err());
}

#[test]
fn bookmark_errors_have_codes() {
    assert_eq!(BookmarkError::NotAvailable.code(), "E005001");
    assert_eq!(BookmarkError::NotFound.code(), "E005002");
    assert_eq!(BookmarkError::Exists.code(), "E005003");
    assert_eq!(BookmarkError::IO("x".to_owned()).code(), "E005004");
}

#[test]
fn bookmark_manager_without_file_is_not_available() {
    let m = BookmarkManager::new(&None);
    assert!(matches!(m.path(), Err(BookmarkError::NotAvailable)));
    let m = BookmarkManager::new(&Some("/tmp/b.json".to_owned()));
    assert_eq!(m.path().ok(), Some("/tmp/b.json"));
}

#[test]
fn to_error_keeps_bookmark_errors() {
    let e = BookmarkManager::to_error(ServerError::Bookmark(BookmarkError::Exists), "m");
    assert_eq!(e, BookmarkError::Exists);
    let e = BookmarkManager::to_error(ServerError::Other("boom".to_owned()), "boom");
    assert_eq!(e, BookmarkError::IO("boom".to_owned()));
}
