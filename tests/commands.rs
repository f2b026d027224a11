use footloose::command::{ArgValue, Command};
use footloose::tasks::{AbortProgressTask, BookmarkTask, ChangeDirTask, OpenTask, ProgressTask};
use footloose::bookmark::BookmarkManager;

fn cmd(cwd: &str, args: Vec<(&str, ArgValue)>) -> Command {
    Command {
        id: "1".to_owned(),
        frame: "a".to_owned(),
        cwd: cwd.to_owned(),
        name: "test".to_owned(),
        args: args.into_iter().map(|(k, v)| (k.to_owned(), v)).collect(),
    }
}

fn s(v: &str) -> ArgValue {
    ArgValue::Str(v.to_owned())
}

fn arr(v: &[&str]) -> ArgValue {
    ArgValue::StrArray(v.iter().map(|x| x.to_string()).collect())
}

#[test]
fn test_command_arg_as_str() {
    let c = cmd("/foo/bar", vec![("k1", s("v1")), ("k2", ArgValue::Other)]);
    assert_eq!(c.arg_as_str("k1"), Some("v1"));
    assert_eq!(c.arg_as_str("k2"), None);
    assert_eq!(c.arg_as_str("k3"), None);
}

#[test]
fn test_command_arg_as_str_array() {
    let c = cmd("/foo/bar", vec![("k1", arr(&["v1", "v2"])), ("k2", ArgValue::Other)]);
    assert_eq!(c.arg_as_str_array("k1"), Some(vec!["v1".to_owned(), "v2".to_owned()]));
    assert_eq!(c.arg_as_str_array("k2"), None);
}

#[test]
fn test_command_arg_as_path() {
    let c = cmd("/foo/bar", vec![("path", s("/test1"))]);
    assert_eq!(c.arg_as_path("path", ""), Some("/test1".to_owned()));
}

#[test]
fn test_command_arg_as_path_relative() {
    let c = cmd("/foo/bar", vec![("path", s("../test1"))]);
    assert_eq!(c.arg_as_path("path", "/foo/bar"), Some("/foo/test1".to_owned()));
}

#[test]
fn test_command_arg_as_path_invalid() {
    let c = cmd("/foo/bar", vec![("path", s("../test1"))]);
    assert!(c.arg_as_path("path", "").is_none());
}

#[test]
fn arg_as_path_keeps_normalized_input() {
    let c = cmd("/foo", vec![("p", s("/a/b/c")), ("q", s("/a/b/c/"))]);
    assert_eq!(c.arg_as_path("p", "/foo"), Some("/a/b/c".to_owned()));
    assert_eq!(c.arg_as_path("q", "/foo"), Some("/a/b/c".to_owned()));
}

#[test]
fn test_command_arg_as_path_array() {
    let c = cmd("/foo/bar", vec![("path", arr(&["/test1", "/test2"]))]);
    assert_eq!(c.arg_as_path_array("path", ""), Some(vec!["/test1".to_owned(), "/test2".to_owned()]));
}

#[test]
fn test_command_arg_as_path_array_relative() {
    let c = cmd("/foo/bar", vec![("path", arr(&["../test1", "test2"]))]);
    assert_eq!(
        c.arg_as_path_array("path", "/foo/bar"),
        Some(vec!["/foo/test1".to_owned(), "/foo/bar/test2".to_owned()])
    );
}

#[test]
fn test_command_arg_as_path_array_invalid() {
    let c = cmd("/foo/bar", vec![("path", arr(&["../test1", "/test2"]))]);
    assert!(c.arg_as_path_array("path", "").is_none());
}

#[test]
fn kill_names_the_task() {
    let c = cmd("/", vec![("pid", s("P"))]);
    let ctrl = AbortProgressTask::new().control(&c).unwrap();
    assert_eq!(ctrl.pid, "P");
    assert!(AbortProgressTask::new().control(&cmd("/", vec![])).is_none());
}

#[test]
fn task_argument_checks() {
    let b = BookmarkTask::new(BookmarkManager::new(&None));
    assert!(b.args_valid(&cmd("/", vec![("action", s("get"))])));
    assert!(b.args_valid(&cmd("/", vec![("action", s("add")), ("name", s("n")), ("path", s("x"))])));
    assert!(!b.args_valid(&cmd("", vec![("action", s("add")), ("name", s("n")), ("path", s("x"))])));
    assert!(OpenTask::new().args_valid(&cmd("/", vec![("path", s("a"))])));
    assert!(!OpenTask::new().args_valid(&cmd("/", vec![])));
    assert!(ChangeDirTask::new().args_valid(&cmd("/", vec![("path", s("/x"))])));
    assert!(ProgressTask::new().args_valid(&cmd("/", vec![("sources", arr(&["a"]))])));
    assert!(!ProgressTask::new().args_valid(&cmd("", vec![("sources", arr(&["a"]))])));
}
