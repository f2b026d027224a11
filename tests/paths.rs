use footloose::path::{
    _absolutize_paths, absolutize_path, normalize_path, quote_paths, relativize_path,
    relativize_paths, resolve_path,
};

#[test]
fn test_normalize_path() {
    assert_eq!(normalize_path("/aa/bb/cc/dd/ee"), "/aa/bb/cc/dd/ee");
    assert_eq!(normalize_path("/aa/bb/cc/dd/ee/"), "/aa/bb/cc/dd/ee");
    assert_eq!(normalize_path("/aa/bb/cc/dd/ee/.."), "/aa/bb/cc/dd");
    assert_eq!(normalize_path("/aa/bb/cc/dd/../ee"), "/aa/bb/cc/ee");
    assert_eq!(normalize_path("/aa/bb/cc/dd/./ee"), "/aa/bb/cc/dd/ee");
    assert_eq!(normalize_path("/aa/bb/./cc/../dd"), "/aa/bb/dd");
    assert_eq!(normalize_path("/aa/bb/cc/../../dd"), "/aa/dd");
    assert_eq!(normalize_path("/aa/.."), "/");
    assert_eq!(normalize_path("/aa/bb/../../../../.."), "/");
}

#[test]
fn normalize_path_is_idempotent_on_examples() {
    for p in ["/a//b/./c/", "/..", "/x/../y/z/..", "", "a/b"] {
        let once = normalize_path(p);
        assert!(once.starts_with('/'));
        assert_eq!(normalize_path(&once), once);
    }
}

#[test]
fn test_absolutize_path() {
    assert_eq!(absolutize_path("/foo/bar", "/baz"), "/foo/bar");
    assert_eq!(absolutize_path("foo/bar", "/baz"), "/baz/foo/bar");
    assert_eq!(absolutize_path("./foo/bar", "/baz"), "/baz/foo/bar");
    assert_eq!(absolutize_path("../foo/bar", "/baz/qux"), "/baz/qux/../foo/bar");
    assert_eq!(absolutize_path("foo/./bar", "/baz"), "/baz/foo/bar");
    assert_eq!(absolutize_path("", "/baz"), "/baz");
    assert_eq!(absolutize_path("foo/bar", ""), "foo/bar");
    assert_eq!(absolutize_path("/foo/bar", ""), "/foo/bar");
    assert_eq!(absolutize_path("./foo/bar", ""), "./foo/bar");
    assert_eq!(absolutize_path("../foo/bar", ""), "../foo/bar");
}

#[test]
fn absolutize_path_expands_tilde() {
    let home = absolutize_path("~", "");
    let expanded = absolutize_path("~/foo/bar", "/baz");
    if home != "~" {
        assert_eq!(expanded, format!("{}/foo/bar", home));
    }
}

#[test]
fn test_absolutize_paths() {
    let paths = vec![
        "/foo/bar".to_owned(),
        "foo/bar".to_owned(),
        "./foo/bar".to_owned(),
        "../foo/bar".to_owned(),
    ];
    let expected = vec![
        "/foo/bar".to_owned(),
        "/baz/foo/bar".to_owned(),
        "/baz/foo/bar".to_owned(),
        "/baz/../foo/bar".to_owned(),
    ];
    assert_eq!(_absolutize_paths(&paths, "/baz"), expected);
}

#[test]
fn test_relativize_path() {
    assert_eq!(relativize_path("/foo/bar", "/foo"), "bar");
    assert_eq!(relativize_path("/foo/bar/baz", "/foo"), "bar/baz");
    assert_eq!(relativize_path("/foo/bar", "/baz"), "/foo/bar");
    assert_eq!(relativize_path("/foo/bar", ""), "/foo/bar");
    assert_eq!(relativize_path("foo/bar", "/foo"), "foo/bar");
    assert_eq!(relativize_path("/foo/bar", "foo"), "/foo/bar");
    assert_eq!(relativize_path("/foo", "/foo"), ".");
    assert_eq!(relativize_path("/foobar", "/foo"), "/foobar");
}

#[test]
fn test_relativize_paths() {
    let paths = vec![
        "/foo/bar".to_owned(),
        "/foo/bar/baz".to_owned(),
        "/baz/qux".to_owned(),
    ];
    let expected = vec!["bar".to_owned(), "bar/baz".to_owned(), "/baz/qux".to_owned()];
    assert_eq!(relativize_paths(&paths, "/foo"), expected);
}

#[test]
fn test_quote_paths() {
    assert_eq!(quote_paths(&vec!["foobar".to_owned()]), "\"foobar\"");
    assert_eq!(quote_paths(&vec!["foo bar".to_owned()]), "\"foo bar\"");
    assert_eq!(quote_paths(&vec!["fo\\o\"b'ar".to_owned()]), r#""fo\\o\"b'ar""#);
    assert_eq!(
        quote_paths(&vec!["foobar".to_owned(), "foo bar".to_owned()]),
        "\"foobar\" \"foo bar\""
    );
    assert_eq!(quote_paths(&vec![]), "");
}

#[test]
fn resolve_path_keeps_normalized_absolute_paths() {
    assert_eq!(resolve_path("/a/b", "/x").as_deref(), Some("/a/b"));
    assert_eq!(resolve_path("/a/b/", "").as_deref(), Some("/a/b"));
    assert_eq!(resolve_path("/", "/x").as_deref(), Some("/"));
}

#[test]
fn resolve_path_joins_and_rejects() {
    assert_eq!(resolve_path("../test1", "/foo/bar").as_deref(), Some("/foo/test1"));
    assert_eq!(resolve_path("test2", "/foo/bar").as_deref(), Some("/foo/bar/test2"));
    assert_eq!(resolve_path("../test1", ""), None);
    assert_eq!(resolve_path("test1", "rel"), None);
    assert_eq!(resolve_path("/abs/./x/..", "rel").as_deref(), Some("/abs"));
}

#[test]
fn json_quoting_matches_serde_json() {
    for s in ["plain", "a\"b\\c", "tab\there\nnl\r\u{8}\u{c}", "\u{1}\u{1f}\u{7f}", "ゲーム", ""] {
        assert_eq!(quote_paths(&vec![s.to_owned()]), serde_json::to_string(s).unwrap());
    }
}
