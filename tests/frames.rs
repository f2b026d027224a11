use footloose::frame_set::FrameSet;

fn set_of(a: &str, b: &str) -> FrameSet {
    let mut set = FrameSet::new();
    set.update_path("a", a);
    set.update_path("b", b);
    set
}

#[test]
fn test_other_path() {
    let set = set_of("path_a", "path_b");
    assert_eq!(set.other_path("a"), "path_b");
    assert_eq!(set.other_path("b"), "path_a");
}

#[test]
fn test_both_paths() {
    let set = set_of("path_a", "path_b");
    let (a, b) = set.both_paths();
    assert_eq!(a, "path_a");
    assert_eq!(b, "path_b");
}

#[test]
fn test_path_to_be_unused() {
    let set = set_of("path_a", "path_b");
    assert_eq!(set.path_to_be_unused("a", "new_path"), Some("path_a"));
    assert_eq!(set.path_to_be_unused("b", "new_path"), Some("path_b"));
    assert_eq!(set.path_to_be_unused("a", "path_a"), None);
    assert_eq!(set.path_to_be_unused("b", "path_b"), None);
    let set = set_of("path_a", "path_a");
    assert_eq!(set.path_to_be_unused("a", "new_path"), None);
    assert_eq!(set.path_to_be_unused("b", "new_path"), None);
}

#[test]
fn test_update_path() {
    let mut set = FrameSet::new();
    set.update_path("a", "new_path_a");
    set.update_path("b", "new_path_b");
    assert_eq!(set.path("a"), "new_path_a");
    assert_eq!(set.path("b"), "new_path_b");
}

#[test]
fn new_frame_set_is_empty() {
    let set = FrameSet::new();
    assert_eq!(set.both_paths(), ("", ""));
}
