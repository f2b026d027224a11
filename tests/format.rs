use footloose::format::{full_perm_string, ls_style_size, perm_string, FileKind};

#[test]
fn test_ls_style_size() {
    assert_eq!(ls_style_size(0), "0");
    assert_eq!(ls_style_size(1), "1");
    assert_eq!(ls_style_size(512), "512");
    assert_eq!(ls_style_size(1023), "1023");
    assert_eq!(ls_style_size(1024), "1.0K");
    assert_eq!(ls_style_size(1536), "1.5K");
    assert_eq!(ls_style_size(10 * 1024), "10.0K");
    assert_eq!(ls_style_size(1024 * 1024), "1.0M");
    assert_eq!(ls_style_size(5 * 1024 * 1024), "5.0M");
    assert_eq!(ls_style_size(1024_u64.pow(3)), "1.0G");
    assert_eq!(ls_style_size(15 * 1024_u64.pow(3)), "15.0G");
    assert_eq!(ls_style_size(1024_u64.pow(4)), "1.0T");
    assert_eq!(ls_style_size(3 * 1024_u64.pow(4)), "3.0T");
}

#[test]
fn ls_style_size_rounds_like_float_formatting() {
    for bytes in [1280_u64, 1100, 1048575, 2047, 123456789, 1024 * 1024 * 1024 * 1024 * 2000] {
        let mut size = bytes as f64;
        let mut unit = 0;
        while size >= 1024.0 && unit < 4 {
            size /= 1024.0;
            unit += 1;
        }
        let expected = if unit == 0 {
            format!("{}", size as u64)
        } else {
            format!("{:.1}{}", size, ["B", "K", "M", "G", "T"][unit])
        };
        assert_eq!(ls_style_size(bytes), expected);
    }
}

#[test]
fn test_perm_string() {
    assert_eq!(perm_string(0o644), "rw-r--r--");
    assert_eq!(perm_string(0o755), "rwxr-xr-x");
    assert_eq!(perm_string(0o777), "rwxrwxrwx");
    assert_eq!(perm_string(0o100644), "rw-r--r--");
    assert_eq!(perm_string(0), "---------");
}

#[test]
fn full_perm_string_adds_the_type() {
    assert_eq!(full_perm_string(FileKind::File, Some(0o644)), "-rw-r--r--");
    assert_eq!(full_perm_string(FileKind::Dir, Some(0o777)), "drwxrwxrwx");
    assert_eq!(full_perm_string(FileKind::Symlink, Some(0o755)), "lrwxr-xr-x");
    assert_eq!(full_perm_string(FileKind::Dir, None), "----------");
}
