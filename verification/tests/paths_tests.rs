use trsh::paths::{base_name, join_path};

#[test]
fn join_puts_one_separator_between() {
    assert_eq!(join_path(b"/tmp", b"a.txt"), b"/tmp/a.txt".to_vec());
    assert_eq!(join_path(b"/tmp/", b"a.txt"), b"/tmp/a.txt".to_vec());
}

#[test]
fn join_with_absolute_filename_replaces_the_directory() {
    assert_eq!(join_path(b"/tmp", b"/etc/hostname"), b"/etc/hostname".to_vec());
}

#[test]
fn join_with_empty_directory_is_the_filename() {
    assert_eq!(join_path(b"", b"a.txt"), b"a.txt".to_vec());
}

#[test]
fn base_name_is_the_last_component() {
    assert_eq!(base_name(b"/etc/hostname"), Some(b"hostname".to_vec()));
    assert_eq!(base_name(b"dir/sub/a.txt"), Some(b"a.txt".to_vec()));
    assert_eq!(base_name(b"a.txt"), Some(b"a.txt".to_vec()));
}

#[test]
fn base_name_of_a_directory_path_is_nothing() {
    assert_eq!(base_name(b"/etc/"), None);
    assert_eq!(base_name(b""), None);
}
