use dkdc::archive::{archive_name, archive_name_from};

#[test]
fn given_name_wins() {
    assert_eq!(archive_name_from(Some("mine.zip"), Some("dir")), "mine.zip");
    assert_eq!(archive_name("/tmp/project", Some("x")), "x");
}

#[test]
fn default_name_is_the_directory_name() {
    assert_eq!(archive_name_from(None, Some("dir")), "dir.zip");
    assert_eq!(archive_name_from(None, None), "archive.zip");
    assert_eq!(archive_name("/tmp/project", None), "project.zip");
    assert_eq!(archive_name("/tmp/project/", None), "project.zip");
}

#[test]
fn paths_without_a_final_name_get_the_fallback() {
    assert_eq!(archive_name(".", None), "archive.zip");
    assert_eq!(archive_name("/", None), "archive.zip");
    assert_eq!(archive_name("a/..", None), "archive.zip");
}
