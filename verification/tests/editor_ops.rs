use devtui::editor::ops::{dist_dir_checked, dist_dir_for_blog};
use std::path::Path;

#[test]
fn dist_dir_derives_name_from_blog_dir() {
    let result = dist_dir_for_blog("blogs/acme-alchemist");
    assert_eq!(Path::new(&result), Path::new("dist/acme-alchemist"));
}

#[test]
fn dist_dir_works_with_absolute_path() {
    let result = dist_dir_for_blog("/home/user/projects/devtui/blogs/my-blog");
    assert_eq!(Path::new(&result), Path::new("dist/my-blog"));
}

#[test]
fn dist_dir_ignores_trailing_separator() {
    assert_eq!(dist_dir_for_blog("blogs/site/"), "dist/site");
}

#[test]
fn dist_dir_checked_refuses_parent_reference() {
    assert_eq!(dist_dir_checked("blogs/.."), None);
    assert_eq!(dist_dir_checked("/"), None);
    assert_eq!(dist_dir_checked("blogs/x"), Some("dist/x".to_string()));
}
