use import_closure::bundle::{bundle, display_path, listing};
use import_closure::path::FilePath;

#[test]
fn bundle_puts_each_file_under_its_name() {
    let names = vec!["a.py".to_string(), "src/b.py".to_string()];
    let contents = vec!["import b\n".to_string(), "x = 1".to_string()];
    assert_eq!(
        bundle(&names, &contents),
        "\n<file>a.py</file>\nimport b\n\n\n<file>src/b.py</file>\nx = 1\n"
    );
}

#[test]
fn bundle_of_nothing_is_empty() {
    assert_eq!(bundle(&vec![], &vec![]), "");
    assert_eq!(bundle(&vec!["a".to_string()], &vec![]), "");
}

#[test]
fn listing_names_each_file() {
    let names = vec!["/repo/a.py".to_string(), "/repo/b.py".to_string()];
    assert_eq!(listing(&names), "\nFiles to be copied:\n- /repo/a.py\n- /repo/b.py\n\n");
    assert_eq!(listing(&vec![]), "\nFiles to be copied:\n\n");
}

#[test]
fn display_path_is_relative_below_the_base() {
    let base = FilePath::parse("/home/u/repo");
    let inside = FilePath::parse("/home/u/repo/src/a.py");
    let outside = FilePath::parse("/home/u/other/a.py");
    assert_eq!(display_path(&inside, &base).render(), "src/a.py");
    assert_eq!(display_path(&outside, &base).render(), "/home/u/other/a.py");
}
