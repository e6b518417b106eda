use exspec::cli::{is_python_test_file, python_test_files};

#[test]
fn is_python_test_file_matches_test_prefix() {
    assert!(is_python_test_file("tests/test_foo.py"));
    assert!(is_python_test_file("test_bar.py"));
}

#[test]
fn is_python_test_file_matches_test_suffix() {
    assert!(is_python_test_file("foo_test.py"));
}

#[test]
fn is_python_test_file_rejects_non_test() {
    assert!(!is_python_test_file("foo.py"));
    assert!(!is_python_test_file("helper.py"));
    assert!(!is_python_test_file("test_foo.js"));
}

#[test]
fn is_python_test_file_looks_at_file_name_only() {
    assert!(!is_python_test_file("test_dir/helper.py"));
    assert!(is_python_test_file("a/b/c_test.py"));
    assert!(!is_python_test_file(""));
    assert!(!is_python_test_file("test_"));
}

#[test]
fn python_test_files_filters_and_sorts() {
    let paths = vec![
        "pkg/z_test.py".to_string(),
        "pkg/helper.py".to_string(),
        "a/test_b.py".to_string(),
        "a/test_a.py".to_string(),
        "a/test_a.py".to_string(),
        "web/test_x.js".to_string(),
    ];
    assert_eq!(
        python_test_files(&paths),
        vec!["a/test_a.py".to_string(), "a/test_b.py".to_string(), "pkg/z_test.py".to_string()]
    );
    assert!(python_test_files(&[]).is_empty());
}
