//! The in-memory provider: listings, ordering, file contents.

use std::collections::HashMap;

use stackscan::provider::{BaseProvider, FakeProvider, FileType};

fn setup_test_provider() -> FakeProvider {
    let mut paths = HashMap::new();
    paths.insert(
        "/".to_string(),
        vec!["dir1/".to_string(), "file1.txt".to_string()],
    );
    paths.insert(
        "/dir1".to_string(),
        vec!["file2.txt".to_string(), "subdir/".to_string()],
    );

    let mut files = HashMap::new();
    files.insert("/file1.txt".to_string(), "content1".to_string());
    files.insert("/dir1/file2.txt".to_string(), "content2".to_string());

    FakeProvider::new(paths, files)
}

#[test]
fn test_base_path() {
    let provider = setup_test_provider();
    assert_eq!(provider.base_path(), "/");
}

#[test]
fn test_list_dir() {
    let provider = setup_test_provider();

    let root_files = provider.list_dir("/");
    assert_eq!(root_files.len(), 2);
    assert_eq!(root_files[0].name, "dir1");
    assert_eq!(root_files[0].file_type, FileType::Dir);
    assert_eq!(root_files[1].name, "file1.txt");
    assert_eq!(root_files[1].file_type, FileType::File);

    let dir1_files = provider.list_dir("/dir1");
    assert_eq!(dir1_files.len(), 2);
    assert_eq!(dir1_files[0].name, "file2.txt");
    assert_eq!(dir1_files[0].file_type, FileType::File);
    assert_eq!(dir1_files[1].name, "subdir");
    assert_eq!(dir1_files[1].file_type, FileType::Dir);

    let empty_dir = provider.list_dir("/nonexistent");
    assert!(empty_dir.is_empty());
}

#[test]
fn test_open() {
    let provider = setup_test_provider();

    assert_eq!(provider.open("/file1.txt"), Some("content1".to_string()));
    assert_eq!(provider.open("/dir1/file2.txt"), Some("content2".to_string()));

    assert_eq!(provider.open("/nonexistent.txt"), None);
}
