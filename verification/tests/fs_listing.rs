use rustfiles::error::{ErrorCode, IoErrorKind};
use rustfiles::listing::{check_directory, compute_snapshot_version, entry_from_metadata, list_directory, DirProbe};
use rustfiles::types::{FileEntry, FilterKind, SortKey};

fn small_dir() -> Vec<FileEntry> {
    let d = "C:\\fixtures\\small-dir";
    let mk = |name: &str, len: u64, attrs: u32, dir: bool| {
        entry_from_metadata(format!("{}\\{}", d, name), name.to_string(), len, 1_700_000_000, attrs, dir)
    };
    vec![
        mk("a.txt", 10, 0x20, false),
        mk("b.txt", 20, 0x20, false),
        mk("c.md", 30, 0x20, false),
        mk("d.json", 40, 0x20, false),
        mk("e.rs", 50, 0x20, false),
        mk("sub1", 4096, 0x10, true),
        mk("Sub2", 4096, 0x10, true),
        mk("hidden.txt", 5, 0x22, false),
    ]
}

fn page(key: SortKey, asc: bool, filter: FilterKind, hidden: bool) -> rustfiles::types::DirectoryPage {
    list_directory("C:\\fixtures\\small-dir".to_string(), &small_dir(), key, asc, filter, hidden, 1_716_000_000_000)
}

#[test]
fn list_directory_small_dir_returns_directory_page() {
    let page = page(SortKey::Name, true, FilterKind::All, false);
    assert!(page.path.contains("small-dir"));
    assert_eq!(page.sort_key, SortKey::Name);
    assert!(page.sort_ascending);
    assert_eq!(page.filter_kind, FilterKind::All);
    assert!(!page.show_hidden);
    assert!(page.snapshot_version > 0, "snapshot_version should be positive");
    assert!(page.total_count >= 7, "small-dir should have at least 7 entries, got {}", page.total_count);
    assert!(!page.entries.is_empty(), "entries should not be empty");
    assert_eq!(page.snapshot_version, 1_716_000_000_000 * 31 + 7);
    assert!(!page.is_paginated());
}

#[test]
fn list_directory_nonexistent_path_returns_path_not_found() {
    let result = check_directory("C:\\fixtures\\does-not-exist-12345", DirProbe::Missing);
    assert!(result.is_err(), "nonexistent path should error");
    let err = result.unwrap_err();
    assert_eq!(err.code, ErrorCode::PathNotFound);
    assert_eq!(err.message, "路径不存在: C:\\fixtures\\does-not-exist-12345");
}

#[test]
fn list_directory_refusals_follow_the_probe() {
    assert!(check_directory("C:\\d", DirProbe::Readable).is_ok());
    let e = check_directory("C:\\f.txt", DirProbe::NotDirectory).unwrap_err();
    assert_eq!((e.code, e.message.as_str()), (ErrorCode::PathNotFound, "不是目录: C:\\f.txt"));
    let e = check_directory("C:\\d", DirProbe::ReadFailed { kind: IoErrorKind::PermissionDenied, detail: "x".into() }).unwrap_err();
    assert_eq!((e.code, e.message.as_str()), (ErrorCode::PermissionDenied, "权限不足: C:\\d"));
    let e = check_directory("C:\\d", DirProbe::ReadFailed { kind: IoErrorKind::Other, detail: "disk".into() }).unwrap_err();
    assert_eq!((e.code, e.message.as_str()), (ErrorCode::InternalError, "读取目录失败: disk"));
}

#[test]
fn list_directory_small_dir_filters_folders_only() {
    let page = page(SortKey::Name, true, FilterKind::Folders, false);
    for entry in &page.entries {
        assert!(entry.is_folder, "folder filter should only return folders");
    }
    assert!(page.total_count >= 2, "should have at least 2 folders");
}

#[test]
fn list_directory_small_dir_filters_files_only() {
    let page = page(SortKey::Name, true, FilterKind::Files, false);
    for entry in &page.entries {
        assert!(!entry.is_folder, "files filter should only return files");
    }
    assert_eq!(page.total_count, 5);
}

#[test]
fn list_directory_small_dir_show_hidden_includes_hidden_file() {
    let page_with = page(SortKey::Name, true, FilterKind::All, true);
    let page_without = page(SortKey::Name, true, FilterKind::All, false);
    assert!(page_with.total_count >= page_without.total_count, "show_hidden should show at least as many entries");
    assert!(page_with.entries.iter().any(|e| e.name == "hidden.txt"));
    assert!(!page_without.entries.iter().any(|e| e.name == "hidden.txt"));
}

#[test]
fn list_directory_sorts_by_name_ascending() {
    let page = page(SortKey::Name, true, FilterKind::All, false);
    let folders: Vec<&str> = page.entries.iter().filter(|e| e.is_folder).map(|e| e.name.as_str()).collect();
    let files: Vec<&str> = page.entries.iter().filter(|e| !e.is_folder).map(|e| e.name.as_str()).collect();
    assert_eq!(folders, vec!["sub1", "Sub2"]);
    assert_eq!(files, vec!["a.txt", "b.txt", "c.md", "d.json", "e.rs"]);
}

#[test]
fn list_directory_sorts_by_name_descending() {
    let page = page(SortKey::Name, false, FilterKind::All, false);
    let names: Vec<&str> = page.entries.iter().map(|e| e.name.as_str()).collect();
    assert_eq!(names, vec!["Sub2", "sub1", "e.rs", "d.json", "c.md", "b.txt", "a.txt"]);
}

#[test]
fn entries_from_metadata_mark_hidden_and_folders() {
    let e = entry_from_metadata("C:\\x\\f".into(), "f".into(), 123, 9, 0x2, false);
    assert!(e.is_hidden);
    assert_eq!(e.size, 123);
    let d = entry_from_metadata("C:\\x\\d".into(), "d".into(), 4096, 9, 0x10, true);
    assert!(!d.is_hidden);
    assert_eq!(d.size, 0);
    assert_eq!(compute_snapshot_version(2, 3), 65);
}
