use rustfiles::listing::list_directory_paginated;
use rustfiles::types::{DirectoryPage, FileEntry, FilterKind, SortKey};

fn large_dir() -> Vec<FileEntry> {
    (0..10_000u64)
        .map(|i| FileEntry {
            path: format!("C:\\fixtures\\large-10k-dir\\file_{:05}.txt", i),
            name: format!("file_{:05}.txt", i),
            size: i,
            modified: 1_700_000_000,
            is_hidden: false,
            is_folder: false,
        })
        .collect()
}

fn listing(offset: usize, limit: usize) -> DirectoryPage {
    list_directory_paginated(
        "C:\\fixtures\\large-10k-dir".to_string(),
        &large_dir(),
        SortKey::Name,
        true,
        FilterKind::All,
        false,
        1_716_000_000_000,
        offset,
        limit,
    )
}

#[test]
fn list_directory_large_10k_returns_total_count() {
    let page = listing(0, usize::MAX);
    assert_eq!(page.total_count, 10000, "large-10k-dir should have 10000 entries");
    assert_eq!(page.entries.len(), 10000);
}

#[test]
fn list_directory_large_10k_paginated_returns_window() {
    let page = listing(0, 100);
    assert_eq!(page.total_count, 10000, "total_count should be 10000");
    assert_eq!(page.offset, 0, "offset should be 0");
    assert_eq!(page.limit, 100, "limit should be 100");
    assert!(page.entries.len() <= 100, "entries should be <= 100, got {}", page.entries.len());
    assert!(page.snapshot_version > 0, "snapshot_version should be positive");
    assert_eq!(page.entries[0].name, "file_00000.txt");
    assert!(page.is_paginated());
}

#[test]
fn list_directory_large_10k_paginated_second_page() {
    let page = listing(100, 100);
    assert_eq!(page.total_count, 10000, "total_count should be 10000");
    assert_eq!(page.offset, 100, "offset should be 100");
    assert!(page.entries.len() <= 100, "entries should be <= 100, got {}", page.entries.len());
    assert!(page.entries.len() > 0, "second page should have entries");
    assert_eq!(page.entries[0].name, "file_00100.txt");
}

#[test]
fn list_directory_large_10k_paginated_last_page_partial() {
    let page = listing(9950, 100);
    assert_eq!(page.total_count, 10000, "total_count should be 10000");
    assert_eq!(page.offset, 9950, "offset should be 9950");
    assert_eq!(page.entries.len(), 50, "last page should have 50 entries");
}

#[test]
fn page_past_the_end_is_empty() {
    let page = listing(20_000, 10);
    assert_eq!(page.total_count, 10000);
    assert!(page.entries.is_empty());
}
