use rustfiles::listing::list_directory;
use rustfiles::types::{DirectoryPage, FileEntry, FilterKind, SortKey};

fn entry(dir: &str, name: &str, size: u64, modified: i64, hidden: bool, folder: bool) -> FileEntry {
    FileEntry {
        path: format!("{}\\{}", dir, name),
        name: name.to_string(),
        size,
        modified,
        is_hidden: hidden,
        is_folder: folder,
    }
}

fn small_dir() -> Vec<FileEntry> {
    let d = "C:\\fixtures\\small-dir";
    vec![
        entry(d, "zeta.rs", 50, 1_700_000_300, false, false),
        entry(d, "docs", 0, 1_700_000_100, false, true),
        entry(d, "a.txt", 10, 1_700_000_200, false, false),
        entry(d, "B.md", 30, 1_700_000_050, false, false),
        entry(d, "Images", 0, 1_700_000_400, false, true),
        entry(d, "c.json", 20, 1_700_000_250, false, false),
        entry(d, "readme.TXT", 5, 1_700_000_150, false, false),
        entry(d, ".hidden.txt", 1, 1_700_000_000, true, false),
    ]
}

fn media_dir() -> Vec<FileEntry> {
    let d = "C:\\fixtures\\media-dir";
    vec![
        entry(d, "clip1.mp4", 4000, 1, false, false),
        entry(d, "clip2.MOV", 3000, 2, false, false),
        entry(d, "clip3.avi", 2000, 3, false, false),
        entry(d, "clip4.mkv", 1000, 4, false, false),
        entry(d, "photo1.png", 600, 5, false, false),
        entry(d, "photo2.JPG", 500, 6, false, false),
        entry(d, "photo3.jpeg", 400, 7, false, false),
        entry(d, "anim.gif", 300, 8, false, false),
        entry(d, "scan.bmp", 200, 9, false, false),
        entry(d, "web.webp", 100, 10, false, false),
        entry(d, "report.pdf", 90, 11, false, false),
        entry(d, "letter.docx", 80, 12, false, false),
        entry(d, "notes.txt", 70, 13, false, false),
        entry(d, "albums", 0, 14, false, true),
    ]
}

fn small(key: SortKey, asc: bool, filter: FilterKind, hidden: bool) -> DirectoryPage {
    list_directory("C:\\fixtures\\small-dir".to_string(), &small_dir(), key, asc, filter, hidden, 1_700_000_000_000)
}

fn media(key: SortKey, asc: bool, filter: FilterKind, hidden: bool) -> DirectoryPage {
    list_directory("C:\\fixtures\\media-dir".to_string(), &media_dir(), key, asc, filter, hidden, 1_700_000_000_000)
}

#[test]
fn sort_by_name_ascending_folders_first() {
    let page = small(SortKey::Name, true, FilterKind::All, true);
    let entries = &page.entries;
    assert!(!entries.is_empty());
    for i in 1..entries.len() {
        let prev = &entries[i - 1];
        let curr = &entries[i];
        if prev.is_folder != curr.is_folder {
            assert!(prev.is_folder);
            continue;
        }
        assert!(prev.name.to_lowercase() <= curr.name.to_lowercase(), "name ascending: {} > {}", prev.name, curr.name);
    }
    let names: Vec<&str> = entries.iter().map(|e| e.name.as_str()).collect();
    assert_eq!(names, vec!["docs", "Images", ".hidden.txt", "a.txt", "B.md", "c.json", "readme.TXT", "zeta.rs"]);
}

#[test]
fn sort_by_name_descending_folders_first() {
    let page = small(SortKey::Name, false, FilterKind::All, true);
    let entries = &page.entries;
    assert!(!entries.is_empty());
    for i in 1..entries.len() {
        let prev = &entries[i - 1];
        let curr = &entries[i];
        if prev.is_folder != curr.is_folder {
            assert!(prev.is_folder);
            continue;
        }
        assert!(prev.name.to_lowercase() >= curr.name.to_lowercase(), "name descending: {} < {}", prev.name, curr.name);
    }
    assert_eq!(entries[0].name, "Images");
    assert_eq!(entries[2].name, "zeta.rs");
}

#[test]
fn sort_by_modified_preserves_folders_first() {
    let page = small(SortKey::Modified, true, FilterKind::All, true);
    let entries = &page.entries;
    assert!(!entries.is_empty());
    let first_file_idx = entries.iter().position(|e| !e.is_folder).unwrap_or(entries.len());
    for i in 1..first_file_idx {
        assert!(entries[i - 1].is_folder, "folders must come first");
    }
    for e in &entries[first_file_idx..] {
        assert!(!e.is_folder);
    }
    let folders = entries.iter().filter(|e| e.is_folder).collect::<Vec<_>>();
    for i in 1..folders.len() {
        assert!(folders[i - 1].modified <= folders[i].modified, "folders should be sorted by modified ascending");
    }
    let files = entries.iter().filter(|e| !e.is_folder).collect::<Vec<_>>();
    for i in 1..files.len() {
        assert!(files[i - 1].modified <= files[i].modified, "files should be sorted by modified ascending");
    }
}

#[test]
fn sort_by_size_preserves_folders_first() {
    let page = media(SortKey::Size, true, FilterKind::All, true);
    let entries = &page.entries;
    assert!(!entries.is_empty());
    let first_file_idx = entries.iter().position(|e| !e.is_folder).unwrap_or(0);
    for i in 0..first_file_idx {
        assert!(entries[i].is_folder, "folders must come first");
    }
    for i in 1..entries.len() {
        let prev = &entries[i - 1];
        let curr = &entries[i];
        if prev.is_folder != curr.is_folder {
            continue;
        }
        assert!(prev.size <= curr.size, "same-type entries should be sorted by size ascending");
    }
}

#[test]
fn sort_by_file_type_preserves_folders_first() {
    let page = media(SortKey::FileType, true, FilterKind::All, true);
    let entries = &page.entries;
    assert!(!entries.is_empty());
    for i in 1..entries.len() {
        let prev = &entries[i - 1];
        let curr = &entries[i];
        if prev.is_folder != curr.is_folder {
            assert!(prev.is_folder && !curr.is_folder, "folders must come first");
            continue;
        }
        let ext_a = prev.name.rsplit('.').next().unwrap_or("");
        let ext_b = curr.name.rsplit('.').next().unwrap_or("");
        assert!(ext_a <= ext_b, "file type sort: {} ({}) > {} ({})", prev.name, ext_a, curr.name, ext_b);
    }
}

#[test]
fn filter_kind_videos_returns_only_video_files() {
    let page = media(SortKey::Name, true, FilterKind::Videos, false);
    assert_eq!(page.total_count, 4, "media-dir has 4 video files");
    for entry in &page.entries {
        assert!(!entry.is_folder, "videos filter should not return folders");
        let lower = entry.name.to_lowercase();
        assert!(
            lower.ends_with(".mp4") || lower.ends_with(".mov") || lower.ends_with(".avi") || lower.ends_with(".mkv"),
            "unexpected file in videos filter: {}",
            entry.name
        );
    }
}

#[test]
fn filter_kind_images_returns_only_image_files() {
    let page = media(SortKey::Name, true, FilterKind::Images, false);
    assert_eq!(page.total_count, 6, "media-dir has 6 image files");
    for entry in &page.entries {
        assert!(!entry.is_folder, "images filter should not return folders");
    }
}

#[test]
fn filter_kind_documents_returns_only_document_files() {
    let page = media(SortKey::Name, true, FilterKind::Documents, false);
    assert_eq!(page.total_count, 3, "media-dir has 3 document files");
    for entry in &page.entries {
        assert!(!entry.is_folder, "documents filter should not return folders");
    }
}

#[test]
fn filter_kind_folders_returns_only_folders() {
    let page = small(SortKey::Name, true, FilterKind::Folders, true);
    assert!(page.total_count >= 2, "small-dir has at least 2 folders");
    for entry in &page.entries {
        assert!(entry.is_folder, "folders filter should only return folders");
    }
}

#[test]
fn filter_kind_files_returns_only_files() {
    let page = small(SortKey::Name, true, FilterKind::Files, true);
    assert!(page.total_count >= 5, "small-dir has at least 5 files");
    for entry in &page.entries {
        assert!(!entry.is_folder, "files filter should only return files");
    }
}

#[test]
fn show_hidden_toggle_affects_count() {
    let page_with = small(SortKey::Name, true, FilterKind::All, true);
    let page_without = small(SortKey::Name, true, FilterKind::All, false);
    assert!(
        page_with.total_count >= page_without.total_count + 1,
        "show_hidden=true should show at least 1 more entry (hidden file), got {} vs {}",
        page_with.total_count,
        page_without.total_count
    );
}

#[test]
fn equal_keys_keep_their_order() {
    let d = "C:\\x";
    let raw = vec![
        entry(d, "b.txt", 10, 5, false, false),
        entry(d, "a.txt", 10, 5, false, false),
        entry(d, "c.txt", 10, 5, false, false),
    ];
    let page = list_directory(d.to_string(), &raw, SortKey::Size, true, FilterKind::All, false, 0);
    let names: Vec<&str> = page.entries.iter().map(|e| e.name.as_str()).collect();
    assert_eq!(names, vec!["b.txt", "a.txt", "c.txt"]);
    let page = list_directory(d.to_string(), &raw, SortKey::Size, false, FilterKind::All, false, 0);
    let names: Vec<&str> = page.entries.iter().map(|e| e.name.as_str()).collect();
    assert_eq!(names, vec!["b.txt", "a.txt", "c.txt"]);
}
