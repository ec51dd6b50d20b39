use rustfiles::error::ErrorCode;
use rustfiles::system::{
    default_app_error, drive_info, drive_letters, missing_path_error, properties_error,
    recycle_bin_error, shell_execute_failed, sidebar_roots, terminal_error,
};

#[test]
fn recycle_bin_nonexistent_path_returns_path_not_found() {
    let err = missing_path_error("C:\\__rustfiles_missing__\\file.txt");
    assert_eq!(err.code, ErrorCode::PathNotFound);
    assert_eq!(err.message, "路径不存在: C:\\__rustfiles_missing__\\file.txt");
}

#[test]
fn shell_errors_carry_the_returned_code() {
    let e = recycle_bin_error(-2);
    assert_eq!(e.code, ErrorCode::RecycleBinUnavailable);
    assert_eq!(e.message, "回收站操作失败 (Win32 error -2)");
    let e = default_app_error(2);
    assert_eq!(e.code, ErrorCode::DefaultAppOpenFailed);
    assert_eq!(e.message, "默认应用打开失败 (ShellExecute returned 2)");
    let e = properties_error(31);
    assert_eq!(e.code, ErrorCode::PropertiesOpenFailed);
    assert_eq!(e.message, "属性窗口打开失败 (ShellExecute returned 31)");
    let e = terminal_error();
    assert_eq!(e.code, ErrorCode::TerminalUnavailable);
    assert_eq!(e.message, "无法打开终端窗口");
    assert!(shell_execute_failed(32));
    assert!(!shell_execute_failed(33));
    assert!(shell_execute_failed(-1));
}

#[test]
fn get_drives_each_drive_has_name_and_path() {
    // bits for A:, C: and Z:
    let letters = drive_letters(0b1 | 0b100 | (1 << 25)).expect("drives");
    assert_eq!(letters, vec!['A', 'C', 'Z']);
    for l in letters {
        let d = drive_info(l, 10, 20);
        assert!(!d.name.is_empty());
        assert!(!d.path.is_empty());
        assert_eq!(d.path, format!("{}:\\", l));
        assert_eq!(d.name, format!("{}: 本地磁盘", l));
        assert_eq!(d.available_space, 10);
        assert_eq!(d.total_space, 20);
    }
}

#[test]
fn empty_drive_mask_is_an_error() {
    let err = drive_letters(0).unwrap_err();
    assert_eq!(err.code, ErrorCode::InternalError);
    assert_eq!(err.message, "无法获取驱动器列表");
    // bits above Z are ignored
    assert_eq!(drive_letters(1 << 30).unwrap(), Vec::<char>::new());
}

#[test]
fn get_sidebar_roots_contains_all_required_fields() {
    let roots = sidebar_roots(
        Some("C:\\Users\\me\\Desktop".to_string()),
        None,
        None,
        Some("D:\\Pictures".to_string()),
        None,
        None,
        Some("C:\\Users\\me".to_string()),
    );
    assert_eq!(roots.desktop, "C:\\Users\\me\\Desktop");
    assert_eq!(roots.downloads, joined("C:\\Users\\me", "Downloads"));
    assert_eq!(roots.documents, joined("C:\\Users\\me", "Documents"));
    assert_eq!(roots.pictures, "D:\\Pictures");
    assert_eq!(roots.videos, joined("C:\\Users\\me", "Videos"));
    assert_eq!(roots.music, joined("C:\\Users\\me", "Music"));
    assert_eq!(roots.this_pc, "此电脑");
    for p in [&roots.desktop, &roots.downloads, &roots.documents, &roots.pictures, &roots.videos, &roots.music] {
        assert!(!p.is_empty());
    }
}

fn joined(base: &str, name: &str) -> String {
    std::path::Path::new(base).join(name).to_string_lossy().into_owned()
}

#[test]
fn sidebar_roots_fall_back_to_drive_root() {
    let roots = sidebar_roots(None, None, None, None, None, None, None);
    assert_eq!(roots.desktop, joined("C:\\", "Desktop"));
    assert_eq!(roots.music, joined("C:\\", "Music"));
    assert!(roots.desktop.starts_with("C:\\") && roots.desktop.ends_with("Desktop"));
    assert!(roots.desktop.len() <= "C:\\Desktop".len() + 1);
    let roots = sidebar_roots(None, None, None, None, None, None, Some("C:\\Users\\me\\".to_string()));
    assert_eq!(roots.videos, joined("C:\\Users\\me\\", "Videos"));
    assert_ne!(roots.videos, "C:\\Users\\me\\");
    let roots = sidebar_roots(None, None, None, None, None, None, Some("D:".to_string()));
    assert_eq!(roots.videos, joined("D:", "Videos"));
    assert!(roots.videos.starts_with("D:") && roots.videos.ends_with("Videos"));
}

#[test]
fn default_app_open_nonexistent_path_returns_path_not_found() {
    let err = missing_path_error("C:\\fixtures\\small-dir\\__no_such_app_open_test__");
    assert_eq!(err.code, ErrorCode::PathNotFound, "expected PathNotFound for missing file, got {:?}", err.code);
}

#[test]
fn terminal_open_nonexistent_path_returns_path_not_found() {
    let err = missing_path_error("C:\\fixtures\\small-dir\\__no_such_terminal_test__");
    assert_eq!(err.code, ErrorCode::PathNotFound, "expected PathNotFound for missing path, got {:?}", err.code);
}

#[test]
fn properties_open_nonexistent_path_returns_path_not_found() {
    let err = missing_path_error("C:\\fixtures\\small-dir\\__no_such_properties_test__");
    assert_eq!(err.code, ErrorCode::PathNotFound, "expected PathNotFound for missing path, got {:?}", err.code);
}

fn known_roots() -> rustfiles::types::SidebarRoots {
    sidebar_roots(
        Some("C:\\Users\\me\\Desktop".to_string()),
        Some("C:\\Users\\me\\Downloads".to_string()),
        Some("D:\\Docs".to_string()),
        Some("C:\\Users\\me\\Pictures".to_string()),
        Some("E:\\Videos".to_string()),
        Some("C:\\Users\\me\\Music".to_string()),
        Some("C:\\Users\\me".to_string()),
    )
}

#[test]
fn get_sidebar_roots_desktop_matches_known_folder_api() {
    assert_eq!(known_roots().desktop, "C:\\Users\\me\\Desktop");
}

#[test]
fn get_sidebar_roots_downloads_matches_known_folder_api() {
    assert_eq!(known_roots().downloads, "C:\\Users\\me\\Downloads");
}

#[test]
fn get_sidebar_roots_documents_matches_known_folder_api() {
    assert_eq!(known_roots().documents, "D:\\Docs");
}

#[test]
fn get_sidebar_roots_pictures_matches_known_folder_api() {
    assert_eq!(known_roots().pictures, "C:\\Users\\me\\Pictures");
}

#[test]
fn get_sidebar_roots_videos_matches_known_folder_api() {
    assert_eq!(known_roots().videos, "E:\\Videos");
}

#[test]
fn get_sidebar_roots_music_matches_known_folder_api() {
    assert_eq!(known_roots().music, "C:\\Users\\me\\Music");
}

#[test]
fn get_drives_returns_at_least_c_drive() {
    let letters = drive_letters(0b1100).expect("drives");
    assert!(!letters.is_empty(), "should have at least one drive");
    let drives: Vec<_> = letters.into_iter().map(|l| drive_info(l, 1, 2)).collect();
    assert!(drives.iter().any(|d| d.path == "C:\\"), "C: drive should be present");
}

#[test]
fn get_drives_system_drive_has_plausible_space() {
    let c = drive_info('C', 50_000_000_000, 250_000_000_000);
    assert!(c.total_space > 0);
    assert!(c.available_space <= c.total_space);
}
