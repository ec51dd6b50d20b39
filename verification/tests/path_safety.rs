use rustfiles::error::ErrorCode;
use rustfiles::path_safety::is_reserved_device_name;
use rustfiles::path_safety::{
    classify_path, guard_destructive_path, guard_test_root_after_reparse_resolution,
    normalize_path, validate_child_name, MetadataProbe, PathClass,
};

fn lexical(path: &str) -> String {
    normalize_path(path, None)
}

fn reserved_message(msg: &str) -> bool {
    msg.to_lowercase().contains("保留") || msg.to_lowercase().contains("reserved")
}

#[test]
fn normalize_path_converts_forward_slashes() {
    let result = lexical("C:/Users/test/file.txt");
    assert!(!result.contains('/'), "should replace / with \\, got: {}", result);
    assert_eq!(result, "C:\\Users\\test\\file.txt");
}

#[test]
fn normalize_path_resolves_dotdot() {
    let result = lexical("C:\\foo\\bar\\..\\baz\\.\\file.txt");
    assert_eq!(result, "C:\\foo\\baz\\file.txt");
}

#[test]
fn normalize_path_preserves_drive_root_trailing_slash() {
    let result = lexical("C:\\");
    assert_eq!(result, "C:\\");
}

#[test]
fn normalize_path_trims_trailing_slash_non_root() {
    let result = lexical("C:\\foo\\bar\\");
    assert_eq!(result, "C:\\foo\\bar");
}

#[test]
fn normalize_path_handles_unc() {
    let result = lexical("\\\\server\\share\\path\\to\\file.txt");
    assert_eq!(result, "\\\\server\\share\\path\\to\\file.txt");
}

#[test]
fn normalize_path_handles_long_path_prefix() {
    let result = lexical("\\\\?\\C:\\very\\long\\path\\file.txt");
    assert_eq!(result, "\\\\?\\C:\\very\\long\\path\\file.txt");
}

#[test]
fn normalize_path_uses_canonical_form_without_verbatim_prefix() {
    assert_eq!(normalize_path("C:\\a\\..\\b", Some("\\\\?\\C:\\b")), "C:\\b");
    assert_eq!(normalize_path("\\\\?\\C:\\b", Some("\\\\?\\C:\\b")), "\\\\?\\C:\\b");
    assert_eq!(normalize_path("", Some("C:\\x")), "");
}

#[test]
fn classify_path_detects_unc_as_uncpath() {
    let path = "\\\\server\\share\\folder";
    let class = classify_path(path, &lexical(path), None, MetadataProbe::Failed);
    assert!(matches!(class, PathClass::UncPath), "expected UncPath, got {:?}", class);
}

#[test]
fn classify_path_local_file_for_existing() {
    let path = "C:\\work\\src-tauri\\Cargo.toml";
    let probe = MetadataProbe::Found { attributes: 0x20, is_symlink: false, link_target: None };
    let class = classify_path(path, &lexical(path), Some("C:\\"), probe);
    assert!(
        matches!(class, PathClass::LocalFile | PathClass::ReparsePoint { .. }),
        "expected LocalFile or ReparsePoint, got {:?}",
        class
    );
}

#[test]
fn classify_path_not_found_for_missing() {
    let path = "C:\\__nonexistent_rustfiles_test_dir__\\file.txt";
    let class = classify_path(path, &lexical(path), Some("C:\\"), MetadataProbe::NotFound);
    assert!(
        matches!(class, PathClass::NotFound | PathClass::Unknown),
        "expected NotFound or Unknown for missing path, got {:?}",
        class
    );
}

#[test]
fn classify_path_detects_subst_drive() {
    // W: resolves to a folder on another drive
    let path = "W:\\test_file.txt";
    let probe = MetadataProbe::Found { attributes: 0x20, is_symlink: false, link_target: None };
    let class = classify_path(path, &lexical(path), Some("C:\\Users\\me\\AppData\\Local\\Temp\\subst_target"), probe);
    assert!(matches!(class, PathClass::SubstDrive), "got {:?}", class);
    let root_class = classify_path("W:\\", &lexical("W:\\"), Some("C:\\subst_target"), MetadataProbe::Failed);
    assert!(matches!(root_class, PathClass::SubstDrive), "got {:?}", root_class);
    // a drive whose root resolves to itself is not substituted
    let plain = classify_path("C:\\x", &lexical("C:\\x"), Some("C:\\"), MetadataProbe::NotFound);
    assert!(matches!(plain, PathClass::NotFound), "got {:?}", plain);
}

#[test]
fn classify_path_reports_reparse_points() {
    let probe = MetadataProbe::Found {
        attributes: 0x400,
        is_symlink: true,
        link_target: Some("D:\\elsewhere".to_string()),
    };
    let class = classify_path("C:\\link", "C:\\link", Some("C:\\"), probe);
    match class {
        PathClass::ReparsePoint { is_symlink, target } => {
            assert!(is_symlink);
            assert_eq!(target.as_deref(), Some("D:\\elsewhere"));
        }
        other => panic!("expected ReparsePoint, got {:?}", other),
    }
}

#[test]
fn validate_child_name_rejects_reserved_con() {
    let err = validate_child_name("CON").unwrap_err();
    assert!(reserved_message(&err.message), "expected reserved name error, got: {}", err.message);
}

#[test]
fn validate_child_name_rejects_reserved_con_with_extension() {
    let err = validate_child_name("CON.txt").unwrap_err();
    assert!(reserved_message(&err.message), "expected reserved name error, got: {}", err.message);
}

#[test]
fn validate_child_name_rejects_reserved_case_insensitive() {
    let err = validate_child_name("con").unwrap_err();
    assert!(reserved_message(&err.message), "should reject lowercase reserved name, got: {}", err.message);
}

#[test]
fn validate_child_name_rejects_reserved_prn() {
    assert!(validate_child_name("PRN").is_err());
}

#[test]
fn validate_child_name_rejects_reserved_aux() {
    assert!(validate_child_name("AUX").is_err());
}

#[test]
fn validate_child_name_rejects_reserved_nul() {
    assert!(validate_child_name("NUL").is_err());
}

#[test]
fn validate_child_name_rejects_reserved_com1() {
    assert!(validate_child_name("COM1").is_err());
}

#[test]
fn validate_child_name_rejects_reserved_com9() {
    assert!(validate_child_name("COM9.txt").is_err());
}

#[test]
fn validate_child_name_rejects_reserved_lpt1() {
    assert!(validate_child_name("LPT1").is_err());
}

#[test]
fn validate_child_name_rejects_reserved_lpt9() {
    assert!(validate_child_name("LPT9.dat").is_err());
}

#[test]
fn validate_child_name_rejects_illegal_char_less_than() {
    assert!(validate_child_name("file<name.txt").is_err());
}

#[test]
fn validate_child_name_rejects_illegal_char_greater_than() {
    assert!(validate_child_name("file>name.txt").is_err());
}

#[test]
fn validate_child_name_rejects_illegal_char_colon() {
    assert!(validate_child_name("file:name.txt").is_err());
}

#[test]
fn validate_child_name_rejects_illegal_char_double_quote() {
    assert!(validate_child_name("file\"name.txt").is_err());
}

#[test]
fn validate_child_name_rejects_illegal_char_pipe() {
    assert!(validate_child_name("file|name.txt").is_err());
}

#[test]
fn validate_child_name_rejects_illegal_char_question() {
    assert!(validate_child_name("file?name.txt").is_err());
}

#[test]
fn validate_child_name_rejects_illegal_char_asterisk() {
    assert!(validate_child_name("file*name.txt").is_err());
}

#[test]
fn validate_child_name_rejects_trailing_space() {
    assert!(validate_child_name("filename ").is_err());
}

#[test]
fn validate_child_name_rejects_trailing_dot() {
    assert!(validate_child_name("filename.").is_err());
}

#[test]
fn validate_child_name_rejects_trailing_space_and_dot() {
    assert!(validate_child_name("file .").is_err());
}

#[test]
fn validate_child_name_rejects_empty_name() {
    assert!(validate_child_name("").is_err());
}

#[test]
fn validate_child_name_rejects_whitespace_only() {
    assert!(validate_child_name("   ").is_err());
}

#[test]
fn validate_child_name_rejects_name_too_long_255() {
    let long_name = "a".repeat(256);
    assert!(validate_child_name(&long_name).is_err(), "should reject name > 255 chars");
}

#[test]
fn validate_child_name_accepts_valid_name() {
    assert!(validate_child_name("valid_file.txt").is_ok());
    assert!(validate_child_name("report 2026-05-22 final.docx").is_ok());
    assert!(validate_child_name("名前_имя_이름.txt").is_ok());
}

#[test]
fn validate_child_name_accepts_max_length_255() {
    let valid_name = "a".repeat(255);
    assert!(validate_child_name(&valid_name).is_ok());
}

#[test]
fn validate_child_name_counts_characters_not_bytes() {
    let wide = "文".repeat(255);
    assert_eq!(wide.len(), 765);
    assert!(validate_child_name(&wide).is_ok());
    let too_wide = "文".repeat(256);
    let err = validate_child_name(&too_wide).unwrap_err();
    assert_eq!(err.message, "文件名过长（超过 255 字符）");
}

#[test]
fn guard_destructive_path_allows_inside_test_root() {
    let test_root = "C:\\work\\rustfiles\\src-tauri";
    let target = "C:\\work\\rustfiles\\src-tauri\\Cargo.toml";
    let result = guard_destructive_path(target, &PathClass::LocalFile, &lexical(target), Some(&lexical(test_root)));
    assert!(result.is_ok(), "should allow path inside test root: {:?}", result.err());
}

#[test]
fn guard_destructive_path_rejects_outside_test_root() {
    let test_root = "C:\\work\\rustfiles\\src-tauri\\.tmp\\fixtures";
    let target = "C:\\Windows\\System32\\fake_file.test";
    let result = guard_destructive_path(target, &PathClass::NotFound, &lexical(target), Some(&lexical(test_root)));
    assert!(result.is_err(), "should reject path outside test root");
    let err = result.unwrap_err();
    assert_eq!(err.code, ErrorCode::TestRootEscape);
}

#[test]
fn guard_destructive_path_rejects_empty_path() {
    let result = guard_destructive_path("", &PathClass::Unknown, "", None);
    assert!(result.is_err());
    assert_eq!(result.unwrap_err().code, ErrorCode::PathNotFound);
}

#[test]
fn guard_destructive_path_rejects_unc_and_reparse_points() {
    let unc = guard_destructive_path("\\\\s\\share\\x", &PathClass::UncPath, "\\\\s\\share\\x", None).unwrap_err();
    assert_eq!(unc.code, ErrorCode::PermissionDenied);
    let link = PathClass::ReparsePoint { is_symlink: false, target: None };
    let rp = guard_destructive_path("C:\\j", &link, "C:\\j", None).unwrap_err();
    assert_eq!(rp.code, ErrorCode::PermissionDenied);
}

#[test]
fn guard_destructive_path_refuses_sibling_with_common_prefix() {
    let root = "C:\\root";
    let target = "C:\\rootsibling\\file.txt";
    let err = guard_destructive_path(target, &PathClass::LocalFile, target, Some(root)).unwrap_err();
    assert_eq!(err.code, ErrorCode::TestRootEscape);
    assert!(guard_destructive_path(root, &PathClass::LocalFile, root, Some(root)).is_ok());
}

#[test]
fn guard_test_root_after_reparse_inside_root() {
    let test_root = "C:\\work\\rustfiles\\src-tauri";
    let resolved = "C:\\work\\rustfiles\\src-tauri\\Cargo.toml";
    let result = guard_test_root_after_reparse_resolution(resolved, test_root, &lexical(resolved), &lexical(test_root));
    assert!(result.is_ok(), "should allow resolved path inside test root");
}

#[test]
fn guard_test_root_after_reparse_escapes_root() {
    let test_root = "C:\\rustfiles_test_root\\";
    let resolved = "C:\\Windows\\System32\\some_file.txt";
    let result = guard_test_root_after_reparse_resolution(resolved, test_root, &lexical(resolved), &lexical(test_root));
    assert!(result.is_err(), "should reject path escaping test root");
    let err = result.unwrap_err();
    assert!(matches!(err.code, ErrorCode::TestRootEscape), "expected TestRootEscape, got {:?}", err.code);
}

#[test]
fn long_path_detection_beyond_260() {
    let mut long_path = String::from("C:\\");
    while long_path.len() < 270 {
        long_path.push_str("verylongdirname\\");
    }
    long_path.push_str("file.txt");
    let result = lexical(&long_path);
    assert!(result.len() > 260, "long path should be preserved");
}

#[test]
fn long_path_with_prefix_is_preserved() {
    let input = "\\\\?\\C:\\very\\long\\path\\with\\many\\directories\\and\\a\\file\\that\\is\\deeper\\than\\usual\\administrative\\tools\\localization_data\\en\\resources.dll";
    let result = lexical(input);
    assert!(result.starts_with("\\\\?\\"), "long path prefix should be preserved");
}

#[test]
fn reserved_device_names_are_exact_upper_case_stems() {
    assert!(is_reserved_device_name(&"COM1".to_string()));
    assert!(is_reserved_device_name(&"LPT9".to_string()));
    assert!(!is_reserved_device_name(&"COM10".to_string()));
    assert!(!is_reserved_device_name(&"con".to_string()));
    assert!(!is_reserved_device_name(&"CONSOLE".to_string()));
}
