use std::collections::HashSet;

use rustfiles::error::{AppError, ErrorCode};
use rustfiles::runtime::RuntimeGuard;

/// The approved list of desktop commands.
const EXPECTED_COMMANDS: &[&str] = &[
    "list_directory",
    "get_sidebar_roots",
    "get_drives",
    "start_search",
    "cancel_task",
    "create_folder",
    "rename_item",
    "delete_to_recycle_bin",
    "delete_permanently",
    "copy_items",
    "move_items",
    "create_clipboard_operation",
    "paste_clipboard_operation",
    "create_drag_operation",
    "drop_drag_operation",
    "resolve_conflict",
    "get_task_status",
    "request_thumbnails",
    "cancel_thumbnail_requests",
    "report_viewport_state",
    "report_interaction_state",
    "get_settings",
    "update_settings",
    "open_with_default_app",
    "open_terminal",
    "show_properties",
];

/// The commands that need a confirmation token.
const DANGEROUS_COMMANDS: &[&str] = &[
    "delete_permanently",
    "move_items",
    "drop_drag_operation",
    "resolve_conflict",
];

#[test]
fn expected_command_list_has_no_duplicates() {
    let mut seen = HashSet::new();
    for cmd in EXPECTED_COMMANDS {
        assert!(seen.insert(*cmd), "白名单中包含重复 command: '{}'", cmd);
    }
    assert_eq!(seen.len(), EXPECTED_COMMANDS.len());
}

#[test]
fn dangerous_commands_are_subset_of_whitelist() {
    let whitelist: HashSet<&str> = EXPECTED_COMMANDS.iter().copied().collect();
    for cmd in DANGEROUS_COMMANDS {
        assert!(whitelist.contains(*cmd), "危险 command '{}' 不在白名单中", cmd);
    }
}

#[test]
fn dangerous_commands_set_has_no_duplicates() {
    let mut seen = HashSet::new();
    for cmd in DANGEROUS_COMMANDS {
        assert!(seen.insert(*cmd), "危险集合中包含重复 command: '{}'", cmd);
    }
    assert_eq!(seen.len(), DANGEROUS_COMMANDS.len());
}

#[test]
fn dangerous_commands_count_is_exact() {
    assert_eq!(DANGEROUS_COMMANDS.len(), 4);
}

#[test]
fn runtime_guard_rejects_missing_confirmation() {
    let result = RuntimeGuard::check_confirmation(None);
    assert!(result.is_err());
    let err = result.unwrap_err();
    assert_eq!(err.code, ErrorCode::ConfirmationRequired);
}

#[test]
fn runtime_guard_accepts_confirmation_token() {
    let result = RuntimeGuard::check_confirmation(Some("test-token".into()));
    assert!(result.is_ok());
}

#[test]
fn runtime_guard_confirmation_error_is_retryable() {
    let err = AppError::confirmation_required();
    assert!(err.retryable);
    assert_eq!(err.code, ErrorCode::ConfirmationRequired);
    assert_eq!(err.message, "此操作需要确认");
}

#[test]
fn not_implemented_error_is_not_retryable() {
    let err = AppError::not_implemented();
    assert!(!err.retryable);
    assert_eq!(err.code, ErrorCode::NotImplemented);
    assert_eq!(err.message, "此功能尚未实现");
}

#[test]
fn guard_dangerous_operation_configurations() {
    // Neither variable set: production.
    assert!(RuntimeGuard::guard_dangerous_operation(false, None).is_ok());

    // Test mode without a root.
    let err = RuntimeGuard::guard_dangerous_operation(true, None).unwrap_err();
    assert_eq!(err.code, ErrorCode::InternalError);
    assert_eq!(
        err.message,
        "RUSTFILES_TEST_MODE=1 但 RUSTFILES_TEST_ROOT 未设置，测试环境配置不完整"
    );
    assert!(!err.retryable);

    // A root without test mode.
    let err = RuntimeGuard::guard_dangerous_operation(false, Some("C:\\test")).unwrap_err();
    assert_eq!(err.code, ErrorCode::InternalError);
    assert_eq!(
        err.message,
        "RUSTFILES_TEST_ROOT 已设置但 RUSTFILES_TEST_MODE≠1，测试环境配置矛盾"
    );

    // Both set.
    assert!(RuntimeGuard::guard_dangerous_operation(true, Some("C:\\test")).is_ok());
}

#[test]
fn test_mode_is_on_only_for_one() {
    assert!(RuntimeGuard::is_test_mode(Some("1")));
    assert!(!RuntimeGuard::is_test_mode(Some("0")));
    assert!(!RuntimeGuard::is_test_mode(Some("1 ")));
    assert!(!RuntimeGuard::is_test_mode(Some("")));
    assert!(!RuntimeGuard::is_test_mode(None));
}

#[test]
fn app_error_builders_keep_fields() {
    let e = AppError::new(ErrorCode::FileInUse, "busy".to_string());
    assert_eq!(e.code, ErrorCode::FileInUse);
    assert_eq!(e.message, "busy");
    assert!(!e.retryable);
    assert!(e.refresh_suggestion.is_none());
    let e = e.with_retryable(true).with_refresh("refresh".to_string());
    assert!(e.retryable);
    assert_eq!(e.refresh_suggestion.as_deref(), Some("refresh"));
    assert_eq!(e.message, "busy");
}
