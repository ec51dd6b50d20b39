use rustfiles::clipboard::{ClipOpStatus, ClipOpType, ClipboardRegistry};
use rustfiles::error::{AppError, ErrorCode};
use rustfiles::tasks::{execute_copy_items, CopyResult, FileOpRegistry};
use rustfiles::types::TaskStatus;

fn passing(n: usize) -> Vec<Result<(), AppError>> {
    (0..=n).map(|_| Ok(())).collect()
}

fn src(name: &str) -> String {
    format!("C:\\rustfiles_test_root\\clipboard_ops\\{}.txt", name)
}

#[test]
fn create_clipboard_operation_saves_paths_and_type() {
    let mut reg = ClipboardRegistry::new();
    let sources = vec![src("__test_cb_src1__"), src("__test_cb_src2__")];

    let op_id = reg.create_operation(sources.clone(), "copy", "tab-1");
    assert!(!op_id.is_empty(), "operation_id should not be empty");

    let op = reg.get_operation(&op_id);
    assert!(op.is_some(), "operation should exist");
    let op = op.unwrap();
    assert_eq!(op.source_paths, sources);
    assert_eq!(op.op_type, ClipOpType::Copy);
    assert_eq!(op.source_tab_id, "tab-1");
    assert!(op.created_at > 0, "created_at should be set");
    assert_eq!(op.status, ClipOpStatus::Active);
}

#[test]
fn create_clipboard_operation_with_cut_type() {
    let mut reg = ClipboardRegistry::new();
    let sources = vec![src("__test_cb_src_cut__")];

    let op_id = reg.create_operation(sources.clone(), "cut", "tab-2");
    let op = reg.get_operation(&op_id).expect("operation should exist");
    assert_eq!(op.op_type, ClipOpType::Cut);
}

#[test]
fn clipboard_ops_get_operation_nonexistent_returns_none() {
    let reg = ClipboardRegistry::new();
    let op = reg.get_operation("nonexistent-op-id");
    assert!(op.is_none(), "nonexistent operation should return None");
}

#[test]
fn clipboard_ops_delete_operation_removes_from_registry() {
    let mut reg = ClipboardRegistry::new();
    let op_id = reg.create_operation(vec![src("__test_cb_del__")], "copy", "tab-1");

    assert!(reg.get_operation(&op_id).is_some());
    reg.delete_operation(&op_id);
    assert!(reg.get_operation(&op_id).is_none());
}

#[test]
fn mark_pasted_changes_status() {
    let mut reg = ClipboardRegistry::new();
    let op_id = reg.create_operation(vec![src("__test_cb_pasted__")], "copy", "tab-1");

    reg.mark_pasted(&op_id);
    let op = reg.get_operation(&op_id).expect("operation should exist");
    assert_eq!(op.status, ClipOpStatus::Pasted);
}

#[test]
fn invalidate_operation_changes_status() {
    let mut reg = ClipboardRegistry::new();
    let op_id = reg.create_operation(vec![src("__test_cb_invalid__")], "cut", "tab-1");
    reg.invalidate_operation(&op_id);
    let op = reg.get_operation(&op_id).expect("operation should exist");
    assert_eq!(op.status, ClipOpStatus::Invalidated);
    assert_eq!(op.op_type, ClipOpType::Cut);
}

#[test]
fn operation_ids_follow_the_clock_and_counter() {
    let mut reg = ClipboardRegistry::new();
    let a = reg.create_operation_at(vec![src("a")], "copy", "tab-1", 1700000000123);
    let b = reg.create_operation_at(vec![src("b")], "cut", "tab-1", 1700000000123);
    assert_eq!(a, "clip-1700000000123-1");
    assert_eq!(b, "clip-1700000000123-2");
    let op = reg.get_operation(&a).unwrap();
    assert_eq!(op.created_at, 1700000000123);
    assert_eq!(reg.list_operations().len(), 2);
}

#[test]
fn new_operation_ids_are_fresh_at_a_fixed_clock() {
    let mut reg = ClipboardRegistry::new();
    let mut ids: Vec<String> = Vec::new();
    for i in 0..12 {
        let id = reg.create_operation_at(vec![src("s")], "copy", &format!("tab-{}", i), 7);
        assert!(reg.get_operation(&id).is_some());
        assert!(!ids.contains(&id), "id {} was already registered", id);
        ids.push(id);
    }
    reg.delete_operation(&ids[0]);
    let again = reg.create_operation_at(vec![src("s")], "copy", "tab-x", 7);
    assert_eq!(again, "clip-7-13");
    assert_eq!(reg.list_operations().len(), 12);
    assert_eq!(reg.get_operation(&ids[11]).unwrap().source_tab_id, "tab-11");
}

#[test]
fn other_operations_are_untouched_by_delete_and_mark() {
    let mut reg = ClipboardRegistry::new();
    let a = reg.create_operation(vec![src("a")], "copy", "tab-1");
    let b = reg.create_operation(vec![src("b")], "copy", "tab-1");
    reg.mark_pasted(&a);
    assert_eq!(reg.get_operation(&b).unwrap().status, ClipOpStatus::Active);
    reg.delete_operation(&a);
    assert!(reg.get_operation(&a).is_none());
    assert_eq!(reg.get_operation(&b).unwrap().source_paths, vec![src("b")]);
    // deleting an unknown id changes nothing
    reg.delete_operation("clip-0-0");
    assert_eq!(reg.list_operations().len(), 1);
}

#[test]
fn paste_nonexistent_operation_id_fails() {
    let reg = ClipboardRegistry::new();
    let op = reg.get_operation("nonexistent");
    assert!(op.is_none(), "nonexistent operation should not be found");
    let err = reg.check_paste("nonexistent", Some("token".into())).unwrap_err();
    assert_eq!(err.code, ErrorCode::PathNotFound);
    assert_eq!(err.message, "剪贴板操作不存在或已过期");
}

#[test]
fn paste_twice_is_rejected() {
    let mut reg = ClipboardRegistry::new();
    let mut files = FileOpRegistry::new();
    let op_id = reg.create_operation(vec![src("__test_double_paste__")], "copy", "tab-1");

    // first paste
    let op = reg.check_paste(&op_id, None).expect("first paste should be allowed");
    let result1 = execute_copy_items(
        &mut files,
        &op.source_paths,
        "C:\\rustfiles_test_root\\target1",
        &passing(op.source_paths.len()),
        &vec![CopyResult::Copied]);
    assert!(result1.is_ok(), "first paste should succeed");
    reg.mark_pasted(&op_id);

    let op_after = reg.get_operation(&op_id).expect("operation should still exist");
    assert_eq!(op_after.status, ClipOpStatus::Pasted, "operation should be Pasted after first paste");

    // second paste is refused
    let err = reg.check_paste(&op_id, None).unwrap_err();
    assert_eq!(err.code, ErrorCode::InternalError);
    assert_eq!(err.message, "此剪贴板操作已被使用或已失效，不能再次粘贴");
}

#[test]
fn cut_paste_needs_confirmation() {
    let mut reg = ClipboardRegistry::new();
    let op_id = reg.create_operation(vec![src("cut_me")], "cut", "tab-1");
    let err = reg.check_paste(&op_id, None).unwrap_err();
    assert_eq!(err.code, ErrorCode::ConfirmationRequired);
    assert!(err.retryable);
    let op = reg.check_paste(&op_id, Some("pre-confirmed".into())).expect("confirmed cut");
    assert_eq!(op.op_type, ClipOpType::Cut);
}

#[test]
fn execute_copy_items_single_file() {
    let mut files = FileOpRegistry::new();
    let sources = vec![src("single")];
    let id = execute_copy_items(&mut files, &sources, "C:\\t", &passing(sources.len()), &vec![CopyResult::Copied]).expect("copy");
    let task = files.get_file_op_task_status(id.as_str()).expect("task");
    assert_eq!(task.status, TaskStatus::Completed);
    assert_eq!(task.progress_current, 1);
    assert_eq!(task.progress_total, 1);
    assert_eq!(task.source, sources[0]);
    assert_eq!(task.target.as_deref(), Some("C:\\t"));
}

#[test]
fn execute_copy_items_source_not_found_fails() {
    let mut files = FileOpRegistry::new();
    let sources = vec![src("missing")];
    let err = execute_copy_items(&mut files, &sources, "C:\\t", &passing(sources.len()), &vec![CopyResult::Missing]).unwrap_err();
    assert_eq!(err.code, ErrorCode::PathNotFound);
    assert_eq!(err.message, "所有源路径复制失败");
}

#[test]
fn execute_copy_items_target_exists_fails_with_its_code() {
    let mut files = FileOpRegistry::new();
    let sources = vec![src("dup")];
    let err = execute_copy_items(
        &mut files,
        &sources,
        "C:\\t",
        &passing(sources.len()),
        &vec![CopyResult::Failed(ErrorCode::TargetAlreadyExists)])
    .unwrap_err();
    assert_eq!(err.code, ErrorCode::TargetAlreadyExists);
}

#[test]
fn execute_copy_items_partial_failure_is_partially_completed() {
    let mut files = FileOpRegistry::new();
    let sources = vec![src("ok"), src("missing")];
    let id = execute_copy_items(
        &mut files,
        &sources,
        "C:\\t",
        &passing(sources.len()),
        &vec![CopyResult::Copied, CopyResult::Missing])
    .expect("partial copy returns ok");
    let task = files.get_file_op_task_status(id.as_str()).expect("task");
    assert_eq!(task.status, TaskStatus::PartiallyCompleted);
    assert_eq!(task.progress_current, 1);
    assert_eq!(task.progress_total, 2);
}

#[test]
fn execute_copy_items_all_fail_uses_first_error() {
    let mut files = FileOpRegistry::new();
    let sources = vec![src("a"), src("b")];
    let err = execute_copy_items(
        &mut files,
        &sources,
        "C:\\t",
        &passing(sources.len()),
        &vec![CopyResult::Failed(ErrorCode::InternalError), CopyResult::Missing])
    .unwrap_err();
    assert_eq!(err.code, ErrorCode::InternalError);
}

#[test]
fn execute_copy_items_without_sources_completes() {
    let mut files = FileOpRegistry::new();
    let id = execute_copy_items(&mut files, &vec![], "C:\\t", &passing(0), &vec![]).expect("nothing to copy");
    let task = files.get_file_op_task_status(id.as_str()).expect("task");
    assert_eq!(task.status, TaskStatus::Completed);
    assert_eq!(task.source, "multiple");
    assert_eq!(task.progress_total, 0);
}

#[test]
fn move_keeps_sources_unless_copy_completed() {
    let mut files = FileOpRegistry::new();
    let sources = vec![src("ok"), src("missing")];
    let id = execute_copy_items(
        &mut files,
        &sources,
        "C:\\t",
        &passing(sources.len()),
        &vec![CopyResult::Copied, CopyResult::Missing])
    .unwrap();
    assert!(!files.copy_succeeded(&id), "a partial copy must not delete sources");

    let id2 = execute_copy_items(&mut files, &vec![src("x")], "C:\\t", &passing(1), &vec![CopyResult::Copied]).unwrap();
    assert!(files.copy_succeeded(&id2));
    files.finish_move(&id2, 2);
    let task = files.get_file_op_task_status(id2.as_str()).unwrap();
    assert_eq!(task.status, TaskStatus::PartiallyCompleted);
    assert_eq!(task.error_message.as_deref(), Some("复制成功但部分源文件删除失败（2 项）"));

    let id3 = execute_copy_items(&mut files, &vec![src("y")], "C:\\t", &passing(1), &vec![CopyResult::Copied]).unwrap();
    files.finish_move(&id3, 0);
    assert_eq!(files.get_file_op_task_status(id3.as_str()).unwrap().status, TaskStatus::Completed);
}

#[test]
fn move_counts_the_sources_it_could_not_delete() {
    let mut files = FileOpRegistry::new();
    let id = execute_copy_items(
        &mut files,
        &vec![src("a"), src("b"), src("c")],
        "C:\\t",
        &passing(3),
        &vec![CopyResult::Copied, CopyResult::Copied, CopyResult::Copied])
    .unwrap();
    files.finish_move_deletions(&id, &vec![false, true, false]);
    let task = files.get_file_op_task_status(id.as_str()).unwrap();
    assert_eq!(task.status, TaskStatus::PartiallyCompleted);
    assert_eq!(task.error_message.as_deref(), Some("复制成功但部分源文件删除失败（2 项）"));

    let id2 = execute_copy_items(&mut files, &vec![src("d")], "C:\\t", &passing(1), &vec![CopyResult::Copied]).unwrap();
    files.finish_move_deletions(&id2, &vec![true]);
    let task = files.get_file_op_task_status(id2.as_str()).unwrap();
    assert_eq!(task.status, TaskStatus::Completed);
    assert_eq!(task.error_message, None);
}

#[test]
fn file_task_ids_are_fresh_at_a_fixed_clock() {
    let mut files = FileOpRegistry::new();
    let mut ids: Vec<String> = Vec::new();
    for i in 0..12 {
        let id = files.begin_task_at(src(&format!("f{}", i)), None, 1, 3);
        assert!(!ids.contains(&id.0), "id {} was already registered", id.0);
        ids.push(id.0);
    }
    assert_eq!(ids[11], "fileop-3-12");
    assert_eq!(files.get_file_op_task_status(&ids[1]).unwrap().source, src("f1"));
    assert_eq!(files.get_file_op_task_status(&ids[11]).unwrap().source, src("f11"));
}

#[test]
fn copy_stops_at_the_first_failing_guard() {
    let mut files = FileOpRegistry::new();
    let sources = vec![src("a"), src("b")];
    let guards = vec![
        Ok(()),
        Err(AppError::new(ErrorCode::PermissionDenied, "b is protected".to_string())),
        Err(AppError::new(ErrorCode::InternalError, "target is protected".to_string())),
    ];
    let err = execute_copy_items(&mut files, &sources, "C:\\t", &guards, &vec![]).unwrap_err();
    assert_eq!(err.code, ErrorCode::PermissionDenied);
    assert_eq!(err.message, "b is protected");
    assert_eq!(rustfiles::tasks::first_guard_failure(&guards).unwrap().message, "b is protected");

    let target_only = vec![Ok(()), Ok(()), Err(AppError::new(ErrorCode::InternalError, "target is protected".to_string()))];
    let err = execute_copy_items(&mut files, &sources, "C:\\t", &target_only, &vec![]).unwrap_err();
    assert_eq!(err.message, "target is protected");

    // nothing was registered: the next task is still the first one
    let id = files.begin_task_at(src("a"), None, 1, 8);
    assert_eq!(id.0, "fileop-8-1");
    assert!(rustfiles::tasks::first_guard_failure(&passing(2)).is_none());
}
