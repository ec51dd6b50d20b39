use rustfiles::drag::{
    effective_drop_type, is_cross_volume, plan_drop_type, DragOpStatus, DragOpType, DragRegistry,
};
use rustfiles::error::ErrorCode;

fn src(name: &str) -> String {
    format!("C:\\rustfiles_test_root\\drag_ops\\{}.txt", name)
}

#[test]
fn create_drag_operation_saves_paths_and_type() {
    let mut reg = DragRegistry::new();
    let sources = vec![src("__test_drag_src1__"), src("__test_drag_src2__")];

    let op_id = reg.create_operation(sources.clone(), "move", "tab-1");
    assert!(!op_id.is_empty(), "operation_id should not be empty");

    let op = reg.get_operation(&op_id);
    assert!(op.is_some(), "operation should exist");
    let op = op.unwrap();
    assert_eq!(op.source_paths, sources);
    assert_eq!(op.drag_type, DragOpType::Move);
    assert_eq!(op.source_tab_id, "tab-1");
    assert!(op.created_at > 0, "created_at should be set");
    assert_eq!(op.status, DragOpStatus::Active);
}

#[test]
fn create_drag_operation_with_copy_type() {
    let mut reg = DragRegistry::new();
    let op_id = reg.create_operation(vec![src("__test_drag_copy__")], "copy", "tab-2");
    let op = reg.get_operation(&op_id).expect("operation should exist");
    assert_eq!(op.drag_type, DragOpType::Copy);
}

#[test]
fn create_drag_operation_defaults_to_move() {
    let mut reg = DragRegistry::new();
    let op_id = reg.create_operation(vec![src("__test_drag_default__")], "unknown", "tab-1");
    let op = reg.get_operation(&op_id).expect("operation should exist");
    assert_eq!(op.drag_type, DragOpType::Move);
}

#[test]
fn drag_ops_get_operation_nonexistent_returns_none() {
    let reg = DragRegistry::new();
    let op = reg.get_operation("nonexistent-op-id");
    assert!(op.is_none(), "nonexistent operation should return None");
}

#[test]
fn drag_ops_delete_operation_removes_from_registry() {
    let mut reg = DragRegistry::new();
    let op_id = reg.create_operation(vec![src("__test_drag_del__")], "move", "tab-1");

    assert!(reg.get_operation(&op_id).is_some());
    reg.delete_operation(&op_id);
    assert!(reg.get_operation(&op_id).is_none());
}

#[test]
fn mark_dropped_changes_status() {
    let mut reg = DragRegistry::new();
    let op_id = reg.create_operation(vec![src("__test_drag_dropped__")], "move", "tab-1");

    reg.mark_dropped(&op_id);
    let op = reg.get_operation(&op_id).expect("operation should exist");
    assert_eq!(op.status, DragOpStatus::Dropped);
}

#[test]
fn drag_op_status_migration_active_to_dropped() {
    let mut reg = DragRegistry::new();
    let op_id = reg.create_operation(vec![src("__test_drag_migrate__")], "copy", "tab-1");

    let op = reg.get_operation(&op_id).expect("operation should exist");
    assert_eq!(op.status, DragOpStatus::Active);

    reg.mark_dropped(&op_id);
    let op = reg.get_operation(&op_id).expect("operation should exist");
    assert_eq!(op.status, DragOpStatus::Dropped);
}

#[test]
fn drag_op_dropped_twice_is_idempotent() {
    let mut reg = DragRegistry::new();
    let op_id = reg.create_operation(vec![src("__test_drag_double__")], "move", "tab-1");

    reg.mark_dropped(&op_id);
    reg.mark_dropped(&op_id);
    let op = reg.get_operation(&op_id).expect("operation should exist");
    assert_eq!(op.status, DragOpStatus::Dropped);
}

#[test]
fn delete_operation_after_dropped_succeeds() {
    let mut reg = DragRegistry::new();
    let op_id = reg.create_operation(vec![src("__test_drag_del_after__")], "move", "tab-1");

    reg.mark_dropped(&op_id);
    assert!(reg.get_operation(&op_id).is_some());

    reg.delete_operation(&op_id);
    assert!(reg.get_operation(&op_id).is_none());
}

#[test]
fn drag_ids_follow_the_clock_and_counter() {
    let mut reg = DragRegistry::new();
    let a = reg.create_operation_at(vec![src("a")], "move", "tab-1", 42);
    let b = reg.create_operation_at(vec![src("b")], "move", "tab-1", 43);
    assert_eq!(a, "drag-42-1");
    assert_eq!(b, "drag-43-2");
}

#[test]
fn new_drag_ids_are_fresh_at_a_fixed_clock() {
    let mut reg = DragRegistry::new();
    let mut ids: Vec<String> = Vec::new();
    for i in 0..12 {
        let id = reg.create_operation_at(vec![src("s")], "move", &format!("tab-{}", i), 9);
        assert!(!ids.contains(&id), "id {} was already registered", id);
        ids.push(id);
    }
    assert_eq!(reg.list_operations().len(), 12);
    reg.mark_dropped(&ids[3]);
    let again = reg.create_operation_at(vec![src("s")], "copy", "tab-x", 9);
    assert_eq!(again, "drag-9-13");
    assert_eq!(reg.get_operation(&ids[0]).unwrap().source_tab_id, "tab-0");
}

#[test]
fn drop_checks_refuse_unknown_and_dropped_operations() {
    let mut reg = DragRegistry::new();
    let err = reg.check_drop("nope").unwrap_err();
    assert_eq!(err.code, ErrorCode::PathNotFound);
    assert_eq!(err.message, "拖拽操作不存在或已过期");

    let op_id = reg.create_operation(vec![src("x")], "move", "tab-1");
    assert!(reg.check_drop(&op_id).is_ok());
    reg.mark_dropped(&op_id);
    let err = reg.check_drop(&op_id).unwrap_err();
    assert_eq!(err.code, ErrorCode::InternalError);
    assert_eq!(err.message, "此拖拽操作已被使用，不能再次释放");
}

#[test]
fn cross_volume_compares_leading_components() {
    assert!(is_cross_volume("C:\\a\\b.txt", "D:\\target"));
    assert!(!is_cross_volume("C:\\a\\b.txt", "C:\\target"));
    assert!(!is_cross_volume("c:\\a", "C:\\b"));
    assert!(!is_cross_volume("C:/a", "C:\\b"));
    assert!(is_cross_volume("\\\\server\\share\\a", "\\\\server\\other\\b"));
    assert!(!is_cross_volume("\\\\server\\share\\a", "\\\\server\\share\\b"));
    assert!(is_cross_volume("\\\\server\\share\\a", "C:\\b"));
    assert!(!is_cross_volume("\\a", "\\b"));
    assert!(!is_cross_volume("", ""));
}

#[test]
fn drop_type_prefers_request_then_volume_then_drag_type() {
    assert_eq!(effective_drop_type(Some("copy"), false, DragOpType::Move), DragOpType::Copy);
    assert_eq!(effective_drop_type(Some("move"), true, DragOpType::Copy), DragOpType::Move);
    assert_eq!(effective_drop_type(Some("other"), true, DragOpType::Move), DragOpType::Copy);
    assert_eq!(effective_drop_type(None, true, DragOpType::Move), DragOpType::Copy);
    assert_eq!(effective_drop_type(None, false, DragOpType::Move), DragOpType::Move);
    assert_eq!(effective_drop_type(None, false, DragOpType::Copy), DragOpType::Copy);

    let mut reg = DragRegistry::new();
    let id = reg.create_operation(vec!["C:\\data\\a.txt".to_string()], "move", "tab-1");
    let op = reg.check_drop(&id).unwrap();
    assert_eq!(plan_drop_type(&op, "D:\\backup", None), DragOpType::Copy);
    assert_eq!(plan_drop_type(&op, "C:\\other", None), DragOpType::Move);
    assert_eq!(plan_drop_type(&op, "D:\\backup", Some("move")), DragOpType::Move);
}
