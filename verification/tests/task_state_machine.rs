use rustfiles::error::ErrorCode;
use rustfiles::tasks::{apply_task_transition, TaskSummary};
use rustfiles::types::TaskStatus;

fn sample_summary(status: TaskStatus) -> TaskSummary {
    TaskSummary {
        id: "task-1".to_string(),
        kind: "copy_items".to_string(),
        status,
        message: Some("Ready".to_string()),
        completed_items: vec!["a.txt".to_string()],
        incomplete_items: vec!["b.txt".to_string()],
        unknown_items: vec!["c.txt".to_string()],
        can_cancel: true,
    }
}

#[test]
fn allows_valid_task_transitions() {
    let queued = sample_summary(TaskStatus::Queued);
    let validating = apply_task_transition(&queued, TaskStatus::Validating).expect("queued -> validating");
    assert_eq!(validating.status, TaskStatus::Validating);

    let running = apply_task_transition(&validating, TaskStatus::Running).expect("validating -> running");
    assert_eq!(running.status, TaskStatus::Running);

    let completed = apply_task_transition(&running, TaskStatus::Completed).expect("running -> completed");
    assert_eq!(completed.status, TaskStatus::Completed);
    assert!(!completed.can_cancel, "terminal tasks must not be cancellable");
}

#[test]
fn rejects_invalid_task_transitions() {
    let completed = sample_summary(TaskStatus::Completed);
    assert!(apply_task_transition(&completed, TaskStatus::Running).is_err(), "completed must not return to running");

    let failed = sample_summary(TaskStatus::Failed);
    assert!(apply_task_transition(&failed, TaskStatus::Queued).is_err(), "failed must not return to queued");
}

#[test]
fn preserves_partial_completion_summary() {
    let running = sample_summary(TaskStatus::Running);
    let partial = apply_task_transition(&running, TaskStatus::PartiallyCompleted).expect("running -> partially_completed");

    assert_eq!(partial.status, TaskStatus::PartiallyCompleted);
    assert_eq!(partial.completed_items, vec!["a.txt".to_string()]);
    assert_eq!(partial.incomplete_items, vec!["b.txt".to_string()]);
    assert_eq!(partial.unknown_items, vec!["c.txt".to_string()]);
}

#[test]
fn transition_error_messages_name_the_states() {
    let completed = sample_summary(TaskStatus::Completed);
    let err = apply_task_transition(&completed, TaskStatus::Running).unwrap_err();
    assert_eq!(err.code, ErrorCode::InternalError);
    assert_eq!(err.message, "终态任务不能再次迁移: task-1 -> Running");

    let queued = sample_summary(TaskStatus::Queued);
    let err = apply_task_transition(&queued, TaskStatus::Completed).unwrap_err();
    assert_eq!(err.message, "非法任务迁移: Queued -> Completed");
}

#[test]
fn same_state_transition_is_a_no_op() {
    let done = sample_summary(TaskStatus::Completed);
    let again = apply_task_transition(&done, TaskStatus::Completed).expect("same state is accepted");
    assert_eq!(again, done);
}

#[test]
fn every_unfinished_state_can_be_cancelled() {
    for s in [
        TaskStatus::Queued,
        TaskStatus::Validating,
        TaskStatus::Running,
        TaskStatus::WaitingForConflictDecision,
    ] {
        let t = apply_task_transition(&sample_summary(s), TaskStatus::Cancelling).expect("cancel");
        assert_eq!(t.status, TaskStatus::Cancelling);
        assert!(t.can_cancel);
    }
    let cancelling = sample_summary(TaskStatus::Cancelling);
    let cancelled = apply_task_transition(&cancelling, TaskStatus::Cancelled).expect("cancelling -> cancelled");
    assert!(!cancelled.can_cancel);
}
