use rustfiles::observability::{
    now_ms, PerformanceLog, FRAME_BUDGET_DEGRADED_KEY, INTERACTION_LATENCY_MS_KEY,
};
use rustfiles::scheduler::{
    is_interaction_epoch_stale, priority_order, priority_snapshot, PriorityKind,
    SchedulerReportKind, SchedulerSignal, SchedulerState, VisibleRange, WorkKind,
};

fn make_signal(
    active_tab_id: &str,
    visible_range: Option<VisibleRange>,
    last_input_at_ms: Option<u64>,
    is_scrolling: bool,
    interaction_epoch: u64,
) -> SchedulerSignal {
    SchedulerSignal {
        active_tab_id: active_tab_id.to_string(),
        visible_range,
        last_input_at_ms,
        is_scrolling,
        interaction_epoch,
    }
}

fn priority_score_for(signal: &SchedulerSignal, work_kind: WorkKind) -> (PriorityKind, u16) {
    priority_snapshot(signal)
        .into_iter()
        .find(|item| item.work_kind == work_kind)
        .map(|item| (item.priority_kind, item.score))
        .expect("expected work kind to be present in snapshot")
}

fn plan() -> Vec<WorkKind> {
    vec![
        WorkKind::ForegroundDirectoryEnumeration,
        WorkKind::VisibleThumbnail,
        WorkKind::ForegroundSearch,
        WorkKind::FileProgress,
        WorkKind::BackgroundRefresh,
        WorkKind::NonVisibleThumbnail,
        WorkKind::BackgroundRecursiveSearch,
    ]
}

#[test]
fn scheduler_default_priority_order_matches_architecture_plan() {
    let signal = make_signal(
        "tab-1",
        Some(VisibleRange { start_index: 0, end_index: 63 }),
        Some(1_000),
        false,
        7,
    );
    let order = priority_order(&signal);
    assert_eq!(order, plan());
    assert_eq!(signal.active_tab_id, "tab-1");
    assert_eq!(signal.visible_range, Some(VisibleRange { start_index: 0, end_index: 63 }));
    assert_eq!(signal.last_input_at_ms, Some(1_000));
    assert!(!signal.is_scrolling);
    assert_eq!(signal.interaction_epoch, 7);
}

#[test]
fn scheduler_scrolling_lowers_non_visible_work_priority() {
    let steady = make_signal(
        "tab-1",
        Some(VisibleRange { start_index: 0, end_index: 63 }),
        Some(1_000),
        false,
        9,
    );
    let scrolling = make_signal(
        "tab-1",
        Some(VisibleRange { start_index: 0, end_index: 63 }),
        Some(1_000),
        true,
        9,
    );

    let (_, steady_non_visible_thumbnail_score) = priority_score_for(&steady, WorkKind::NonVisibleThumbnail);
    let (_, scrolling_non_visible_thumbnail_score) = priority_score_for(&scrolling, WorkKind::NonVisibleThumbnail);
    assert!(
        scrolling_non_visible_thumbnail_score > steady_non_visible_thumbnail_score,
        "scrolling should lower non-visible thumbnail priority"
    );

    let (_, steady_recursive_search_score) = priority_score_for(&steady, WorkKind::BackgroundRecursiveSearch);
    let (_, scrolling_recursive_search_score) = priority_score_for(&scrolling, WorkKind::BackgroundRecursiveSearch);
    assert!(
        scrolling_recursive_search_score > steady_recursive_search_score,
        "scrolling should lower recursive background search priority"
    );
}

#[test]
fn scheduler_interaction_epoch_staleness_is_detectable() {
    assert!(is_interaction_epoch_stale(9, 8));
    assert!(!is_interaction_epoch_stale(8, 8));
    assert!(!is_interaction_epoch_stale(8, 9));
}

#[test]
fn scheduler_viewport_and_interaction_commands_return_structured_ack_and_samples() {
    let mut state = SchedulerState::new();
    let mut log = PerformanceLog::new();
    state.reset_scheduler_state();
    log.clear_performance_samples();

    let viewport_signal = make_signal(
        "tab-2",
        Some(VisibleRange { start_index: 0, end_index: 31 }),
        Some(2_000),
        true,
        11,
    );
    let viewport_ack = state.summarize_viewport_state(&mut log, viewport_signal);
    assert_eq!(viewport_ack.report_kind, SchedulerReportKind::Viewport);
    assert!(viewport_ack.accepted);
    assert_eq!(viewport_ack.active_tab_id, "tab-2");
    assert_eq!(viewport_ack.interaction_epoch, 11);
    assert!(viewport_ack.frame_budget_degraded);
    assert_eq!(viewport_ack.priority_order, plan());
    assert!(viewport_ack.summary.contains("viewport ack"));

    let interaction_signal = make_signal(
        "tab-2",
        Some(VisibleRange { start_index: 0, end_index: 31 }),
        Some(now_ms().saturating_sub(8)),
        false,
        12,
    );
    let interaction_ack = state.summarize_interaction_state(&mut log, interaction_signal);
    assert_eq!(interaction_ack.report_kind, SchedulerReportKind::Interaction);
    assert!(interaction_ack.accepted);
    assert_eq!(interaction_ack.active_tab_id, "tab-2");
    assert_eq!(interaction_ack.interaction_epoch, 12);
    assert_eq!(interaction_ack.priority_order, plan());
    assert!(interaction_ack.interaction_latency_ms.is_some());
    assert!(!interaction_ack.frame_budget_degraded);
    assert!(interaction_ack.summary.contains("interaction ack"));

    let samples = log.drain_performance_samples();
    assert!(
        samples.iter().any(|sample| sample.key == FRAME_BUDGET_DEGRADED_KEY),
        "viewport report should record frame_budget_degraded"
    );
    assert!(
        samples.iter().any(|sample| sample.key == INTERACTION_LATENCY_MS_KEY),
        "interaction report should record interaction_latency_ms"
    );
}

#[test]
fn scheduler_viewport_ack_marks_stale_epoch_for_old_signal() {
    let mut state = SchedulerState::new();
    let mut log = PerformanceLog::new();

    let fresh_interaction = make_signal("tab-3", None, Some(10), false, 9);
    let _ = state.summarize_interaction_state(&mut log, fresh_interaction);

    let stale_viewport = make_signal("tab-3", None, Some(10), false, 8);
    let viewport_ack = state.summarize_viewport_state(&mut log, stale_viewport);
    assert!(viewport_ack.stale_interaction_epoch);
    assert_eq!(viewport_ack.tracked_interaction_epoch, 9);
}

#[test]
fn scheduler_summaries_at_fixed_time_are_exact() {
    let mut state = SchedulerState::new();
    let mut log = PerformanceLog::new();
    let signal = make_signal("tab-9", Some(VisibleRange { start_index: 0, end_index: 127 }), Some(1_000), false, 3);
    let ack = state.summarize_viewport_state_at(&mut log, signal, 1_250);
    assert!(ack.frame_budget_degraded, "128 visible rows exceed the frame budget");
    assert_eq!(ack.interaction_latency_ms, Some(250));
    assert_eq!(ack.summary, "viewport ack for tab 'tab-9' with 7 priority tiers, frame budget degraded");

    let signal = make_signal("tab-9", None, Some(1_000), false, 4);
    let ack = state.summarize_interaction_state_at(&mut log, signal, 1_008);
    assert_eq!(ack.summary, "interaction ack for tab 'tab-9' with latency 8ms");
    let samples = log.drain_performance_samples();
    assert_eq!(samples.len(), 3);
    assert_eq!(samples[1].key, INTERACTION_LATENCY_MS_KEY);
    assert_eq!(samples[1].value_ms, Some(8));
    assert_eq!(samples[2].degraded, Some(false));
}

#[test]
fn visible_span_saturates() {
    assert_eq!(VisibleRange { start_index: 0, end_index: 63 }.span(), 64);
    assert_eq!(VisibleRange { start_index: 10, end_index: 5 }.span(), 1);
    assert_eq!(VisibleRange { start_index: 0, end_index: usize::MAX }.span(), usize::MAX);
    let s = make_signal("t", None, None, false, 0);
    assert_eq!(s.visible_span(), None);
    assert_eq!(s.interaction_latency_ms(100), None);
    let s = make_signal("t", None, Some(200), false, 0);
    assert_eq!(s.interaction_latency_ms(100), Some(0));
}
