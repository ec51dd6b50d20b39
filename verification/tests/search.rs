use std::collections::HashMap;

use rustfiles::error::{ErrorCode, IoErrorKind};
use rustfiles::listing::{entry_from_metadata, list_directory};
use rustfiles::search::{
    cancel_task, error_summary, final_search_status, get_task_snapshot, normalized_query,
    query_matches, snapshot_in_status, snapshot_is_terminal, sort_children, start_search,
    validate_root, RootProbe, SearchRequest, SearchRun, SearchTaskSnapshot, TaskId,
    SEARCH_BATCH_SIZE,
};
use rustfiles::search::{sort_keys, SearchRunOutcome};
use rustfiles::tasks::SearchTaskRegistry;
use rustfiles::types::{FileEntry, FilterKind, SortKey, TaskStatus};

/// A directory tree held in memory: each directory lists its children as
/// (name, is_folder), or fails to be read.
struct Tree {
    dirs: HashMap<String, Result<Vec<(String, bool)>, IoErrorKind>>,
}

impl Tree {
    fn new() -> Tree {
        Tree { dirs: HashMap::new() }
    }

    fn dir(&mut self, path: &str, children: &[(&str, bool)]) {
        self.dirs.insert(
            path.to_string(),
            Ok(children.iter().map(|(n, f)| (n.to_string(), *f)).collect()),
        );
    }

    fn denied(&mut self, path: &str) {
        self.dirs.insert(path.to_string(), Err(IoErrorKind::PermissionDenied));
    }

    fn entries(&self, path: &str) -> Vec<FileEntry> {
        match self.dirs.get(path) {
            Some(Ok(children)) => children
                .iter()
                .map(|(n, f)| entry_from_metadata(format!("{}\\{}", path, n), n.clone(), 1, 1, 0, *f))
                .collect(),
            _ => Vec::new(),
        }
    }
}

/// Runs a search over the tree the way the application's worker does.
fn run_search(tasks: &mut SearchTaskRegistry, task_id: &TaskId, request: &SearchRequest, tree: &Tree) {
    if tasks.is_search_cancel_requested(task_id) {
        tasks.set_search_task_status(task_id, TaskStatus::Cancelled);
        return;
    }
    tasks.set_search_task_status(task_id, TaskStatus::Running);
    let raw = tree.entries(&request.root_path);
    let page = list_directory(request.root_path.clone(), &raw, SortKey::Name, true, FilterKind::All, true, 1_000);
    let mut run = SearchRun::new(task_id.clone(), request, page.snapshot_version);
    let mut cancelled = false;
    if !request.recursive {
        for entry in page.entries {
            if tasks.is_search_cancel_requested(task_id) {
                cancelled = true;
                break;
            }
            if let Some(b) = run.offer_entry(entry) {
                tasks.append_search_batch(task_id, b);
            }
        }
    } else {
        for entry in page.entries {
            if let Some(b) = run.offer_entry(entry) {
                tasks.append_search_batch(task_id, b);
            }
        }
        'dirs: while let Some(dir) = run.next_directory() {
            if tasks.is_search_cancel_requested(task_id) {
                cancelled = true;
                break;
            }
            match tree.dirs.get(&dir) {
                Some(Err(kind)) => {
                    let s = error_summary(dir.clone(), *kind, format!("读取目录失败: {}", dir));
                    if let Some(b) = run.offer_error(s) {
                        tasks.append_search_batch(task_id, b);
                    }
                }
                _ => {
                    let children = tree.entries(&dir);
                    let paths: Vec<String> = children.iter().map(|c| c.path.clone()).collect();
                    let names: Vec<String> = children.iter().map(|c| c.name.clone()).collect();
                    for p in sort_children(&paths, &names) {
                        if tasks.is_search_cancel_requested(task_id) {
                            cancelled = true;
                            break 'dirs;
                        }
                        let child = children.iter().find(|c| c.path == p).unwrap().clone();
                        if let Some(b) = run.offer_entry(child) {
                            tasks.append_search_batch(task_id, b);
                        }
                    }
                }
            }
        }
    }
    if let Some(b) = run.flush() {
        tasks.append_search_batch(task_id, b);
    }
    let outcome = run.outcome(cancelled);
    let status = final_search_status(outcome, tasks.is_search_cancel_requested(task_id));
    tasks.set_search_task_status(task_id, status);
}

fn search_paths(snapshot: &SearchTaskSnapshot) -> Vec<String> {
    snapshot
        .batches
        .iter()
        .flat_map(|batch| batch.matches.iter().map(|entry| entry.path.clone()))
        .collect()
}

fn small_dir_tree() -> Tree {
    let mut t = Tree::new();
    t.dir(
        "C:\\fixtures\\small-dir",
        &[("file_1.txt", false), ("file_2.txt", false), ("file_10.md", false), ("sub", true)],
    );
    t.dir("C:\\fixtures\\small-dir\\sub", &[("file_1.txt", false)]);
    t
}

fn deep_tree() -> Tree {
    let mut t = Tree::new();
    let root = "C:\\fixtures\\deep-tree";
    t.dir(root, &[("level1", true), ("top_file.txt", false)]);
    let mut dir = format!("{}\\level1", root);
    for depth in 1..=5 {
        let next = if depth < 5 { format!("level{}", depth + 1) } else { "leaf_bundle".to_string() };
        let mut children: Vec<(String, bool)> = (0..5).map(|i| (format!("file_{}_{}.txt", depth, i), false)).collect();
        children.push((next.clone(), true));
        let refs: Vec<(&str, bool)> = children.iter().map(|(n, f)| (n.as_str(), *f)).collect();
        t.dir(&dir, &refs);
        dir = format!("{}\\{}", dir, next);
    }
    let leaf: Vec<(String, bool)> = (0..10).map(|i| (format!("leaf_file_{}.txt", i), false)).collect();
    let refs: Vec<(&str, bool)> = leaf.iter().map(|(n, f)| (n.as_str(), *f)).collect();
    t.dir(&dir, &refs);
    t
}

#[test]
fn non_recursive_search_uses_current_directory_snapshot() {
    let tree = small_dir_tree();
    let mut tasks = SearchTaskRegistry::new();
    let root = "C:\\fixtures\\small-dir".to_string();
    let request = SearchRequest {
        root_path: root.clone(),
        query: "file_1.txt".to_string(),
        recursive: false,
        snapshot_version: Some(123),
    };
    let task_id = start_search(&mut tasks, request.clone(), RootProbe::Directory).expect("start_search should succeed");
    run_search(&mut tasks, &task_id, &request, &tree);

    let snapshot = get_task_snapshot(&tasks, &task_id).expect("snapshot");
    assert!(snapshot_is_terminal(&snapshot));
    assert_eq!(snapshot.status, TaskStatus::Completed);
    assert_eq!(snapshot.batches.len(), 1, "non-recursive search should emit one batch");
    let batch = &snapshot.batches[0];
    assert_eq!(batch.task_id, task_id);
    assert_eq!(batch.root_path, root);
    assert_eq!(batch.query, "file_1.txt");
    assert!(!batch.recursive);
    assert_eq!(batch.snapshot_version, Some(123));
    assert!(batch.error_summaries.is_empty());
    let paths = search_paths(&snapshot);
    assert_eq!(paths.len(), 1);
    assert!(paths[0].ends_with("file_1.txt"));
    assert!(paths[0].contains("small-dir"));
}

#[test]
fn recursive_search_walks_deep_tree_and_batches_results() {
    let tree = deep_tree();
    let mut tasks = SearchTaskRegistry::new();
    let request = SearchRequest {
        root_path: "C:\\fixtures\\deep-tree".to_string(),
        query: "file".to_string(),
        recursive: true,
        snapshot_version: Some(456),
    };
    let task_id = start_search(&mut tasks, request.clone(), RootProbe::Directory).expect("start_search should succeed");
    run_search(&mut tasks, &task_id, &request, &tree);

    let snapshot = get_task_snapshot(&tasks, &task_id).expect("snapshot");
    assert_eq!(snapshot.status, TaskStatus::Completed);
    assert!(snapshot.batches.len() >= 2, "recursive search should batch large result sets");
    for b in &snapshot.batches {
        let n = b.matches.len() + b.error_summaries.len();
        assert!(n >= 1 && n <= SEARCH_BATCH_SIZE);
    }
    let paths = search_paths(&snapshot);
    assert!(paths.len() >= 20, "recursive search should find nested files, got {}", paths.len());
    assert_eq!(paths.len(), 1 + 25 + 10);
    assert!(paths.iter().any(|path| path.contains("leaf_bundle")), "recursive search should include deep nested results");
    assert_eq!(snapshot.batches[0].snapshot_version, Some(456));
}

#[test]
fn cancel_recursive_search_stops_background_task() {
    let mut tree = Tree::new();
    let files: Vec<(String, bool)> = (0..10_000).map(|i| (format!("file_{:05}.txt", i), false)).collect();
    let refs: Vec<(&str, bool)> = files.iter().map(|(n, f)| (n.as_str(), *f)).collect();
    tree.dir("C:\\fixtures\\large-10k-dir", &refs);
    let mut tasks = SearchTaskRegistry::new();
    let request = SearchRequest {
        root_path: "C:\\fixtures\\large-10k-dir".to_string(),
        query: "file_".to_string(),
        recursive: true,
        snapshot_version: None,
    };
    let task_id = start_search(&mut tasks, request.clone(), RootProbe::Directory).expect("start_search should succeed");
    let cancel_status = cancel_task(&mut tasks, &task_id).expect("cancel_task should succeed");
    assert!(
        matches!(cancel_status, TaskStatus::Cancelling | TaskStatus::Cancelled | TaskStatus::PartiallyCompleted),
        "cancel_task should return a cancellable or terminal status, got {:?}",
        cancel_status
    );
    run_search(&mut tasks, &task_id, &request, &tree);
    let final_snapshot = get_task_snapshot(&tasks, &task_id).expect("snapshot");
    assert!(
        matches!(final_snapshot.status, TaskStatus::Cancelled | TaskStatus::PartiallyCompleted),
        "cancelled search should finish as cancelled or partially completed, got {:?}",
        final_snapshot.status
    );
    let paths = search_paths(&final_snapshot);
    assert!(paths.len() < 10_000, "cancel should stop the search before all matches are produced");

    // a second cancel of a finished task reports its state and changes nothing
    assert_eq!(cancel_task(&mut tasks, &task_id).unwrap(), final_snapshot.status);
}

#[test]
fn recursive_search_skips_permission_denied_directories_and_reports_error_summary() {
    let mut tree = Tree::new();
    let root = "C:\\fixtures\\permission-cases";
    tree.dir(root, &[("allowed-dir", true), ("no-access-dir", true)]);
    tree.dir(&format!("{}\\allowed-dir", root), &[("sample_ok.txt", false)]);
    tree.denied(&format!("{}\\no-access-dir", root));
    let mut tasks = SearchTaskRegistry::new();
    let request = SearchRequest {
        root_path: root.to_string(),
        query: "sample".to_string(),
        recursive: true,
        snapshot_version: None,
    };
    let task_id = start_search(&mut tasks, request.clone(), RootProbe::Directory).expect("start_search should succeed");
    run_search(&mut tasks, &task_id, &request, &tree);
    let snapshot = get_task_snapshot(&tasks, &task_id).expect("snapshot");
    assert_eq!(snapshot.status, TaskStatus::Completed);
    let paths = search_paths(&snapshot);
    assert!(paths.iter().any(|p| p.ends_with("sample_ok.txt")));
    let errors: Vec<_> = snapshot.batches.iter().flat_map(|b| b.error_summaries.iter()).collect();
    assert_eq!(errors.len(), 1);
    assert!(errors[0].path.ends_with("no-access-dir"));
    assert_eq!(errors[0].error.code, ErrorCode::PermissionDenied);
    assert_eq!(errors[0].error.refresh_suggestion.as_deref(), Some("搜索过程中已跳过不可访问目录"));
}

#[test]
fn search_root_must_be_a_directory() {
    let mut tasks = SearchTaskRegistry::new();
    let request = SearchRequest {
        root_path: "C:\\nope".to_string(),
        query: "x".to_string(),
        recursive: false,
        snapshot_version: None,
    };
    let err = start_search(&mut tasks, request.clone(), RootProbe::Failed { kind: IoErrorKind::NotFound, detail: "gone".into() }).unwrap_err();
    assert_eq!(err.code, ErrorCode::PathNotFound);
    assert_eq!(err.message, "路径不存在: C:\\nope");
    let err = validate_root("C:\\f.txt", RootProbe::NotDirectory).unwrap_err();
    assert_eq!(err.message, "不是目录: C:\\f.txt");
    let err = validate_root("C:\\d", RootProbe::Failed { kind: IoErrorKind::PermissionDenied, detail: "x".into() }).unwrap_err();
    assert_eq!((err.code, err.message.as_str()), (ErrorCode::PermissionDenied, "权限不足: C:\\d"));
    let err = validate_root("C:\\d", RootProbe::Failed { kind: IoErrorKind::Other, detail: "bad".into() }).unwrap_err();
    assert_eq!((err.code, err.message.as_str()), (ErrorCode::InternalError, "读取搜索根失败: bad"));
    assert!(get_task_snapshot(&tasks, &TaskId("search-0-1".into())).is_none());
}

#[test]
fn queries_are_trimmed_lower_case_substrings() {
    assert_eq!(normalized_query("  Report\t"), "report");
    assert_eq!(normalized_query("\u{3000}ABC\u{a0}"), "abc");
    assert_eq!(normalized_query("   "), "");
    let e = FileEntry {
        path: "C:\\x\\Annual_Report.PDF".into(),
        name: "Annual_Report.PDF".into(),
        size: 1,
        modified: 0,
        is_hidden: false,
        is_folder: false,
    };
    assert!(query_matches(&e, "report"));
    assert!(query_matches(&e, ""));
    assert!(query_matches(&e, "annual_report.pdf"));
    assert!(!query_matches(&e, "Report"));
    assert!(!query_matches(&e, "reports"));
}

#[test]
fn final_status_depends_on_cancel_and_output() {
    let done = SearchRunOutcome::Completed { had_matches_or_errors: true };
    let empty = SearchRunOutcome::Completed { had_matches_or_errors: false };
    assert_eq!(final_search_status(done, false), TaskStatus::Completed);
    assert_eq!(final_search_status(empty, false), TaskStatus::Completed);
    assert_eq!(final_search_status(done, true), TaskStatus::PartiallyCompleted);
    assert_eq!(final_search_status(empty, true), TaskStatus::Cancelled);
    assert_eq!(final_search_status(SearchRunOutcome::Cancelled { had_matches_or_errors: true }, true), TaskStatus::PartiallyCompleted);
    assert_eq!(final_search_status(SearchRunOutcome::Cancelled { had_matches_or_errors: false }, true), TaskStatus::Cancelled);
}

#[test]
fn batches_hold_sixteen_items() {
    let request = SearchRequest { root_path: "C:\\r".into(), query: "".into(), recursive: false, snapshot_version: None };
    let mut run = SearchRun::new(TaskId("search-1-1".into()), &request, 77);
    let mut published = Vec::new();
    for i in 0..40 {
        let e = entry_from_metadata(format!("C:\\r\\f{}", i), format!("f{}", i), 1, 1, 0, false);
        if let Some(b) = run.offer_entry(e) {
            published.push(b);
        }
    }
    assert_eq!(published.len(), 2);
    assert!(published.iter().all(|b| b.matches.len() == 16 && b.snapshot_version == Some(77)));
    let last = run.flush().expect("8 left");
    assert_eq!(last.matches.len(), 8);
    assert!(run.flush().is_none());
    assert_eq!(published[0].matches[0].name, "f0");
    assert_eq!(published[1].matches[0].name, "f16");
    assert_eq!(last.matches[7].name, "f39");
}

#[test]
fn children_are_read_by_lower_case_name() {
    let paths = vec!["C:\\d\\b".to_string(), "C:\\d\\A".to_string(), "C:\\d\\c".to_string(), "C:\\d\\a".to_string()];
    let names = vec!["b".to_string(), "A".to_string(), "c".to_string(), "a".to_string()];
    let sorted = sort_children(&paths, &names);
    assert_eq!(sorted, vec!["C:\\d\\A".to_string(), "C:\\d\\a".to_string(), "C:\\d\\b".to_string(), "C:\\d\\c".to_string()]);
}

#[test]
fn task_registry_tracks_status_and_failures() {
    let mut tasks = SearchTaskRegistry::new();
    let request = SearchRequest { root_path: "C:\\r".into(), query: "q".into(), recursive: true, snapshot_version: Some(5) };
    let id = tasks.create_search_task_at(request, 1000);
    assert_eq!(id.as_str(), "search-1000-1");
    assert_eq!(tasks.get_search_task_status(&id), Some(TaskStatus::Queued));
    assert!(!tasks.is_search_cancel_requested(&id));
    assert!(tasks.is_search_cancel_requested(&TaskId("unknown".into())));
    let err = cancel_task(&mut tasks, &TaskId("unknown".into())).unwrap_err();
    assert_eq!(err.code, ErrorCode::InternalError);
    assert_eq!(err.message, "找不到搜索任务: unknown");

    tasks.set_search_task_failed(&id, rustfiles::error::AppError::new(ErrorCode::PathNotFound, "gone".into()));
    let snap = tasks.get_search_task_snapshot(&id).unwrap();
    assert_eq!(snap.status, TaskStatus::Failed);
    assert_eq!(snap.batches.len(), 1);
    assert_eq!(snap.batches[0].error_summaries[0].path, "C:\\r");
    assert_eq!(snap.batches[0].snapshot_version, Some(5));
    assert!(snapshot_in_status(&snap, &[TaskStatus::Failed, TaskStatus::Completed]));
    assert!(!snapshot_in_status(&snap, &[TaskStatus::Running]));
}

#[test]
fn new_search_ids_are_fresh_at_a_fixed_clock() {
    let mut tasks = SearchTaskRegistry::new();
    let mut ids: Vec<TaskId> = Vec::new();
    for i in 0..11 {
        let request = SearchRequest { root_path: format!("C:\\r{}", i), query: "q".into(), recursive: false, snapshot_version: None };
        let id = tasks.create_search_task_at(request, 5);
        assert!(ids.iter().all(|old| old.as_str() != id.as_str()));
        ids.push(id);
    }
    assert_eq!(ids[10].as_str(), "search-5-11");
    assert_eq!(tasks.get_search_task_snapshot(&ids[1]).unwrap().request.root_path, "C:\\r1");
    assert_eq!(tasks.get_search_task_snapshot(&ids[10]).unwrap().request.root_path, "C:\\r10");
}

#[test]
fn key_order_is_stable() {
    let keys = vec![vec!['b'], vec!['a'], vec!['b'], vec!['a', 'a']];
    assert_eq!(sort_keys(&keys), vec![1, 3, 0, 2]);
}
