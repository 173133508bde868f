use indexer::batches::batch_ranges;
use indexer::indexed::IndexedFiles;
use indexer::sync::{
    add_failure_tolerated, collection_position, next_action, more_pages, plan_files,
    probe_again, progress_due, reindex_count, stale_delete_batches, sweep_applies, FilePlan,
    RunAction, RunEvent,
};

/// One stored chunk: id, branch, revision, file path.
type Row = (String, String, String, String);

fn row(id: &str, branch: &str, rev: &str, path: &str) -> Row {
    (id.to_string(), branch.to_string(), rev.to_string(), path.to_string())
}

/// The store calls a run makes, in order, following the library's decisions.
#[derive(Debug, PartialEq)]
enum Call {
    Delete(Vec<String>),
    PurgeFile(String),
    Add(String),
}

fn run(store: &[Row], branch: &str, rev: &str, files: &[&str], incremental: bool) -> Vec<Call> {
    let mut calls = Vec::new();
    let mut rows: Vec<Row> = store.to_vec();
    let mut view = IndexedFiles::new();
    let paths: Vec<String> = files.iter().map(|s| s.to_string()).collect();
    let mut plans: Vec<FilePlan> = Vec::new();
    let mut event = RunEvent::Started;
    loop {
        match next_action(incremental, rev, branch, event) {
            RunAction::CheckIndexed => {
                event = RunEvent::Indexed(rows.iter().any(|r| r.1 == branch && r.2 == rev));
            }
            RunAction::Sweep => {
                let stale: Vec<String> = rows
                    .iter()
                    .filter(|r| r.1 == branch && r.2 != rev)
                    .map(|r| r.0.clone())
                    .collect();
                for (a, b) in stale_delete_batches(stale.len()) {
                    calls.push(Call::Delete(stale[a..b].to_vec()));
                }
                rows.retain(|r| !(r.1 == branch && r.2 != rev));
                event = RunEvent::Swept;
            }
            RunAction::LoadView => {
                for r in &rows {
                    view.record(r.3.clone(), r.2.clone(), "h".to_string());
                }
                event = RunEvent::ViewLoaded;
            }
            RunAction::Scan => {
                plans = plan_files(&view, &paths, rev, incremental);
                event = RunEvent::Scanned(reindex_count(&plans));
            }
            RunAction::Finish => return calls,
            RunAction::PurgeThenUpload => {
                for (p, plan) in paths.iter().zip(plans.iter()) {
                    if plan.purge_first {
                        calls.push(Call::PurgeFile(p.clone()));
                    }
                }
                for (p, plan) in paths.iter().zip(plans.iter()) {
                    if plan.reindex {
                        calls.push(Call::Add(p.clone()));
                    }
                }
                return calls;
            }
        }
    }
}

#[test]
fn current_revision_is_a_no_op() {
    let store = vec![row("main_abc123_a_rs_1_3", "main", "abc123", "a.rs")];
    assert!(sweep_applies(true, "abc123", "main"));
    assert_eq!(run(&store, "main", "abc123", &["a.rs", "b.rs"], true), vec![]);
}

#[test]
fn revision_rollover_deletes_old_chunks_first() {
    let store: Vec<Row> =
        (0..2500).map(|i| row(&format!("id{}", i), "main", "abc123", "a.rs")).collect();
    let calls = run(&store, "main", "def456", &["a.rs"], true);
    assert_eq!(calls.len(), 4);
    let mut deleted = Vec::new();
    for call in &calls[..3] {
        match call {
            Call::Delete(ids) => {
                assert!(ids.len() <= 1000);
                deleted.extend(ids.iter().cloned());
            }
            other => panic!("expected a delete, got {:?}", other),
        }
    }
    let all: Vec<String> = store.iter().map(|r| r.0.clone()).collect();
    assert_eq!(deleted, all);
    assert_eq!(calls[3], Call::Add("a.rs".to_string()));
}

#[test]
fn other_branches_are_left_alone() {
    let store = vec![row("x", "dev", "abc123", "a.rs"), row("y", "main", "old", "b.rs")];
    let calls = run(&store, "main", "new", &["a.rs", "b.rs"], true);
    assert_eq!(
        calls,
        vec![
            Call::Delete(vec!["y".to_string()]),
            Call::PurgeFile("a.rs".to_string()),
            Call::Add("a.rs".to_string()),
            Call::Add("b.rs".to_string()),
        ]
    );
}

#[test]
fn full_mode_reindexes_everything_without_deleting() {
    let store = vec![row("x", "main", "abc123", "a.rs")];
    let calls = run(&store, "main", "abc123", &["a.rs"], false);
    assert_eq!(calls, vec![Call::Add("a.rs".to_string())]);
    assert!(!sweep_applies(false, "abc123", "main"));
    assert!(!sweep_applies(true, "", "main"));
    assert!(!sweep_applies(true, "abc123", ""));
}

#[test]
fn stale_batches_of_at_most_a_thousand() {
    assert_eq!(stale_delete_batches(2500), vec![(0, 1000), (1000, 2000), (2000, 2500)]);
    assert_eq!(stale_delete_batches(1000), vec![(0, 1000)]);
    assert_eq!(stale_delete_batches(0), vec![]);
}

#[test]
fn batches_cover_all_items() {
    assert_eq!(batch_ranges(5, 2), vec![(0, 2), (2, 4), (4, 5)]);
    assert_eq!(batch_ranges(4, 2), vec![(0, 2), (2, 4)]);
    assert_eq!(batch_ranges(3, 64), vec![(0, 3)]);
    assert_eq!(batch_ranges(0, 3), vec![]);
}

#[test]
fn view_keeps_the_latest_record_per_path() {
    let mut v = IndexedFiles::new();
    assert!(!v.contains_key("a.rs"));
    v.record("a.rs".to_string(), "r1".to_string(), "h1".to_string());
    v.record("b.rs".to_string(), "r1".to_string(), "h2".to_string());
    v.record("a.rs".to_string(), "r2".to_string(), "h3".to_string());
    let a = v.get("a.rs").unwrap();
    assert_eq!(a.git_commit, "r2");
    assert_eq!(a.file_hash, "h3");
    assert_eq!(v.get("b.rs").unwrap().git_commit, "r1");
    assert!(v.get("c.rs").is_none());
    assert!(v.needs_reindex("a.rs", "r1"));
    assert!(!v.needs_reindex("a.rs", "r2"));
    assert!(v.needs_reindex("c.rs", "r2"));
}

#[test]
fn metadata_without_all_fields_is_skipped() {
    let mut v = IndexedFiles::new();
    v.record_fields(Some("a.rs".to_string()), None, Some("h".to_string()));
    assert!(!v.contains_key("a.rs"));
    v.record_fields(Some("a.rs".to_string()), Some("r".to_string()), Some("h".to_string()));
    assert!(v.contains_key("a.rs"));
}

#[test]
fn plans_per_file() {
    let mut v = IndexedFiles::new();
    v.record("same.rs".to_string(), "r2".to_string(), "h".to_string());
    v.record("old.rs".to_string(), "r1".to_string(), "h".to_string());
    let paths = vec!["same.rs".to_string(), "old.rs".to_string(), "new.rs".to_string()];
    assert_eq!(
        plan_files(&v, &paths, "r2", true),
        vec![
            FilePlan { reindex: false, purge_first: false },
            FilePlan { reindex: true, purge_first: true },
            FilePlan { reindex: true, purge_first: false },
        ]
    );
    assert_eq!(
        plan_files(&v, &paths, "r2", false),
        vec![FilePlan { reindex: true, purge_first: false }; 3]
    );
}

#[test]
fn duplicate_add_errors_are_tolerated() {
    assert!(add_failure_tolerated("ID already exists in collection"));
    assert!(add_failure_tolerated("Duplicate ids: x"));
    assert!(!add_failure_tolerated("duplicate ids: x"));
    assert!(!add_failure_tolerated("internal error"));
    assert!(!add_failure_tolerated(""));
}

#[test]
fn paging_stops_after_a_short_or_empty_page() {
    assert!(more_pages(1000, 1000));
    assert!(!more_pages(999, 1000));
    assert!(!more_pages(0, 1000));
    assert!(!more_pages(0, 0));
}

#[test]
fn progress_every_hundred_files() {
    assert!(progress_due(100));
    assert!(progress_due(300));
    assert!(!progress_due(150));
}

#[test]
fn run_steps_in_order() {
    assert_eq!(next_action(true, "abc", "main", RunEvent::Started), RunAction::CheckIndexed);
    assert_eq!(next_action(true, "", "main", RunEvent::Started), RunAction::LoadView);
    assert_eq!(next_action(false, "abc", "main", RunEvent::Started), RunAction::Scan);
    assert_eq!(next_action(true, "abc", "main", RunEvent::Indexed(true)), RunAction::Finish);
    assert_eq!(next_action(true, "abc", "main", RunEvent::Indexed(false)), RunAction::Sweep);
    assert_eq!(next_action(true, "abc", "main", RunEvent::Swept), RunAction::LoadView);
    assert_eq!(next_action(true, "abc", "main", RunEvent::ViewLoaded), RunAction::Scan);
    assert_eq!(next_action(true, "abc", "main", RunEvent::Scanned(0)), RunAction::Finish);
    assert_eq!(next_action(true, "abc", "main", RunEvent::Scanned(3)), RunAction::PurgeThenUpload);
}

#[test]
fn nothing_planned_writes_nothing() {
    let store = vec![row("x", "main", "r1", "a.rs")];
    assert_eq!(run(&store, "dev", "r1", &[], true), vec![]);
}

#[test]
fn counts_planned_files() {
    let plans = vec![
        FilePlan { reindex: true, purge_first: false },
        FilePlan { reindex: false, purge_first: false },
        FilePlan { reindex: true, purge_first: true },
    ];
    assert_eq!(reindex_count(&plans), 2);
    assert_eq!(reindex_count(&Vec::new()), 0);
}

#[test]
fn startup_probe_gives_up_after_thirty() {
    assert!(probe_again(0));
    assert!(probe_again(28));
    assert!(!probe_again(29));
}

#[test]
fn finds_collection_by_name() {
    let names = vec!["a".to_string(), "codebase".to_string(), "codebase".to_string()];
    assert_eq!(collection_position(&names, "codebase"), Some(1));
    assert_eq!(collection_position(&names, "other"), None);
}
