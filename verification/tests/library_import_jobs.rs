use ofplayer::diagnostics::ProcessResourceDiagnostics;
use ofplayer::library_import_jobs::{
    build_library_import_diagnostics_from_job, create_library_import_job_snapshot,
    create_library_import_job_snapshot_with, finalize_library_import_job_at, find_job_stage,
    mark_library_import_job_failed, mark_library_import_job_failed_at, progress_percent,
    update_library_import_job_stage, update_library_import_job_stage_at, LibraryImportDiagnostics,
    LibraryImportJobStore, IMPORT_JOB_MAX_HISTORY, IMPORT_JOB_STATUS_QUEUED,
    IMPORT_JOB_STATUS_RUNNING, IMPORT_STAGE_DISCOVER, IMPORT_STAGE_FILTER, IMPORT_STAGE_PREPARE,
    IMPORT_STAGE_STATUS_COMPLETED, IMPORT_STAGE_STATUS_FAILED, IMPORT_STAGE_STATUS_PENDING,
    IMPORT_STAGE_STATUS_RUNNING, IMPORT_STAGE_STATUS_SKIPPED,
};

#[test]
fn progress_percent_clamps_to_configured_range() {
    assert_eq!(progress_percent(42, 88, 0, 0), 88);
    assert_eq!(progress_percent(42, 88, 0, 10), 42);
    assert_eq!(progress_percent(42, 88, 5, 10), 65);
    assert_eq!(progress_percent(42, 88, 99, 10), 88);
}

#[test]
fn progress_percent_rounds_to_the_nearest_percent() {
    assert_eq!(progress_percent(0, 100, 1, 3), 33);
    assert_eq!(progress_percent(0, 100, 2, 3), 67);
    assert_eq!(progress_percent(0, 100, 1, 8), 13);
    assert_eq!(progress_percent(90, 80, 1, 2), 80);
}

#[test]
fn stage_updates_preserve_job_totals_until_finalization() {
    let mut job = create_library_import_job_snapshot("scan-import", "library-1");

    update_library_import_job_stage(
        &mut job,
        IMPORT_STAGE_PREPARE,
        IMPORT_STAGE_STATUS_RUNNING,
        2,
        5,
        None,
    );

    let running_stage = find_job_stage(&job, IMPORT_STAGE_PREPARE).unwrap();
    assert_eq!(job.status, IMPORT_JOB_STATUS_RUNNING);
    assert_eq!(job.current_stage, IMPORT_STAGE_PREPARE);
    assert_eq!(running_stage.processed, 2);
    assert_eq!(running_stage.total, 5);
    assert!(running_stage.started_at.is_some());
    assert!(running_stage.completed_at.is_none());

    update_library_import_job_stage(
        &mut job,
        IMPORT_STAGE_PREPARE,
        IMPORT_STAGE_STATUS_COMPLETED,
        5,
        5,
        Some(123),
    );

    let completed_stage = find_job_stage(&job, IMPORT_STAGE_PREPARE).unwrap();
    assert_eq!(completed_stage.status, IMPORT_STAGE_STATUS_COMPLETED);
    assert_eq!(completed_stage.duration_ms, Some(123));
    assert!(completed_stage.completed_at.is_some());
    assert_eq!(job.status, IMPORT_JOB_STATUS_RUNNING);
}

#[test]
fn job_store_evicts_oldest_history_entries() {
    let mut store = LibraryImportJobStore::default();

    for index in 0..(IMPORT_JOB_MAX_HISTORY + 3) {
        let mut job = create_library_import_job_snapshot("scan-import", "library-1");
        job.id = format!("job-{index}");
        store.insert(job);
    }

    assert_eq!(store.len(), IMPORT_JOB_MAX_HISTORY);
    assert!(!store.contains_job("job-0"));
    assert!(!store.contains_job("job-1"));
    assert!(!store.contains_job("job-2"));
    assert!(store.contains_job("job-3"));
}

#[test]
fn job_store_replaces_a_job_in_place() {
    let mut store = LibraryImportJobStore::new();
    for index in 0..3 {
        let mut job = create_library_import_job_snapshot("scan-import", "library-1");
        job.id = format!("job-{index}");
        store.insert(job);
    }
    let mut again = create_library_import_job_snapshot("scan-import", "library-2");
    again.id = String::from("job-1");
    store.insert(again);
    assert_eq!(store.len(), 3);
    assert!(store.contains_job("job-1"));
    store.clear();
    assert_eq!(store.len(), 0);
}

#[test]
fn mark_failed_uses_current_stage_progress() {
    let mut job = create_library_import_job_snapshot("scan-import", "library-1");
    update_library_import_job_stage(
        &mut job,
        IMPORT_STAGE_PREPARE,
        IMPORT_STAGE_STATUS_RUNNING,
        2,
        5,
        Some(77),
    );

    mark_library_import_job_failed(&mut job);

    let failed_stage = find_job_stage(&job, IMPORT_STAGE_PREPARE).unwrap();
    assert_eq!(job.status, IMPORT_JOB_STATUS_RUNNING);
    assert_eq!(job.current_stage, IMPORT_STAGE_PREPARE);
    assert_eq!(failed_stage.status, IMPORT_STAGE_STATUS_FAILED);
    assert_eq!(failed_stage.processed, 2);
    assert_eq!(failed_stage.total, 5);
    assert_eq!(failed_stage.duration_ms, Some(77));
    assert!(failed_stage.completed_at.is_some());
}

#[test]
fn mark_failed_without_a_current_stage_takes_the_first_pending_one() {
    let mut job = create_library_import_job_snapshot_with(
        "scan-import",
        "library-1",
        String::from("job"),
        String::from("t0"),
    );
    mark_library_import_job_failed_at(&mut job, String::from("t1"));
    let discover = find_job_stage(&job, IMPORT_STAGE_DISCOVER).unwrap();
    assert_eq!(job.current_stage, IMPORT_STAGE_DISCOVER);
    assert_eq!(discover.status, IMPORT_STAGE_STATUS_FAILED);
    assert_eq!(discover.started_at.as_deref(), Some("t1"));
    assert_eq!(discover.completed_at.as_deref(), Some("t1"));
    assert_eq!(job.status, IMPORT_JOB_STATUS_QUEUED);
}

#[test]
fn stage_start_time_is_kept_once_set() {
    let mut job = create_library_import_job_snapshot_with(
        "scan-import",
        "library-1",
        String::from("job"),
        String::from("t0"),
    );
    update_library_import_job_stage_at(&mut job, IMPORT_STAGE_FILTER, IMPORT_STAGE_STATUS_RUNNING, 0, 4, None, String::from("t1"));
    update_library_import_job_stage_at(&mut job, IMPORT_STAGE_FILTER, IMPORT_STAGE_STATUS_COMPLETED, 4, 4, Some(9), String::from("t2"));
    let filter = find_job_stage(&job, IMPORT_STAGE_FILTER).unwrap();
    assert_eq!(filter.started_at.as_deref(), Some("t1"));
    assert_eq!(filter.completed_at.as_deref(), Some("t2"));
    assert_eq!(job.updated_at, "t2");
    update_library_import_job_stage_at(&mut job, IMPORT_STAGE_PREPARE, IMPORT_STAGE_STATUS_SKIPPED, 0, 0, None, String::from("t3"));
    let prepare = find_job_stage(&job, IMPORT_STAGE_PREPARE).unwrap();
    assert!(prepare.started_at.is_none());
    assert_eq!(prepare.completed_at.as_deref(), Some("t3"));
    update_library_import_job_stage_at(&mut job, "unknown", IMPORT_STAGE_STATUS_PENDING, 1, 1, None, String::from("t4"));
    assert_eq!(job.current_stage, "unknown");
    assert_eq!(job.stages.len(), 5);
}

#[test]
fn diagnostics_from_job_reads_stage_durations_and_totals() {
    let mut job = create_library_import_job_snapshot("scan-import", "library-1");
    job.discovered_total = 9;
    job.candidate_total = 7;
    job.imported_total = 5;
    job.directories_scanned = 3;
    job.entries_scanned = 42;
    job.diagnostics = Some(LibraryImportDiagnostics {
        copy_ms: 11,
        metadata_ms: 13,
        metadata_fallback_count: 2,
        ..LibraryImportDiagnostics::default()
    });

    update_library_import_job_stage(
        &mut job,
        IMPORT_STAGE_DISCOVER,
        IMPORT_STAGE_STATUS_COMPLETED,
        3,
        3,
        Some(17),
    );
    update_library_import_job_stage(
        &mut job,
        IMPORT_STAGE_FILTER,
        IMPORT_STAGE_STATUS_COMPLETED,
        9,
        9,
        Some(19),
    );

    let diagnostics = build_library_import_diagnostics_from_job(
        &job,
        101,
        ProcessResourceDiagnostics::default(),
        Vec::new(),
    );

    assert_eq!(diagnostics.total_ms, 101);
    assert_eq!(diagnostics.discover_ms, 17);
    assert_eq!(diagnostics.filter_ms, 19);
    assert_eq!(diagnostics.copy_ms, 11);
    assert_eq!(diagnostics.metadata_ms, 13);
    assert_eq!(diagnostics.metadata_fallback_count, 2);
    assert_eq!(diagnostics.discovered_total, 9);
    assert_eq!(diagnostics.candidate_total, 7);
    assert_eq!(diagnostics.imported_total, 5);
    assert_eq!(diagnostics.directories_scanned, 3);
    assert_eq!(diagnostics.entries_scanned, 42);
}

#[test]
fn finalization_takes_totals_from_the_diagnostics() {
    let mut job = create_library_import_job_snapshot("scan-import", "library-1");
    job.current_file = String::from("/music/a.flac");
    let diagnostics = LibraryImportDiagnostics {
        discovered_total: 4,
        candidate_total: 3,
        imported_total: 2,
        directories_scanned: 1,
        entries_scanned: 8,
        ..LibraryImportDiagnostics::default()
    };
    finalize_library_import_job_at(&mut job, "completed", diagnostics, None, String::from("done"));
    assert_eq!(job.status, "completed");
    assert_eq!(job.completed_at.as_deref(), Some("done"));
    assert_eq!(job.imported_total, 2);
    assert_eq!(job.entries_scanned, 8);
    assert!(job.current_file.is_empty());
    assert!(job.id.starts_with("import-job-"));
}
