use ofplayer::import_pipeline::{
    file_import_step, new_file_import, new_scan_import, scan_import_step, ImportWork, ScanImportEvent,
    ScanImportPhase,
};

fn updates(action: &ofplayer::import_pipeline::ImportStepAction) -> Vec<(String, String, usize, usize)> {
    action
        .stage_updates
        .iter()
        .map(|u| (String::from(u.stage), String::from(u.status), u.processed, u.total))
        .collect()
}

fn row(stage: &str, status: &str, processed: usize, total: usize) -> (String, String, usize, usize) {
    (String::from(stage), String::from(status), processed, total)
}

#[test]
fn a_scan_import_with_tracks_runs_every_stage() {
    let state = new_scan_import(2);
    let (state, action) = scan_import_step(&state, ScanImportEvent::Begin);
    assert_eq!(action.work, ImportWork::ScanDirectories);
    assert_eq!(updates(&action), vec![row("discover", "running", 0, 2)]);
    assert_eq!(action.progress.unwrap().percent, 4);

    let (state, action) = scan_import_step(
        &state,
        ScanImportEvent::Discovered { discovered_total: 10, directories_scanned: 5 },
    );
    assert_eq!(action.work, ImportWork::FilterCandidates);
    assert_eq!(
        updates(&action),
        vec![row("discover", "completed", 5, 5), row("filter", "running", 0, 10)]
    );
    assert_eq!(action.progress.unwrap().phase, "preparing");
    assert_eq!(action.progress.unwrap().percent, 36);

    let (state, action) = scan_import_step(&state, ScanImportEvent::Filtered { candidate_total: 4 });
    assert_eq!(action.work, ImportWork::PrepareTracks);
    assert_eq!(
        updates(&action),
        vec![row("filter", "completed", 10, 10), row("prepare", "running", 0, 4)]
    );
    assert_eq!(action.progress.unwrap().percent, 42);

    let (state, action) = scan_import_step(&state, ScanImportEvent::Prepared { prepared_total: 3 });
    assert_eq!(action.work, ImportWork::PersistTracks);
    assert_eq!(
        updates(&action),
        vec![row("prepare", "completed", 3, 4), row("persist", "running", 0, 3)]
    );
    assert_eq!(action.progress.unwrap().percent, 92);

    let (state, action) = scan_import_step(&state, ScanImportEvent::Persisted { imported_total: 3 });
    assert_eq!(action.work, ImportWork::SyncPlayback);
    assert_eq!(
        updates(&action),
        vec![row("persist", "completed", 3, 3), row("playbackSync", "running", 0, 3)]
    );
    assert_eq!(action.progress.unwrap().percent, 98);

    let (state, action) = scan_import_step(&state, ScanImportEvent::PlaybackSynced);
    assert_eq!(action.work, ImportWork::Complete);
    assert_eq!(updates(&action), vec![row("playbackSync", "completed", 3, 3)]);
    assert_eq!(action.progress.unwrap().phase, "complete");
    assert_eq!(action.progress.unwrap().percent, 100);
    assert_eq!(state.phase, ScanImportPhase::Finished);

    let (after, action) = scan_import_step(&state, ScanImportEvent::Failed);
    assert_eq!(after, state);
    assert_eq!(action.work, ImportWork::Nothing);
    assert!(action.progress.is_none());
}

#[test]
fn a_scan_import_without_candidates_skips_preparing_and_storing() {
    let state = new_scan_import(0);
    let (state, action) = scan_import_step(&state, ScanImportEvent::Begin);
    assert_eq!(updates(&action), vec![row("discover", "running", 0, 1)]);
    let (state, _) = scan_import_step(
        &state,
        ScanImportEvent::Discovered { discovered_total: 0, directories_scanned: 0 },
    );
    let (state, action) = scan_import_step(&state, ScanImportEvent::Filtered { candidate_total: 0 });
    assert_eq!(action.work, ImportWork::SyncPlayback);
    assert_eq!(
        updates(&action),
        vec![
            row("filter", "completed", 0, 1),
            row("prepare", "skipped", 0, 0),
            row("persist", "skipped", 0, 0),
            row("playbackSync", "running", 0, 1),
        ]
    );
    assert_eq!(action.progress.unwrap().percent, 96);
    let (state, action) = scan_import_step(&state, ScanImportEvent::PlaybackSynced);
    assert_eq!(action.work, ImportWork::CompleteEmpty);
    assert_eq!(action.progress.unwrap().phase, "empty");
    assert_eq!(state.phase, ScanImportPhase::Finished);
}

#[test]
fn nothing_prepared_goes_straight_to_playback() {
    let state = new_scan_import(1);
    let (state, _) = scan_import_step(&state, ScanImportEvent::Begin);
    let (state, _) = scan_import_step(
        &state,
        ScanImportEvent::Discovered { discovered_total: 2, directories_scanned: 1 },
    );
    let (state, _) = scan_import_step(&state, ScanImportEvent::Filtered { candidate_total: 2 });
    let (state, action) = scan_import_step(&state, ScanImportEvent::Prepared { prepared_total: 0 });
    assert_eq!(action.work, ImportWork::SyncPlayback);
    assert_eq!(
        updates(&action),
        vec![row("prepare", "completed", 0, 2), row("playbackSync", "running", 0, 1)]
    );
    let (_, action) = scan_import_step(&state, ScanImportEvent::PlaybackSynced);
    assert_eq!(action.work, ImportWork::Complete);
}

#[test]
fn failures_end_the_import_and_stray_events_change_nothing() {
    let state = new_scan_import(1);
    let (same, action) = scan_import_step(&state, ScanImportEvent::PlaybackSynced);
    assert_eq!(same, state);
    assert_eq!(action.work, ImportWork::Nothing);
    let (state, _) = scan_import_step(&state, ScanImportEvent::Begin);
    let (state, action) = scan_import_step(&state, ScanImportEvent::Failed);
    assert_eq!(state.phase, ScanImportPhase::Failed);
    assert_eq!(action.work, ImportWork::Fail);
    assert_eq!(action.progress.unwrap().phase, "error");
    assert!(action.stage_updates.is_empty());
}

#[test]
fn a_file_import_runs_every_stage() {
    let state = new_file_import(3);
    let (state, action) = file_import_step(&state, ScanImportEvent::Begin);
    assert_eq!(
        updates(&action),
        vec![row("discover", "skipped", 3, 3), row("filter", "running", 0, 3)]
    );
    assert_eq!(action.progress.unwrap().percent, 12);
    assert_eq!(action.work, ImportWork::FilterCandidates);
    let (state, action) = file_import_step(&state, ScanImportEvent::Filtered { candidate_total: 2 });
    assert_eq!(
        updates(&action),
        vec![row("filter", "completed", 3, 3), row("prepare", "running", 0, 2)]
    );
    assert_eq!(action.progress.unwrap().percent, 22);
    let (state, action) = file_import_step(&state, ScanImportEvent::Prepared { prepared_total: 2 });
    assert_eq!(action.work, ImportWork::PersistTracks);
    assert_eq!(action.progress.unwrap().percent, 92);
    let (state, action) = file_import_step(&state, ScanImportEvent::Persisted { imported_total: 2 });
    assert_eq!(
        updates(&action),
        vec![row("persist", "completed", 2, 2), row("playbackSync", "running", 0, 2)]
    );
    assert_eq!(action.progress.unwrap().percent, 98);
    let (state, action) = file_import_step(&state, ScanImportEvent::PlaybackSynced);
    assert_eq!(action.work, ImportWork::Complete);
    assert_eq!(state.phase, ScanImportPhase::Finished);
}

#[test]
fn a_file_import_with_nothing_prepared_skips_storing() {
    let state = new_file_import(0);
    let (state, action) = file_import_step(&state, ScanImportEvent::Begin);
    assert_eq!(updates(&action)[0], row("discover", "skipped", 0, 0));
    let (state, action) = file_import_step(&state, ScanImportEvent::Filtered { candidate_total: 0 });
    assert_eq!(updates(&action)[1], row("prepare", "running", 0, 1));
    let (state, action) = file_import_step(&state, ScanImportEvent::Prepared { prepared_total: 0 });
    assert_eq!(action.work, ImportWork::StoreNothing);
    let (state, action) = file_import_step(&state, ScanImportEvent::Persisted { imported_total: 0 });
    assert_eq!(
        updates(&action),
        vec![row("persist", "skipped", 0, 1), row("playbackSync", "running", 0, 1)]
    );
    assert_eq!(action.progress.unwrap().percent, 96);
    let (_, action) = file_import_step(&state, ScanImportEvent::PlaybackSynced);
    assert_eq!(action.work, ImportWork::CompleteEmpty);
    let (failed, action) = file_import_step(&new_file_import(1), ScanImportEvent::Failed);
    assert_eq!(failed.phase, ScanImportPhase::Failed);
    assert_eq!(action.work, ImportWork::Nothing);
    assert!(action.progress.is_none());
}
