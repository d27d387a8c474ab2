//! The stage decisions of a library import, from a folder scan or from a
//! list of files: which job stages change, which progress is reported and
//! which work comes next, for each outcome of the work before. The caller performs the work (scanning, filtering,
//! preparing and storing tracks, syncing playback) and hands back what came
//! of it.
use vstd::prelude::*;
use crate::library_import_jobs::{
    IMPORT_STAGE_DISCOVER, IMPORT_STAGE_FILTER, IMPORT_STAGE_PERSIST, IMPORT_STAGE_PLAYBACK_SYNC,
    IMPORT_STAGE_PREPARE, IMPORT_STAGE_STATUS_COMPLETED, IMPORT_STAGE_STATUS_RUNNING,
    IMPORT_STAGE_STATUS_SKIPPED,
};

verus! {

/// Where a scan import stands.
#[derive(Debug, Clone, Copy, PartialEq, Eq, Structural)]
pub enum ScanImportPhase {
    Created,
    Discovering,
    Filtering,
    Preparing,
    Persisting,
    SyncingPlayback,
    Finished,
    Failed,
}

/// A scan import: its phase and the counts known so far.
#[derive(Debug, Clone, Copy, PartialEq, Eq, Structural)]
pub struct ScanImportState {
    pub phase: ScanImportPhase,
    pub directory_count: usize,
    pub discovered_total: usize,
    pub candidate_total: usize,
    pub prepared_total: usize,
    pub imported_total: usize,
}

/// What came of the work last asked for.
#[derive(Debug, Clone, Copy, PartialEq, Eq, Structural)]
pub enum ScanImportEvent {
    Begin,
    Discovered { discovered_total: usize, directories_scanned: usize },
    Filtered { candidate_total: usize },
    Prepared { prepared_total: usize },
    Persisted { imported_total: usize },
    PlaybackSynced,
    Failed,
}

/// The work to do next.
#[derive(Debug, Clone, Copy, PartialEq, Eq, Structural)]
pub enum ImportWork {
    ScanDirectories,
    FilterCandidates,
    PrepareTracks,
    PersistTracks,
    /// Nothing was prepared, so there is nothing to store: the storing stage
    /// ends at once (report `Persisted` with nothing imported).
    StoreNothing,
    SyncPlayback,
    /// Finalize the job as completed.
    Complete,
    /// Finalize the job as empty: nothing was left to import.
    CompleteEmpty,
    /// Mark the job failed, build its diagnostics from it and finalize it as
    /// failed.
    Fail,
    Nothing,
}

/// A change of one job stage.
#[derive(Debug, Clone, Copy)]
pub struct StageUpdate {
    pub stage: &'static str,
    pub status: &'static str,
    pub processed: usize,
    pub total: usize,
}

/// A progress report: its phase label and percentage.
#[derive(Debug, Clone, Copy)]
pub struct ProgressReport {
    pub phase: &'static str,
    pub percent: u8,
}

/// What one step asks for: the stage changes, in order, the progress to
/// report, if any, and the work to do next.
#[derive(Debug, Clone)]
pub struct ImportStepAction {
    pub stage_updates: Vec<StageUpdate>,
    pub progress: Option<ProgressReport>,
    pub work: ImportWork,
}

/// A stage change as texts and numbers.
pub open spec fn update_view(u: StageUpdate) -> (Seq<char>, Seq<char>, nat, nat) {
    (u.stage@, u.status@, u.processed as nat, u.total as nat)
}

/// The stage changes as texts and numbers.
pub open spec fn updates_view(us: Seq<StageUpdate>) -> Seq<(Seq<char>, Seq<char>, nat, nat)> {
    us.map_values(|u: StageUpdate| update_view(u))
}

/// A progress report as text and number.
pub open spec fn progress_view(p: Option<ProgressReport>) -> Option<(Seq<char>, u8)> {
    match p {
        Some(r) => Some((r.phase@, r.percent)),
        None => None,
    }
}

/// The larger of `n` and 1.
pub open spec fn at_least_one(n: nat) -> nat {
    if n > 0 {
        n
    } else {
        1
    }
}

/// One step of a scan import, as spec: the next state, the stage changes, the
/// progress and the work.
///
/// - `Begin` on a new import: discovery runs over the folders; 4%.
/// - `Discovered`: discovery completes over the folders scanned (at least
///   those asked for), filtering runs; 36%.
/// - `Filtered` with no candidates: preparing and storing are skipped and
///   playback syncs; 96%. With candidates, preparing runs; 42%.
/// - `Prepared` with nothing prepared: playback syncs; 96%. Else storing
///   runs; 92%.
/// - `Persisted`: storing completes, playback syncs; 96% when nothing was
///   imported, else 98%.
/// - `PlaybackSynced`: playback sync completes and the job finishes, empty
///   when there were no candidates; 100%.
/// - `Failed` before the end: the job fails; 100%.
/// - Any other event leaves the import as it is and asks for nothing.
pub open spec fn scan_step(s: ScanImportState, e: ScanImportEvent) -> (
    ScanImportState,
    Seq<(Seq<char>, Seq<char>, nat, nat)>,
    Option<(Seq<char>, u8)>,
    ImportWork,
) {
    let discover = IMPORT_STAGE_DISCOVER@;
    let filter = IMPORT_STAGE_FILTER@;
    let prepare = IMPORT_STAGE_PREPARE@;
    let persist = IMPORT_STAGE_PERSIST@;
    let sync = IMPORT_STAGE_PLAYBACK_SYNC@;
    let running = IMPORT_STAGE_STATUS_RUNNING@;
    let completed = IMPORT_STAGE_STATUS_COMPLETED@;
    let skipped = IMPORT_STAGE_STATUS_SKIPPED@;
    let unchanged = (s, Seq::<(Seq<char>, Seq<char>, nat, nat)>::empty(), None::<(Seq<char>, u8)>, ImportWork::Nothing);
    match e {
        ScanImportEvent::Begin => if s.phase == ScanImportPhase::Created {
            (
                ScanImportState { phase: ScanImportPhase::Discovering, ..s },
                seq![(discover, running, 0nat, at_least_one(s.directory_count as nat))],
                Some(("discovering"@, 4u8)),
                ImportWork::ScanDirectories,
            )
        } else {
            unchanged
        },
        ScanImportEvent::Discovered { discovered_total, directories_scanned } => if s.phase
            == ScanImportPhase::Discovering {
            let folders: nat = if directories_scanned >= s.directory_count {
                directories_scanned as nat
            } else {
                s.directory_count as nat
            };
            (
                ScanImportState { phase: ScanImportPhase::Filtering, discovered_total, ..s },
                seq![
                    (discover, completed, folders, at_least_one(folders)),
                    (filter, running, 0nat, at_least_one(discovered_total as nat)),
                ],
                Some(("preparing"@, 36u8)),
                ImportWork::FilterCandidates,
            )
        } else {
            unchanged
        },
        ScanImportEvent::Filtered { candidate_total } => if s.phase == ScanImportPhase::Filtering {
            let done = (
                filter,
                completed,
                s.discovered_total as nat,
                at_least_one(s.discovered_total as nat),
            );
            if candidate_total == 0 {
                (
                    ScanImportState {
                        phase: ScanImportPhase::SyncingPlayback,
                        candidate_total: 0,
                        prepared_total: 0,
                        imported_total: 0,
                        ..s
                    },
                    seq![
                        done,
                        (prepare, skipped, 0nat, 0nat),
                        (persist, skipped, 0nat, 0nat),
                        (sync, running, 0nat, 1nat),
                    ],
                    Some(("importing"@, 96u8)),
                    ImportWork::SyncPlayback,
                )
            } else {
                (
                    ScanImportState { phase: ScanImportPhase::Preparing, candidate_total, ..s },
                    seq![done, (prepare, running, 0nat, candidate_total as nat)],
                    Some(("processing"@, 42u8)),
                    ImportWork::PrepareTracks,
                )
            }
        } else {
            unchanged
        },
        ScanImportEvent::Prepared { prepared_total } => if s.phase == ScanImportPhase::Preparing {
            let done = (prepare, completed, prepared_total as nat, s.candidate_total as nat);
            if prepared_total == 0 {
                (
                    ScanImportState {
                        phase: ScanImportPhase::SyncingPlayback,
                        prepared_total: 0,
                        imported_total: 0,
                        ..s
                    },
                    seq![done, (sync, running, 0nat, 1nat)],
                    Some(("importing"@, 96u8)),
                    ImportWork::SyncPlayback,
                )
            } else {
                (
                    ScanImportState { phase: ScanImportPhase::Persisting, prepared_total, ..s },
                    seq![done, (persist, running, 0nat, prepared_total as nat)],
                    Some(("importing"@, 92u8)),
                    ImportWork::PersistTracks,
                )
            }
        } else {
            unchanged
        },
        ScanImportEvent::Persisted { imported_total } => if s.phase == ScanImportPhase::Persisting {
            (
                ScanImportState { phase: ScanImportPhase::SyncingPlayback, imported_total, ..s },
                seq![
                    (persist, completed, imported_total as nat, s.prepared_total as nat),
                    (sync, running, 0nat, at_least_one(imported_total as nat)),
                ],
                Some((
                    "importing"@,
                    if imported_total == 0 {
                        96u8
                    } else {
                        98u8
                    },
                )),
                ImportWork::SyncPlayback,
            )
        } else {
            unchanged
        },
        ScanImportEvent::PlaybackSynced => if s.phase == ScanImportPhase::SyncingPlayback {
            (
                ScanImportState { phase: ScanImportPhase::Finished, ..s },
                seq![
                    (
                        sync,
                        completed,
                        s.imported_total as nat,
                        at_least_one(s.imported_total as nat),
                    ),
                ],
                if s.candidate_total == 0 {
                    Some(("empty"@, 100u8))
                } else {
                    Some(("complete"@, 100u8))
                },
                if s.candidate_total == 0 {
                    ImportWork::CompleteEmpty
                } else {
                    ImportWork::Complete
                },
            )
        } else {
            unchanged
        },
        ScanImportEvent::Failed => if s.phase != ScanImportPhase::Finished && s.phase
            != ScanImportPhase::Failed {
            (
                ScanImportState { phase: ScanImportPhase::Failed, ..s },
                Seq::<(Seq<char>, Seq<char>, nat, nat)>::empty(),
                Some(("error"@, 100u8)),
                ImportWork::Fail,
            )
        } else {
            unchanged
        },
    }
}

/// A new scan import over `directory_count` folders.
pub fn new_scan_import(directory_count: usize) -> (r: ScanImportState)
    ensures
        r == (ScanImportState {
            phase: ScanImportPhase::Created,
            directory_count,
            discovered_total: 0,
            candidate_total: 0,
            prepared_total: 0,
            imported_total: 0,
        }),
{
    ScanImportState {
        phase: ScanImportPhase::Created,
        directory_count,
        discovered_total: 0,
        candidate_total: 0,
        prepared_total: 0,
        imported_total: 0,
    }
}

fn one_or_more(n: usize) -> (r: usize)
    ensures
        r as nat == at_least_one(n as nat),
{
    if n > 0 {
        n
    } else {
        1
    }
}

fn update(stage: &'static str, status: &'static str, processed: usize, total: usize) -> (r: StageUpdate)
    ensures
        update_view(r) == (stage@, status@, processed as nat, total as nat),
{
    StageUpdate { stage, status, processed, total }
}

fn report(phase: &'static str, percent: u8) -> (r: Option<ProgressReport>)
    ensures
        progress_view(r) == Some((phase@, percent)),
{
    Some(ProgressReport { phase, percent })
}

/// One step of a scan import (see `scan_step`).
pub fn scan_import_step(state: &ScanImportState, event: ScanImportEvent) -> (r: (
    ScanImportState,
    ImportStepAction,
))
    ensures
        r.0 == scan_step(*state, event).0,
        updates_view(r.1.stage_updates@) == scan_step(*state, event).1,
        progress_view(r.1.progress) == scan_step(*state, event).2,
        r.1.work == scan_step(*state, event).3,
{
    let s = *state;
    let mut updates: Vec<StageUpdate> = Vec::new();
    let unchanged = (s, ImportStepAction { stage_updates: Vec::new(), progress: None, work: ImportWork::Nothing });
    assert(updates_view(unchanged.1.stage_updates@) =~= Seq::<(Seq<char>, Seq<char>, nat, nat)>::empty());
    match event {
        ScanImportEvent::Begin => {
            if s.phase != ScanImportPhase::Created {
                return unchanged;
            }
            updates.push(update(IMPORT_STAGE_DISCOVER, IMPORT_STAGE_STATUS_RUNNING, 0, one_or_more(s.directory_count)));
            assert(updates_view(updates@) =~= scan_step(s, event).1);
            (
                ScanImportState { phase: ScanImportPhase::Discovering, ..s },
                ImportStepAction { stage_updates: updates, progress: report("discovering", 4), work: ImportWork::ScanDirectories },
            )
        },
        ScanImportEvent::Discovered { discovered_total, directories_scanned } => {
            if s.phase != ScanImportPhase::Discovering {
                return unchanged;
            }
            let folders = if directories_scanned >= s.directory_count {
                directories_scanned
            } else {
                s.directory_count
            };
            updates.push(update(IMPORT_STAGE_DISCOVER, IMPORT_STAGE_STATUS_COMPLETED, folders, one_or_more(folders)));
            updates.push(update(IMPORT_STAGE_FILTER, IMPORT_STAGE_STATUS_RUNNING, 0, one_or_more(discovered_total)));
            assert(updates_view(updates@) =~= scan_step(s, event).1);
            (
                ScanImportState { phase: ScanImportPhase::Filtering, discovered_total, ..s },
                ImportStepAction { stage_updates: updates, progress: report("preparing", 36), work: ImportWork::FilterCandidates },
            )
        },
        ScanImportEvent::Filtered { candidate_total } => {
            if s.phase != ScanImportPhase::Filtering {
                return unchanged;
            }
            updates.push(update(IMPORT_STAGE_FILTER, IMPORT_STAGE_STATUS_COMPLETED, s.discovered_total, one_or_more(s.discovered_total)));
            if candidate_total == 0 {
                updates.push(update(IMPORT_STAGE_PREPARE, IMPORT_STAGE_STATUS_SKIPPED, 0, 0));
                updates.push(update(IMPORT_STAGE_PERSIST, IMPORT_STAGE_STATUS_SKIPPED, 0, 0));
                updates.push(update(IMPORT_STAGE_PLAYBACK_SYNC, IMPORT_STAGE_STATUS_RUNNING, 0, 1));
                assert(updates_view(updates@) =~= scan_step(s, event).1);
                (
                    ScanImportState {
                        phase: ScanImportPhase::SyncingPlayback,
                        candidate_total: 0,
                        prepared_total: 0,
                        imported_total: 0,
                        ..s
                    },
                    ImportStepAction { stage_updates: updates, progress: report("importing", 96), work: ImportWork::SyncPlayback },
                )
            } else {
                updates.push(update(IMPORT_STAGE_PREPARE, IMPORT_STAGE_STATUS_RUNNING, 0, candidate_total));
                assert(updates_view(updates@) =~= scan_step(s, event).1);
                (
                    ScanImportState { phase: ScanImportPhase::Preparing, candidate_total, ..s },
                    ImportStepAction { stage_updates: updates, progress: report("processing", 42), work: ImportWork::PrepareTracks },
                )
            }
        },
        ScanImportEvent::Prepared { prepared_total } => {
            if s.phase != ScanImportPhase::Preparing {
                return unchanged;
            }
            updates.push(update(IMPORT_STAGE_PREPARE, IMPORT_STAGE_STATUS_COMPLETED, prepared_total, s.candidate_total));
            if prepared_total == 0 {
                updates.push(update(IMPORT_STAGE_PLAYBACK_SYNC, IMPORT_STAGE_STATUS_RUNNING, 0, 1));
                assert(updates_view(updates@) =~= scan_step(s, event).1);
                (
                    ScanImportState {
                        phase: ScanImportPhase::SyncingPlayback,
                        prepared_total: 0,
                        imported_total: 0,
                        ..s
                    },
                    ImportStepAction { stage_updates: updates, progress: report("importing", 96), work: ImportWork::SyncPlayback },
                )
            } else {
                updates.push(update(IMPORT_STAGE_PERSIST, IMPORT_STAGE_STATUS_RUNNING, 0, prepared_total));
                assert(updates_view(updates@) =~= scan_step(s, event).1);
                (
                    ScanImportState { phase: ScanImportPhase::Persisting, prepared_total, ..s },
                    ImportStepAction { stage_updates: updates, progress: report("importing", 92), work: ImportWork::PersistTracks },
                )
            }
        },
        ScanImportEvent::Persisted { imported_total } => {
            if s.phase != ScanImportPhase::Persisting {
                return unchanged;
            }
            updates.push(update(IMPORT_STAGE_PERSIST, IMPORT_STAGE_STATUS_COMPLETED, imported_total, s.prepared_total));
            updates.push(update(IMPORT_STAGE_PLAYBACK_SYNC, IMPORT_STAGE_STATUS_RUNNING, 0, one_or_more(imported_total)));
            assert(updates_view(updates@) =~= scan_step(s, event).1);
            let percent: u8 = if imported_total == 0 {
                96
            } else {
                98
            };
            (
                ScanImportState { phase: ScanImportPhase::SyncingPlayback, imported_total, ..s },
                ImportStepAction { stage_updates: updates, progress: report("importing", percent), work: ImportWork::SyncPlayback },
            )
        },
        ScanImportEvent::PlaybackSynced => {
            if s.phase != ScanImportPhase::SyncingPlayback {
                return unchanged;
            }
            updates.push(update(IMPORT_STAGE_PLAYBACK_SYNC, IMPORT_STAGE_STATUS_COMPLETED, s.imported_total, one_or_more(s.imported_total)));
            assert(updates_view(updates@) =~= scan_step(s, event).1);
            let next = ScanImportState { phase: ScanImportPhase::Finished, ..s };
            if s.candidate_total == 0 {
                (next, ImportStepAction { stage_updates: updates, progress: report("empty", 100), work: ImportWork::CompleteEmpty })
            } else {
                (next, ImportStepAction { stage_updates: updates, progress: report("complete", 100), work: ImportWork::Complete })
            }
        },
        ScanImportEvent::Failed => {
            if s.phase == ScanImportPhase::Finished || s.phase == ScanImportPhase::Failed {
                return unchanged;
            }
            (
                ScanImportState { phase: ScanImportPhase::Failed, ..s },
                ImportStepAction { stage_updates: updates, progress: report("error", 100), work: ImportWork::Fail },
            )
        },
    }
}

/// A new import of `file_count` given files: they count as discovered.
pub fn new_file_import(file_count: usize) -> (r: ScanImportState)
    ensures
        r == (ScanImportState {
            phase: ScanImportPhase::Created,
            directory_count: 0,
            discovered_total: file_count,
            candidate_total: 0,
            prepared_total: 0,
            imported_total: 0,
        }),
{
    ScanImportState {
        phase: ScanImportPhase::Created,
        directory_count: 0,
        discovered_total: file_count,
        candidate_total: 0,
        prepared_total: 0,
        imported_total: 0,
    }
}

/// One step of an import of given files, as spec (see `scan_step` for the
/// shape).
///
/// - `Begin`: discovery is skipped over the files, filtering runs; 12%.
/// - `Filtered`: filtering completes, preparing runs (even for no
///   candidates); 22%.
/// - `Prepared`: preparing completes, storing runs; 92%. With nothing
///   prepared there is nothing to store.
/// - `Persisted`: storing completes (or is skipped when nothing was
///   prepared), playback syncs; 96% when nothing was imported, else 98%.
/// - `PlaybackSynced`: as for a scan import.
/// - `Failed` before the end: the import stops where it stands; the job is
///   left as it is.
/// - Any other event leaves the import as it is and asks for nothing.
pub open spec fn file_step(s: ScanImportState, e: ScanImportEvent) -> (
    ScanImportState,
    Seq<(Seq<char>, Seq<char>, nat, nat)>,
    Option<(Seq<char>, u8)>,
    ImportWork,
) {
    let n = s.discovered_total as nat;
    let unchanged = (s, Seq::<(Seq<char>, Seq<char>, nat, nat)>::empty(), None::<(Seq<char>, u8)>, ImportWork::Nothing);
    match e {
        ScanImportEvent::Begin => if s.phase == ScanImportPhase::Created {
            (
                ScanImportState { phase: ScanImportPhase::Filtering, ..s },
                seq![
                    (IMPORT_STAGE_DISCOVER@, IMPORT_STAGE_STATUS_SKIPPED@, n, n),
                    (IMPORT_STAGE_FILTER@, IMPORT_STAGE_STATUS_RUNNING@, 0nat, at_least_one(n)),
                ],
                Some(("preparing"@, 12u8)),
                ImportWork::FilterCandidates,
            )
        } else {
            unchanged
        },
        ScanImportEvent::Filtered { candidate_total } => if s.phase == ScanImportPhase::Filtering {
            (
                ScanImportState { phase: ScanImportPhase::Preparing, candidate_total, ..s },
                seq![
                    (IMPORT_STAGE_FILTER@, IMPORT_STAGE_STATUS_COMPLETED@, n, at_least_one(n)),
                    (IMPORT_STAGE_PREPARE@, IMPORT_STAGE_STATUS_RUNNING@, 0nat, at_least_one(candidate_total as nat)),
                ],
                Some(("processing"@, 22u8)),
                ImportWork::PrepareTracks,
            )
        } else {
            unchanged
        },
        ScanImportEvent::Prepared { prepared_total } => if s.phase == ScanImportPhase::Preparing {
            (
                ScanImportState { phase: ScanImportPhase::Persisting, prepared_total, ..s },
                seq![
                    (
                        IMPORT_STAGE_PREPARE@,
                        IMPORT_STAGE_STATUS_COMPLETED@,
                        prepared_total as nat,
                        at_least_one(s.candidate_total as nat),
                    ),
                    (IMPORT_STAGE_PERSIST@, IMPORT_STAGE_STATUS_RUNNING@, 0nat, at_least_one(prepared_total as nat)),
                ],
                Some(("importing"@, 92u8)),
                if prepared_total == 0 {
                    ImportWork::StoreNothing
                } else {
                    ImportWork::PersistTracks
                },
            )
        } else {
            unchanged
        },
        ScanImportEvent::Persisted { imported_total } => if s.phase == ScanImportPhase::Persisting {
            (
                ScanImportState { phase: ScanImportPhase::SyncingPlayback, imported_total, ..s },
                seq![
                    (
                        IMPORT_STAGE_PERSIST@,
                        if s.prepared_total == 0 {
                            IMPORT_STAGE_STATUS_SKIPPED@
                        } else {
                            IMPORT_STAGE_STATUS_COMPLETED@
                        },
                        imported_total as nat,
                        at_least_one(s.prepared_total as nat),
                    ),
                    (IMPORT_STAGE_PLAYBACK_SYNC@, IMPORT_STAGE_STATUS_RUNNING@, 0nat, at_least_one(imported_total as nat)),
                ],
                Some((
                    "importing"@,
                    if imported_total == 0 {
                        96u8
                    } else {
                        98u8
                    },
                )),
                ImportWork::SyncPlayback,
            )
        } else {
            unchanged
        },
        ScanImportEvent::PlaybackSynced => scan_step(s, e),
        ScanImportEvent::Failed => if s.phase != ScanImportPhase::Finished && s.phase
            != ScanImportPhase::Failed {
            (
                ScanImportState { phase: ScanImportPhase::Failed, ..s },
                Seq::<(Seq<char>, Seq<char>, nat, nat)>::empty(),
                None::<(Seq<char>, u8)>,
                ImportWork::Nothing,
            )
        } else {
            unchanged
        },
        ScanImportEvent::Discovered { .. } => unchanged,
    }
}

/// One step of an import of given files (see `file_step`).
pub fn file_import_step(state: &ScanImportState, event: ScanImportEvent) -> (r: (
    ScanImportState,
    ImportStepAction,
))
    ensures
        r.0 == file_step(*state, event).0,
        updates_view(r.1.stage_updates@) == file_step(*state, event).1,
        progress_view(r.1.progress) == file_step(*state, event).2,
        r.1.work == file_step(*state, event).3,
{
    let s = *state;
    let n = s.discovered_total;
    let mut updates: Vec<StageUpdate> = Vec::new();
    let unchanged = (s, ImportStepAction { stage_updates: Vec::new(), progress: None, work: ImportWork::Nothing });
    assert(updates_view(unchanged.1.stage_updates@) =~= Seq::<(Seq<char>, Seq<char>, nat, nat)>::empty());
    match event {
        ScanImportEvent::Begin => {
            if s.phase != ScanImportPhase::Created {
                return unchanged;
            }
            updates.push(update(IMPORT_STAGE_DISCOVER, IMPORT_STAGE_STATUS_SKIPPED, n, n));
            updates.push(update(IMPORT_STAGE_FILTER, IMPORT_STAGE_STATUS_RUNNING, 0, one_or_more(n)));
            assert(updates_view(updates@) =~= file_step(s, event).1);
            (
                ScanImportState { phase: ScanImportPhase::Filtering, ..s },
                ImportStepAction { stage_updates: updates, progress: report("preparing", 12), work: ImportWork::FilterCandidates },
            )
        },
        ScanImportEvent::Filtered { candidate_total } => {
            if s.phase != ScanImportPhase::Filtering {
                return unchanged;
            }
            updates.push(update(IMPORT_STAGE_FILTER, IMPORT_STAGE_STATUS_COMPLETED, n, one_or_more(n)));
            updates.push(update(IMPORT_STAGE_PREPARE, IMPORT_STAGE_STATUS_RUNNING, 0, one_or_more(candidate_total)));
            assert(updates_view(updates@) =~= file_step(s, event).1);
            (
                ScanImportState { phase: ScanImportPhase::Preparing, candidate_total, ..s },
                ImportStepAction { stage_updates: updates, progress: report("processing", 22), work: ImportWork::PrepareTracks },
            )
        },
        ScanImportEvent::Prepared { prepared_total } => {
            if s.phase != ScanImportPhase::Preparing {
                return unchanged;
            }
            updates.push(update(IMPORT_STAGE_PREPARE, IMPORT_STAGE_STATUS_COMPLETED, prepared_total, one_or_more(s.candidate_total)));
            updates.push(update(IMPORT_STAGE_PERSIST, IMPORT_STAGE_STATUS_RUNNING, 0, one_or_more(prepared_total)));
            assert(updates_view(updates@) =~= file_step(s, event).1);
            let work = if prepared_total == 0 {
                ImportWork::StoreNothing
            } else {
                ImportWork::PersistTracks
            };
            (
                ScanImportState { phase: ScanImportPhase::Persisting, prepared_total, ..s },
                ImportStepAction { stage_updates: updates, progress: report("importing", 92), work },
            )
        },
        ScanImportEvent::Persisted { imported_total } => {
            if s.phase != ScanImportPhase::Persisting {
                return unchanged;
            }
            let status = if s.prepared_total == 0 {
                IMPORT_STAGE_STATUS_SKIPPED
            } else {
                IMPORT_STAGE_STATUS_COMPLETED
            };
            updates.push(update(IMPORT_STAGE_PERSIST, status, imported_total, one_or_more(s.prepared_total)));
            updates.push(update(IMPORT_STAGE_PLAYBACK_SYNC, IMPORT_STAGE_STATUS_RUNNING, 0, one_or_more(imported_total)));
            assert(updates_view(updates@) =~= file_step(s, event).1);
            let percent: u8 = if imported_total == 0 {
                96
            } else {
                98
            };
            (
                ScanImportState { phase: ScanImportPhase::SyncingPlayback, imported_total, ..s },
                ImportStepAction { stage_updates: updates, progress: report("importing", percent), work: ImportWork::SyncPlayback },
            )
        },
        ScanImportEvent::PlaybackSynced => scan_import_step(state, event),
        ScanImportEvent::Failed => {
            if s.phase == ScanImportPhase::Finished || s.phase == ScanImportPhase::Failed {
                return unchanged;
            }
            assert(updates_view(updates@) =~= Seq::<(Seq<char>, Seq<char>, nat, nat)>::empty());
            (
                ScanImportState { phase: ScanImportPhase::Failed, ..s },
                ImportStepAction { stage_updates: updates, progress: None, work: ImportWork::Nothing },
            )
        },
        ScanImportEvent::Discovered { .. } => unchanged,
    }
}

/// A finished or failed import stays as it is: no event changes it or asks
/// for more work.
pub proof fn law_finished_imports_stay_finished(s: ScanImportState, e: ScanImportEvent)
    requires
        s.phase == ScanImportPhase::Finished || s.phase == ScanImportPhase::Failed,
    ensures
        scan_step(s, e).0 == s,
        scan_step(s, e).1.len() == 0,
        scan_step(s, e).2 is None,
        scan_step(s, e).3 == ImportWork::Nothing,
{
}

/// The percentage of a progress report, zero without one.
pub open spec fn reported_percent(p: Option<(Seq<char>, u8)>) -> u8 {
    match p {
        Some(r) => r.1,
        None => 0,
    }
}

/// The reported progress never goes back: when two steps in a row report
/// progress, the second percentage is at least the first.
pub proof fn law_progress_never_goes_back(s: ScanImportState, first: ScanImportEvent, second: ScanImportEvent)
    requires
        scan_step(s, first).2 is Some,
        scan_step(scan_step(s, first).0, second).2 is Some,
    ensures
        reported_percent(scan_step(s, first).2) <= reported_percent(
            scan_step(scan_step(s, first).0, second).2,
        ),
{
}

/// Without candidates, an import never prepares or stores tracks: it goes
/// straight to syncing playback and then finishes as empty.
pub proof fn law_no_candidates_finish_empty(s: ScanImportState)
    requires
        s.phase == ScanImportPhase::Filtering,
    ensures
        scan_step(s, ScanImportEvent::Filtered { candidate_total: 0 }).3 == ImportWork::SyncPlayback,
        scan_step(scan_step(s, ScanImportEvent::Filtered { candidate_total: 0 }).0, ScanImportEvent::PlaybackSynced).3
            == ImportWork::CompleteEmpty,
{
}

/// A finished or stopped import of given files stays as it is.
pub proof fn law_finished_file_imports_stay_finished(s: ScanImportState, e: ScanImportEvent)
    requires
        s.phase == ScanImportPhase::Finished || s.phase == ScanImportPhase::Failed,
    ensures
        file_step(s, e).0 == s,
        file_step(s, e).1.len() == 0,
        file_step(s, e).2 is None,
        file_step(s, e).3 == ImportWork::Nothing,
{
}

/// The progress reported for an import of given files never goes back.
pub proof fn law_file_progress_never_goes_back(s: ScanImportState, first: ScanImportEvent, second: ScanImportEvent)
    requires
        file_step(s, first).2 is Some,
        file_step(file_step(s, first).0, second).2 is Some,
    ensures
        reported_percent(file_step(s, first).2) <= reported_percent(
            file_step(file_step(s, first).0, second).2,
        ),
{
}

} // verus!
