//! Library import jobs: their stages, progress, failure and final
//! diagnostics, and the bounded history of recent jobs.
use vstd::prelude::*;
use crate::clock::{current_iso_timestamp, new_uuid_v4};
use crate::diagnostics::{DiagnosticStepProfile, ProcessResourceDiagnostics};
use crate::text::{concat, str_eq, to_owned};

verus! {

pub const LIBRARY_SCAN_PROGRESS_EVENT: &'static str = "library://scan-progress";
pub const IMPORT_JOB_MAX_HISTORY: usize = 24;

pub const IMPORT_JOB_STATUS_QUEUED: &'static str = "queued";
pub const IMPORT_JOB_STATUS_RUNNING: &'static str = "running";
pub const IMPORT_JOB_STATUS_COMPLETED: &'static str = "completed";
pub const IMPORT_JOB_STATUS_EMPTY: &'static str = "empty";
pub const IMPORT_JOB_STATUS_FAILED: &'static str = "failed";

pub const IMPORT_STAGE_DISCOVER: &'static str = "discover";
pub const IMPORT_STAGE_FILTER: &'static str = "filter";
pub const IMPORT_STAGE_PREPARE: &'static str = "prepare";
pub const IMPORT_STAGE_PERSIST: &'static str = "persist";
pub const IMPORT_STAGE_PLAYBACK_SYNC: &'static str = "playbackSync";

pub const IMPORT_STAGE_STATUS_PENDING: &'static str = "pending";
pub const IMPORT_STAGE_STATUS_RUNNING: &'static str = "running";
pub const IMPORT_STAGE_STATUS_COMPLETED: &'static str = "completed";
pub const IMPORT_STAGE_STATUS_SKIPPED: &'static str = "skipped";
pub const IMPORT_STAGE_STATUS_FAILED: &'static str = "failed";

/// Timings and counts of one import.
#[derive(Debug, Clone, Default)]
pub struct LibraryImportDiagnostics {
    pub total_ms: u64,
    pub discover_ms: u64,
    pub filter_ms: u64,
    pub prepare_ms: u64,
    pub persist_ms: u64,
    pub playback_sync_ms: u64,
    pub copy_ms: u64,
    pub metadata_ms: u64,
    pub metadata_fallback_count: usize,
    pub directories_scanned: usize,
    pub entries_scanned: usize,
    pub discovered_total: usize,
    pub candidate_total: usize,
    pub imported_total: usize,
    pub process: ProcessResourceDiagnostics,
    pub step_profiles: Vec<DiagnosticStepProfile>,
}

/// One stage of an import job.
#[derive(Debug, Clone)]
pub struct LibraryImportJobStageSnapshot {
    pub key: String,
    pub status: String,
    pub started_at: Option<String>,
    pub completed_at: Option<String>,
    pub duration_ms: Option<u64>,
    pub processed: usize,
    pub total: usize,
}

/// An import job as the user interface sees it.
#[derive(Debug, Clone)]
pub struct LibraryImportJobSnapshot {
    pub id: String,
    pub mode: String,
    pub status: String,
    pub library_id: String,
    pub created_at: String,
    pub updated_at: String,
    pub completed_at: Option<String>,
    pub current_stage: String,
    pub discovered_total: usize,
    pub candidate_total: usize,
    pub imported_total: usize,
    pub directories_scanned: usize,
    pub entries_scanned: usize,
    pub current_file: String,
    pub error: Option<String>,
    pub diagnostics: Option<LibraryImportDiagnostics>,
    pub stages: Vec<LibraryImportJobStageSnapshot>,
}

/// The stage keys of every job, in order.
pub open spec fn stage_keys() -> Seq<Seq<char>> {
    seq![
        IMPORT_STAGE_DISCOVER@,
        IMPORT_STAGE_FILTER@,
        IMPORT_STAGE_PREPARE@,
        IMPORT_STAGE_PERSIST@,
        IMPORT_STAGE_PLAYBACK_SYNC@,
    ]
}

/// A stage that has not started.
pub open spec fn is_pending_stage(stage: LibraryImportJobStageSnapshot, key: Seq<char>) -> bool {
    &&& stage.key@ == key
    &&& stage.status@ == IMPORT_STAGE_STATUS_PENDING@
    &&& stage.started_at is None
    &&& stage.completed_at is None
    &&& stage.duration_ms is None
    &&& stage.processed == 0
    &&& stage.total == 0
}

/// `i` is the first stage with key `key`.
pub open spec fn is_first_key(stages: Seq<LibraryImportJobStageSnapshot>, key: Seq<char>, i: int) -> bool {
    &&& 0 <= i < stages.len()
    &&& stages[i].key@ == key
    &&& forall|j: int| 0 <= j < i ==> stages[j].key@ != key
}

/// No stage has key `key`.
pub open spec fn no_key(stages: Seq<LibraryImportJobStageSnapshot>, key: Seq<char>) -> bool {
    forall|j: int| 0 <= j < stages.len() ==> stages[j].key@ != key
}

/// The first stage with key `key`, if any.
pub open spec fn stage_for(stages: Seq<LibraryImportJobStageSnapshot>, key: Seq<char>) -> Option<
    LibraryImportJobStageSnapshot,
> {
    if exists|i: int| is_first_key(stages, key, i) {
        Some(stages[choose|i: int| is_first_key(stages, key, i)])
    } else {
        None
    }
}

/// A stage status that puts the job (back) into the running state.
pub open spec fn status_keeps_job_running(status: Seq<char>) -> bool {
    status == IMPORT_STAGE_STATUS_PENDING@ || status == IMPORT_STAGE_STATUS_RUNNING@
}

/// A stage status that marks the stage as started.
pub open spec fn status_starts_stage(status: Seq<char>) -> bool {
    status == IMPORT_STAGE_STATUS_RUNNING@ || status == IMPORT_STAGE_STATUS_COMPLETED@ || status
        == IMPORT_STAGE_STATUS_FAILED@
}

/// A stage status that marks the stage as finished.
pub open spec fn status_ends_stage(status: Seq<char>) -> bool {
    status == IMPORT_STAGE_STATUS_COMPLETED@ || status == IMPORT_STAGE_STATUS_SKIPPED@ || status
        == IMPORT_STAGE_STATUS_FAILED@
}

/// `after` is `before` moved to `status` with the given progress at `now`:
/// the start time is set the first time the stage starts, the completion
/// time each time it ends.
pub open spec fn stage_updated(
    before: LibraryImportJobStageSnapshot,
    after: LibraryImportJobStageSnapshot,
    status: Seq<char>,
    processed: usize,
    total: usize,
    duration_ms: Option<u64>,
    now: String,
) -> bool {
    &&& after.key == before.key
    &&& after.status@ == status
    &&& after.processed == processed
    &&& after.total == total
    &&& after.duration_ms == duration_ms
    &&& after.started_at == if status_starts_stage(status) && before.started_at is None {
        Some(now)
    } else {
        before.started_at
    }
    &&& after.completed_at == if status_ends_stage(status) {
        Some(now)
    } else {
        before.completed_at
    }
}

/// Everything of a job but its status, current stage, update time and
/// stages is the same in `a` and `b`.
pub open spec fn same_job_record(a: LibraryImportJobSnapshot, b: LibraryImportJobSnapshot) -> bool {
    &&& a.id == b.id
    &&& a.mode == b.mode
    &&& a.library_id == b.library_id
    &&& a.created_at == b.created_at
    &&& a.completed_at == b.completed_at
    &&& a.discovered_total == b.discovered_total
    &&& a.candidate_total == b.candidate_total
    &&& a.imported_total == b.imported_total
    &&& a.directories_scanned == b.directories_scanned
    &&& a.entries_scanned == b.entries_scanned
    &&& a.current_file == b.current_file
    &&& a.error == b.error
    &&& a.diagnostics == b.diagnostics
}

/// `after` is `before` with stage `key` moved to `status` at `now`.
pub open spec fn job_stage_updated(
    before: LibraryImportJobSnapshot,
    after: LibraryImportJobSnapshot,
    key: Seq<char>,
    status: Seq<char>,
    processed: usize,
    total: usize,
    duration_ms: Option<u64>,
    now: String,
) -> bool {
    &&& same_job_record(before, after)
    &&& after.status@ == if status_keeps_job_running(status) {
        IMPORT_JOB_STATUS_RUNNING@
    } else {
        before.status@
    }
    &&& after.current_stage@ == key
    &&& after.updated_at == now
    &&& after.stages@.len() == before.stages@.len()
    &&& forall|i: int|
        0 <= i < before.stages@.len() ==> if is_first_key(before.stages@, key, i) {
            stage_updated(
                before.stages@[i],
                #[trigger] after.stages@[i],
                status,
                processed,
                total,
                duration_ms,
                now,
            )
        } else {
            after.stages@[i] == before.stages@[i]
        }
}

/// `round((start + (end - start) * min(processed, total) / total))` in exact
/// arithmetic, halves rounded up; `end` when `total` is zero or the range is
/// empty or reversed.
pub open spec fn progress_percent_spec(range_start: u8, range_end: u8, processed: nat, total: nat) -> u8 {
    if total == 0 || range_end <= range_start {
        range_end
    } else {
        let p = if processed <= total {
            processed
        } else {
            total
        };
        let num = range_start * total + (range_end - range_start) * p;
        ((2 * num + total) / (2 * total as int)) as u8
    }
}

fn new_stage(key: &str) -> (r: LibraryImportJobStageSnapshot)
    ensures
        is_pending_stage(r, key@),
{
    LibraryImportJobStageSnapshot {
        key: to_owned(key),
        status: to_owned(IMPORT_STAGE_STATUS_PENDING),
        started_at: None,
        completed_at: None,
        duration_ms: None,
        processed: 0,
        total: 0,
    }
}

/// A fresh queued job with id `id`, created at `now`, all five stages
/// pending.
pub fn create_library_import_job_snapshot_with(
    mode: &str,
    library_id: &str,
    id: String,
    now: String,
) -> (r: LibraryImportJobSnapshot)
    ensures
        r.id == id,
        r.mode@ == mode@,
        r.status@ == IMPORT_JOB_STATUS_QUEUED@,
        r.library_id@ == library_id@,
        r.created_at == now,
        r.updated_at == now,
        r.completed_at is None,
        r.current_stage@.len() == 0,
        r.discovered_total == 0,
        r.candidate_total == 0,
        r.imported_total == 0,
        r.directories_scanned == 0,
        r.entries_scanned == 0,
        r.current_file@.len() == 0,
        r.error is None,
        r.diagnostics is None,
        r.stages@.len() == 5,
        forall|i: int| 0 <= i < 5 ==> is_pending_stage(#[trigger] r.stages@[i], stage_keys()[i]),
{
    let mut stages: Vec<LibraryImportJobStageSnapshot> = Vec::new();
    stages.push(new_stage(IMPORT_STAGE_DISCOVER));
    stages.push(new_stage(IMPORT_STAGE_FILTER));
    stages.push(new_stage(IMPORT_STAGE_PREPARE));
    stages.push(new_stage(IMPORT_STAGE_PERSIST));
    stages.push(new_stage(IMPORT_STAGE_PLAYBACK_SYNC));
    LibraryImportJobSnapshot {
        id,
        mode: to_owned(mode),
        status: to_owned(IMPORT_JOB_STATUS_QUEUED),
        library_id: to_owned(library_id),
        created_at: now.clone(),
        updated_at: now,
        completed_at: None,
        current_stage: String::new(),
        discovered_total: 0,
        candidate_total: 0,
        imported_total: 0,
        directories_scanned: 0,
        entries_scanned: 0,
        current_file: String::new(),
        error: None,
        diagnostics: None,
        stages,
    }
}

/// A fresh queued job under a new `import-job-<uuid>` id, created now.
pub fn create_library_import_job_snapshot(mode: &str, library_id: &str) -> (r:
    LibraryImportJobSnapshot)
    ensures
        r.mode@ == mode@,
        r.status@ == IMPORT_JOB_STATUS_QUEUED@,
        r.library_id@ == library_id@,
        r.created_at == r.updated_at,
        r.completed_at is None,
        r.stages@.len() == 5,
        forall|i: int| 0 <= i < 5 ==> is_pending_stage(#[trigger] r.stages@[i], stage_keys()[i]),
        crate::text::has_prefix(r.id@, "import-job-"@),
{
    let uuid = new_uuid_v4();
    let id = concat("import-job-", uuid.as_str());
    proof {
        reveal_strlit("import-job-");
        assert(id@.subrange(0, 11) =~= "import-job-"@);
    }
    create_library_import_job_snapshot_with(mode, library_id, id, current_iso_timestamp())
}

fn find_stage_index(stages: &Vec<LibraryImportJobStageSnapshot>, key: &str) -> (r: Option<usize>)
    ensures
        match r {
            Some(i) => is_first_key(stages@, key@, i as int),
            None => no_key(stages@, key@),
        },
{
    let mut i: usize = 0;
    while i < stages.len()
        invariant
            i <= stages@.len(),
            forall|j: int| 0 <= j < i ==> stages@[j].key@ != key@,
        decreases stages@.len() - i,
    {
        if str_eq(stages[i].key.as_str(), key) {
            return Some(i);
        }
        i += 1;
    }
    None
}

proof fn lemma_first_key_unique(
    stages: Seq<LibraryImportJobStageSnapshot>,
    key: Seq<char>,
    i: int,
    j: int,
)
    requires
        is_first_key(stages, key, i),
        is_first_key(stages, key, j),
    ensures
        i == j,
{
}

proof fn lemma_stage_for(stages: Seq<LibraryImportJobStageSnapshot>, key: Seq<char>, i: int)
    requires
        is_first_key(stages, key, i),
    ensures
        stage_for(stages, key) == Some(stages[i]),
{
    let c = choose|k: int| is_first_key(stages, key, k);
    lemma_first_key_unique(stages, key, i, c);
}

fn clone_opt_u64_string(s: &Option<String>) -> (r: Option<String>)
    ensures
        r == *s,
{
    match s {
        Some(v) => Some(v.clone()),
        None => None,
    }
}

fn clone_stage(s: &LibraryImportJobStageSnapshot) -> (r: LibraryImportJobStageSnapshot)
    ensures
        r == *s,
{
    LibraryImportJobStageSnapshot {
        key: s.key.clone(),
        status: s.status.clone(),
        started_at: clone_opt_u64_string(&s.started_at),
        completed_at: clone_opt_u64_string(&s.completed_at),
        duration_ms: s.duration_ms,
        processed: s.processed,
        total: s.total,
    }
}

/// A copy of the first stage with key `stage_key`, if the job has one.
pub fn find_job_stage(snapshot: &LibraryImportJobSnapshot, stage_key: &str) -> (r: Option<
    LibraryImportJobStageSnapshot,
>)
    ensures
        r == stage_for(snapshot.stages@, stage_key@),
{
    match find_stage_index(&snapshot.stages, stage_key) {
        Some(i) => {
            proof {
                lemma_stage_for(snapshot.stages@, stage_key@, i as int);
            }
            Some(clone_stage(&snapshot.stages[i]))
        },
        None => None,
    }
}

/// Moves stage `stage_key` of the job to `stage_status` with the given
/// progress, at `now`. A pending or running stage puts the job into the
/// running state; the job's current stage becomes `stage_key`. A job
/// without such a stage only has its status, current stage and update time
/// changed.
pub fn update_library_import_job_stage_at(
    snapshot: &mut LibraryImportJobSnapshot,
    stage_key: &str,
    stage_status: &str,
    processed: usize,
    total: usize,
    duration_ms: Option<u64>,
    now: String,
)
    ensures
        job_stage_updated(
            *old(snapshot),
            *final(snapshot),
            stage_key@,
            stage_status@,
            processed,
            total,
            duration_ms,
            now,
        ),
{
    proof {
        reveal_strlit("pending");
        reveal_strlit("running");
        reveal_strlit("completed");
        reveal_strlit("skipped");
        reveal_strlit("failed");
    }
    if str_eq(stage_status, IMPORT_STAGE_STATUS_PENDING) || str_eq(
        stage_status,
        IMPORT_STAGE_STATUS_RUNNING,
    ) {
        snapshot.status = to_owned(IMPORT_JOB_STATUS_RUNNING);
    }
    snapshot.current_stage = to_owned(stage_key);
    snapshot.updated_at = now.clone();
    match find_stage_index(&snapshot.stages, stage_key) {
        Some(i) => {
            let mut stage = clone_stage(&snapshot.stages[i]);
            let starts = str_eq(stage_status, IMPORT_STAGE_STATUS_RUNNING) || str_eq(
                stage_status,
                IMPORT_STAGE_STATUS_COMPLETED,
            ) || str_eq(stage_status, IMPORT_STAGE_STATUS_FAILED);
            if starts && stage.started_at.is_none() {
                stage.started_at = Some(now.clone());
            }
            let ends = str_eq(stage_status, IMPORT_STAGE_STATUS_COMPLETED) || str_eq(
                stage_status,
                IMPORT_STAGE_STATUS_SKIPPED,
            ) || str_eq(stage_status, IMPORT_STAGE_STATUS_FAILED);
            if ends {
                stage.completed_at = Some(now);
            }
            stage.status = to_owned(stage_status);
            stage.processed = processed;
            stage.total = total;
            stage.duration_ms = duration_ms;
            let ghost before = snapshot.stages@;
            snapshot.stages.set(i, stage);
            assert forall|k: int| 0 <= k < before.len() implies (if is_first_key(
                before,
                stage_key@,
                k,
            ) {
                stage_updated(
                    before[k],
                    #[trigger] snapshot.stages@[k],
                    stage_status@,
                    processed,
                    total,
                    duration_ms,
                    now,
                )
            } else {
                snapshot.stages@[k] == before[k]
            }) by {
                if is_first_key(before, stage_key@, k) {
                    lemma_first_key_unique(before, stage_key@, i as int, k);
                }
            }
        },
        None => {},
    }
}

/// Moves a stage at the current time.
pub fn update_library_import_job_stage(
    snapshot: &mut LibraryImportJobSnapshot,
    stage_key: &str,
    stage_status: &str,
    processed: usize,
    total: usize,
    duration_ms: Option<u64>,
)
    ensures
        exists|now: String|
            job_stage_updated(
                *old(snapshot),
                *final(snapshot),
                stage_key@,
                stage_status@,
                processed,
                total,
                duration_ms,
                now,
            ),
{
    let now = current_iso_timestamp();
    update_library_import_job_stage_at(
        snapshot,
        stage_key,
        stage_status,
        processed,
        total,
        duration_ms,
        now,
    );
}

/// Ends the job at `now` with `status`, `diagnostics` and `error`: the
/// job's totals are taken from the diagnostics and its current file is
/// cleared.
pub fn finalize_library_import_job_at(
    snapshot: &mut LibraryImportJobSnapshot,
    status: &str,
    diagnostics: LibraryImportDiagnostics,
    error: Option<String>,
    now: String,
)
    ensures
        final(snapshot).status@ == status@,
        final(snapshot).updated_at == now,
        final(snapshot).completed_at == Some(now),
        final(snapshot).error == error,
        final(snapshot).diagnostics == Some(diagnostics),
        final(snapshot).discovered_total == diagnostics.discovered_total,
        final(snapshot).candidate_total == diagnostics.candidate_total,
        final(snapshot).imported_total == diagnostics.imported_total,
        final(snapshot).directories_scanned == diagnostics.directories_scanned,
        final(snapshot).entries_scanned == diagnostics.entries_scanned,
        final(snapshot).current_file@.len() == 0,
        final(snapshot).id == old(snapshot).id,
        final(snapshot).mode == old(snapshot).mode,
        final(snapshot).library_id == old(snapshot).library_id,
        final(snapshot).created_at == old(snapshot).created_at,
        final(snapshot).current_stage == old(snapshot).current_stage,
        final(snapshot).stages == old(snapshot).stages,
{
    snapshot.status = to_owned(status);
    snapshot.updated_at = now.clone();
    snapshot.completed_at = Some(now);
    snapshot.error = error;
    snapshot.discovered_total = diagnostics.discovered_total;
    snapshot.candidate_total = diagnostics.candidate_total;
    snapshot.imported_total = diagnostics.imported_total;
    snapshot.directories_scanned = diagnostics.directories_scanned;
    snapshot.entries_scanned = diagnostics.entries_scanned;
    snapshot.diagnostics = Some(diagnostics);
    snapshot.current_file = String::new();
}

/// Ends the job at the current time.
pub fn finalize_library_import_job(
    snapshot: &mut LibraryImportJobSnapshot,
    status: &str,
    diagnostics: LibraryImportDiagnostics,
    error: Option<String>,
)
    ensures
        final(snapshot).status@ == status@,
        final(snapshot).completed_at == Some(final(snapshot).updated_at),
        final(snapshot).error == error,
        final(snapshot).diagnostics == Some(diagnostics),
        final(snapshot).discovered_total == diagnostics.discovered_total,
        final(snapshot).candidate_total == diagnostics.candidate_total,
        final(snapshot).imported_total == diagnostics.imported_total,
        final(snapshot).directories_scanned == diagnostics.directories_scanned,
        final(snapshot).entries_scanned == diagnostics.entries_scanned,
        final(snapshot).current_file@.len() == 0,
        final(snapshot).id == old(snapshot).id,
        final(snapshot).stages == old(snapshot).stages,
{
    let now = current_iso_timestamp();
    finalize_library_import_job_at(snapshot, status, diagnostics, error, now);
}

/// The percentage for `processed` of `total` items within the range
/// `range_start..=range_end`, rounded to the nearest whole percent.
pub fn progress_percent(range_start: u8, range_end: u8, processed: usize, total: usize) -> (r: u8)
    ensures
        r == progress_percent_spec(range_start, range_end, processed as nat, total as nat),
{
    if total == 0 || range_end <= range_start {
        return range_end;
    }
    let t = total as u128;
    let p: u128 = if processed <= total {
        processed as u128
    } else {
        t
    };
    let span = (range_end - range_start) as u128;
    proof {
        lemma_percent_bounds(range_start as int, span as int, p as int, t as int);
    }
    let num = (range_start as u128) * t + span * p;
    let r = (2 * num + t) / (2 * t);
    r as u8
}

proof fn lemma_percent_bounds(start: int, span: int, p: int, t: int)
    requires
        0 <= start,
        0 <= span,
        start + span <= 255,
        0 <= p <= t,
        t > 0,
        t <= u64::MAX,
    ensures
        0 <= start * t + span * p <= 255 * t,
        (2 * (start * t + span * p) + t) / (2 * t) <= 255,
{
    assert(span * p <= span * t) by (nonlinear_arith)
        requires
            0 <= span,
            0 <= p <= t,
    ;
    assert(start * t + span * t == (start + span) * t) by (nonlinear_arith);
    assert((start + span) * t <= 255 * t) by (nonlinear_arith)
        requires
            start + span <= 255,
            t > 0,
    ;
    assert(0 <= start * t) by (nonlinear_arith)
        requires
            0 <= start,
            t > 0,
    ;
    assert(0 <= span * p) by (nonlinear_arith)
        requires
            0 <= span,
            0 <= p,
    ;
    let x = 2 * (start * t + span * p) + t;
    assert(x < 256 * (2 * t));
    assert(x / (2 * t) < 256) by (nonlinear_arith)
        requires
            0 <= x < 256 * (2 * t),
            t > 0,
    ;
}

fn first_pending_index(stages: &Vec<LibraryImportJobStageSnapshot>) -> (r: Option<usize>)
    ensures
        match r {
            Some(k) => first_pending(stages@) == Some(k as int) && k < stages@.len(),
            None => first_pending(stages@) is None,
        },
{
    proof {
        reveal_strlit("pending");
    }
    let mut i: usize = 0;
    while i < stages.len()
        invariant
            i <= stages@.len(),
            forall|j: int| 0 <= j < i ==> stages@[j].status@ != IMPORT_STAGE_STATUS_PENDING@,
        decreases stages@.len() - i,
    {
        if str_eq(stages[i].status.as_str(), IMPORT_STAGE_STATUS_PENDING) {
            proof {
                lemma_first_pending(stages@, i as int);
            }
            return Some(i);
        }
        i += 1;
    }
    proof {
        lemma_no_pending(stages@);
    }
    None
}

/// Marks the job's current stage failed at `now` (or, when no stage has
/// started, the first pending one, else `filter`), keeping that stage's
/// progress and duration.
pub fn mark_library_import_job_failed_at(snapshot: &mut LibraryImportJobSnapshot, now: String)
    ensures
        job_failed_at(*old(snapshot), *final(snapshot), now),
{
    let stage_key = if snapshot.current_stage.as_str().is_empty() {
        let found = first_pending_index(&snapshot.stages);
        match found {
            Some(k) => snapshot.stages[k].key.clone(),
            None => to_owned(IMPORT_STAGE_FILTER),
        }
    } else {
        snapshot.current_stage.clone()
    };
    let failed = find_job_stage(snapshot, stage_key.as_str());
    let processed = match &failed {
        Some(s) => s.processed,
        None => 0,
    };
    let total = match &failed {
        Some(s) => s.total,
        None => 0,
    };
    let duration = match &failed {
        Some(s) => s.duration_ms,
        None => None,
    };
    update_library_import_job_stage_at(
        snapshot,
        stage_key.as_str(),
        IMPORT_STAGE_STATUS_FAILED,
        processed,
        total,
        duration,
        now,
    );
}

/// The index of the first pending stage.
pub open spec fn first_pending(stages: Seq<LibraryImportJobStageSnapshot>) -> Option<int> {
    if exists|i: int|
        0 <= i < stages.len() && stages[i].status@ == IMPORT_STAGE_STATUS_PENDING@ && forall|j: int|
            0 <= j < i ==> stages[j].status@ != IMPORT_STAGE_STATUS_PENDING@ {
        Some(
            choose|i: int|
                0 <= i < stages.len() && stages[i].status@ == IMPORT_STAGE_STATUS_PENDING@
                    && forall|j: int| 0 <= j < i ==> stages[j].status@ != IMPORT_STAGE_STATUS_PENDING@,
        )
    } else {
        None
    }
}

proof fn lemma_first_pending(stages: Seq<LibraryImportJobStageSnapshot>, k: int)
    requires
        0 <= k < stages.len(),
        stages[k].status@ == IMPORT_STAGE_STATUS_PENDING@,
        forall|j: int| 0 <= j < k ==> stages[j].status@ != IMPORT_STAGE_STATUS_PENDING@,
    ensures
        first_pending(stages) == Some(k),
{
    let c = choose|i: int|
        0 <= i < stages.len() && stages[i].status@ == IMPORT_STAGE_STATUS_PENDING@ && forall|j: int|
            0 <= j < i ==> stages[j].status@ != IMPORT_STAGE_STATUS_PENDING@;
    if c < k {
        assert(stages[c].status@ != IMPORT_STAGE_STATUS_PENDING@);
    } else if c > k {
        assert(stages[k].status@ != IMPORT_STAGE_STATUS_PENDING@);
    }
}

proof fn lemma_no_pending(stages: Seq<LibraryImportJobStageSnapshot>)
    requires
        forall|j: int| 0 <= j < stages.len() ==> stages[j].status@ != IMPORT_STAGE_STATUS_PENDING@,
    ensures
        first_pending(stages) is None,
{
}

/// The stage a failure is booked against: the current stage, or when the
/// job has none the first pending stage, or `filter`.
pub open spec fn failed_stage_key(job: LibraryImportJobSnapshot) -> Seq<char> {
    if job.current_stage@.len() > 0 {
        job.current_stage@
    } else {
        match first_pending(job.stages@) {
            Some(i) => job.stages@[i].key@,
            None => IMPORT_STAGE_FILTER@,
        }
    }
}

/// `after` is `before` with its failed stage (see `failed_stage_key`) moved
/// to `failed` at `now`, keeping that stage's progress and duration.
pub open spec fn job_failed_at(
    before: LibraryImportJobSnapshot,
    after: LibraryImportJobSnapshot,
    now: String,
) -> bool {
    let key = failed_stage_key(before);
    let st = stage_for(before.stages@, key);
    job_stage_updated(
        before,
        after,
        key,
        IMPORT_STAGE_STATUS_FAILED@,
        match st {
            Some(s) => s.processed,
            None => 0,
        },
        match st {
            Some(s) => s.total,
            None => 0,
        },
        match st {
            Some(s) => s.duration_ms,
            None => None,
        },
        now,
    )
}

/// Marks the job's current stage failed at the current time.
pub fn mark_library_import_job_failed(snapshot: &mut LibraryImportJobSnapshot)
    ensures
        exists|now: String| job_failed_at(*old(snapshot), *final(snapshot), now),
{
    let now = current_iso_timestamp();
    mark_library_import_job_failed_at(snapshot, now);
}

/// The duration recorded for stage `key`, zero when there is none.
pub open spec fn stage_duration(job: LibraryImportJobSnapshot, key: Seq<char>) -> u64 {
    match stage_for(job.stages@, key) {
        Some(s) => match s.duration_ms {
            Some(d) => d,
            None => 0,
        },
        None => 0,
    }
}

fn stage_duration_of(snapshot: &LibraryImportJobSnapshot, key: &str) -> (r: u64)
    ensures
        r == stage_duration(*snapshot, key@),
{
    match find_job_stage(snapshot, key) {
        Some(s) => match s.duration_ms {
            Some(d) => d,
            None => 0,
        },
        None => 0,
    }
}

/// The diagnostics of a job: stage durations from its stages, copy and
/// metadata figures from its earlier diagnostics (zero without them), totals
/// from the job.
pub fn build_library_import_diagnostics_from_job(
    snapshot: &LibraryImportJobSnapshot,
    total_ms: u64,
    process: ProcessResourceDiagnostics,
    step_profiles: Vec<DiagnosticStepProfile>,
) -> (r: LibraryImportDiagnostics)
    ensures
        r.total_ms == total_ms,
        r.discover_ms == stage_duration(*snapshot, IMPORT_STAGE_DISCOVER@),
        r.filter_ms == stage_duration(*snapshot, IMPORT_STAGE_FILTER@),
        r.prepare_ms == stage_duration(*snapshot, IMPORT_STAGE_PREPARE@),
        r.persist_ms == stage_duration(*snapshot, IMPORT_STAGE_PERSIST@),
        r.playback_sync_ms == stage_duration(*snapshot, IMPORT_STAGE_PLAYBACK_SYNC@),
        r.copy_ms == match snapshot.diagnostics {
            Some(d) => d.copy_ms,
            None => 0,
        },
        r.metadata_ms == match snapshot.diagnostics {
            Some(d) => d.metadata_ms,
            None => 0,
        },
        r.metadata_fallback_count == match snapshot.diagnostics {
            Some(d) => d.metadata_fallback_count,
            None => 0,
        },
        r.directories_scanned == snapshot.directories_scanned,
        r.entries_scanned == snapshot.entries_scanned,
        r.discovered_total == snapshot.discovered_total,
        r.candidate_total == snapshot.candidate_total,
        r.imported_total == snapshot.imported_total,
        r.process == process,
        r.step_profiles == step_profiles,
{
    let (copy_ms, metadata_ms, metadata_fallback_count) = match &snapshot.diagnostics {
        Some(d) => (d.copy_ms, d.metadata_ms, d.metadata_fallback_count),
        None => (0, 0, 0),
    };
    LibraryImportDiagnostics {
        total_ms,
        discover_ms: stage_duration_of(snapshot, IMPORT_STAGE_DISCOVER),
        filter_ms: stage_duration_of(snapshot, IMPORT_STAGE_FILTER),
        prepare_ms: stage_duration_of(snapshot, IMPORT_STAGE_PREPARE),
        persist_ms: stage_duration_of(snapshot, IMPORT_STAGE_PERSIST),
        playback_sync_ms: stage_duration_of(snapshot, IMPORT_STAGE_PLAYBACK_SYNC),
        copy_ms,
        metadata_ms,
        metadata_fallback_count,
        directories_scanned: snapshot.directories_scanned,
        entries_scanned: snapshot.entries_scanned,
        discovered_total: snapshot.discovered_total,
        candidate_total: snapshot.candidate_total,
        imported_total: snapshot.imported_total,
        process,
        step_profiles,
    }
}

/// The ids of a sequence of jobs.
pub open spec fn job_ids(jobs: Seq<LibraryImportJobSnapshot>) -> Seq<Seq<char>> {
    jobs.map_values(|j: LibraryImportJobSnapshot| j.id@)
}

/// The recent import jobs, oldest first, at most `IMPORT_JOB_MAX_HISTORY`
/// of them and each id once.
#[derive(Debug)]
pub struct LibraryImportJobStore {
    jobs: Vec<LibraryImportJobSnapshot>,
}

impl LibraryImportJobStore {
    /// The jobs, oldest first.
    pub closed spec fn history(&self) -> Seq<LibraryImportJobSnapshot> {
        self.jobs@
    }

    /// At most `IMPORT_JOB_MAX_HISTORY` jobs, each id once.
    pub open spec fn wf(&self) -> bool {
        &&& self.history().len() <= IMPORT_JOB_MAX_HISTORY
        &&& job_ids(self.history()).no_duplicates()
    }

    /// An empty history.
    pub fn new() -> (r: Self)
        ensures
            r.wf(),
            r.history() == Seq::<LibraryImportJobSnapshot>::empty(),
    {
        let r = LibraryImportJobStore { jobs: Vec::new() };
        assert(job_ids(r.history()) =~= Seq::<Seq<char>>::empty());
        r
    }

    /// Stores `snapshot`: a job already kept is replaced where it stands; a
    /// new one is appended, and the oldest job leaves when there are more
    /// than `IMPORT_JOB_MAX_HISTORY`.
    pub fn insert(&mut self, snapshot: LibraryImportJobSnapshot)
        requires
            old(self).wf(),
        ensures
            final(self).wf(),
            job_ids(old(self).history()).contains(snapshot.id@) ==> {
                &&& final(self).history().len() == old(self).history().len()
                &&& forall|i: int|
                    0 <= i < old(self).history().len() ==> #[trigger] final(self).history()[i]
                        == if old(self).history()[i].id@ == snapshot.id@ {
                        snapshot
                    } else {
                        old(self).history()[i]
                    }
            },
            !job_ids(old(self).history()).contains(snapshot.id@) ==> {
                let grown = old(self).history().push(snapshot);
                final(self).history() == if grown.len() > IMPORT_JOB_MAX_HISTORY {
                    grown.drop_first()
                } else {
                    grown
                }
            },
    {
        let mut i: usize = 0;
        while i < self.jobs.len()
            invariant
                i <= self.jobs@.len(),
                self.wf(),
                self == old(self),
                forall|k: int| 0 <= k < i ==> self.jobs@[k].id@ != snapshot.id@,
            decreases self.jobs@.len() - i,
        {
            if str_eq(self.jobs[i].id.as_str(), snapshot.id.as_str()) {
                let ghost before = self.jobs@;
                proof {
                    assert(job_ids(before)[i as int] == snapshot.id@);
                    assert forall|k: int| 0 <= k < before.len() && k != i implies before[k].id@
                        != snapshot.id@ by {
                        assert(job_ids(before)[k] == before[k].id@);
                    }
                }
                self.jobs.set(i, snapshot);
                assert(job_ids(self.jobs@) =~= job_ids(before));
                return ;
            }
            i += 1;
        }
        assert(!job_ids(self.jobs@).contains(snapshot.id@)) by {
            if job_ids(self.jobs@).contains(snapshot.id@) {
                let k = choose|k: int| 0 <= k < job_ids(self.jobs@).len() && job_ids(self.jobs@)[k] == snapshot.id@;
                assert(self.jobs@[k].id@ == snapshot.id@);
            }
        }
        let ghost before = self.jobs@;
        self.jobs.push(snapshot);
        assert(job_ids(self.jobs@) =~= job_ids(before).push(snapshot.id@));
        if self.jobs.len() > IMPORT_JOB_MAX_HISTORY {
            let ghost grown = self.jobs@;
            self.jobs.remove(0);
            assert(self.jobs@ =~= grown.drop_first());
            assert(job_ids(self.jobs@) =~= job_ids(grown).drop_first());
        }
    }

    /// Forgets every job.
    pub fn clear(&mut self)
        ensures
            final(self).wf(),
            final(self).history() == Seq::<LibraryImportJobSnapshot>::empty(),
    {
        self.jobs = Vec::new();
        assert(job_ids(self.jobs@) =~= Seq::<Seq<char>>::empty());
    }

    /// How many jobs are kept.
    pub fn len(&self) -> (r: usize)
        ensures
            r == self.history().len(),
    {
        self.jobs.len()
    }

    /// Whether a job with id `id` is kept.
    pub fn contains_job(&self, id: &str) -> (r: bool)
        ensures
            r == job_ids(self.history()).contains(id@),
    {
        let mut i: usize = 0;
        while i < self.jobs.len()
            invariant
                i <= self.jobs@.len(),
                forall|k: int| 0 <= k < i ==> self.jobs@[k].id@ != id@,
            decreases self.jobs@.len() - i,
        {
            if str_eq(self.jobs[i].id.as_str(), id) {
                assert(job_ids(self.jobs@)[i as int] == id@);
                return true;
            }
            i += 1;
        }
        assert(!job_ids(self.jobs@).contains(id@)) by {
            if job_ids(self.jobs@).contains(id@) {
                let k = choose|k: int| 0 <= k < job_ids(self.jobs@).len() && job_ids(self.jobs@)[k] == id@;
                assert(self.jobs@[k].id@ == id@);
            }
        }
        false
    }
}

impl Default for LibraryImportJobStore {
    fn default() -> (r: Self)
        ensures
            r.wf(),
            r.history() == Seq::<LibraryImportJobSnapshot>::empty(),
    {
        LibraryImportJobStore::new()
    }
}

/// Moving a stage never changes the job's totals, identity or outcome: they
/// change only when the job is finalized.
pub proof fn law_stage_updates_preserve_job_totals(
    before: LibraryImportJobSnapshot,
    after: LibraryImportJobSnapshot,
    key: Seq<char>,
    status: Seq<char>,
    processed: usize,
    total: usize,
    duration_ms: Option<u64>,
    now: String,
)
    requires
        job_stage_updated(before, after, key, status, processed, total, duration_ms, now),
    ensures
        after.discovered_total == before.discovered_total,
        after.candidate_total == before.candidate_total,
        after.imported_total == before.imported_total,
        after.directories_scanned == before.directories_scanned,
        after.entries_scanned == before.entries_scanned,
        after.id == before.id,
        after.completed_at == before.completed_at,
        after.error == before.error,
{
}

/// A stage's start time, once set, is never moved by later updates; and a
/// stage that ends always carries a completion time.
pub proof fn law_stage_start_time_is_kept(
    before: LibraryImportJobStageSnapshot,
    after: LibraryImportJobStageSnapshot,
    status: Seq<char>,
    processed: usize,
    total: usize,
    duration_ms: Option<u64>,
    now: String,
)
    requires
        stage_updated(before, after, status, processed, total, duration_ms, now),
    ensures
        before.started_at is Some ==> after.started_at == before.started_at,
        status_ends_stage(status) ==> after.completed_at is Some,
        status_starts_stage(status) ==> after.started_at is Some,
{
}

/// The percentage always lies between the range's ends, starts at
/// `range_start` with nothing processed and reaches `range_end` when all is
/// processed.
pub proof fn law_progress_within_range(range_start: u8, range_end: u8, processed: nat, total: nat)
    requires
        range_start <= range_end,
    ensures
        range_start <= progress_percent_spec(range_start, range_end, processed, total) <= range_end,
        total > 0 ==> progress_percent_spec(range_start, range_end, 0, total) == range_start,
        processed >= total ==> progress_percent_spec(range_start, range_end, processed, total)
            == range_end,
{
    if total > 0 && range_end > range_start {
        let p = if processed <= total {
            processed
        } else {
            total
        };
        let span = range_end - range_start;
        let num = range_start * total + span * p;
        assert(range_start * total <= num <= range_end * total) by (nonlinear_arith)
            requires
                num == range_start * total + span * p,
                0 <= p <= total,
                span == range_end - range_start,
                span >= 0,
        ;
        assert((2 * num + total) / (2 * total as int) >= range_start) by (nonlinear_arith)
            requires
                num >= range_start * total,
                total > 0,
        ;
        assert((2 * num + total) / (2 * total as int) <= range_end) by (nonlinear_arith)
            requires
                num <= range_end * total,
                total > 0,
        ;
        let span0 = range_end - range_start;
        assert(span0 * 0 == 0);
        assert((2 * (range_start * total + span0 * 0) + total) / (2 * total as int) == range_start)
            by (nonlinear_arith)
            requires
                total > 0,
                span0 * 0 == 0,
        ;
        if processed >= total {
            assert(num == range_end * total) by (nonlinear_arith)
                requires
                    num == range_start * total + span * p,
                    p == total,
                    span == range_end - range_start,
            ;
            assert((2 * num + total) / (2 * total as int) == range_end) by (nonlinear_arith)
                requires
                    num == range_end * total,
                    total > 0,
            ;
        }
    }
}

} // verus!
