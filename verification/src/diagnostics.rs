//! Process resource samples and the per-step profiles built from them.
use vstd::prelude::*;
use crate::text::to_owned;

verus! {

/// One sample of the process's CPU time, memory and handle counts.
#[derive(Debug, Clone, Default)]
pub struct ProcessResourceSnapshot {
    pub user_cpu_ms: u64,
    pub kernel_cpu_ms: u64,
    pub total_cpu_ms: u64,
    pub working_set_bytes: u64,
    pub private_bytes: u64,
    pub pagefile_bytes: u64,
    pub handle_count: u64,
}

/// Field-wise change between two samples.
#[derive(Debug, Clone, Default)]
pub struct ProcessResourceDelta {
    pub user_cpu_ms: i64,
    pub kernel_cpu_ms: i64,
    pub total_cpu_ms: i64,
    pub working_set_bytes: i64,
    pub private_bytes: i64,
    pub pagefile_bytes: i64,
    pub handle_count: i64,
}

/// The samples taken around a piece of work and their difference.
#[derive(Debug, Clone, Default)]
pub struct ProcessResourceDiagnostics {
    pub sampled: bool,
    pub start: Option<ProcessResourceSnapshot>,
    pub end: Option<ProcessResourceSnapshot>,
    pub delta: Option<ProcessResourceDelta>,
}

/// The cost of one named step.
#[derive(Debug, Clone, Default)]
pub struct DiagnosticStepProfile {
    pub key: String,
    pub elapsed_ms: u64,
    pub sampled: bool,
    pub user_cpu_ms: i64,
    pub kernel_cpu_ms: i64,
    pub total_cpu_ms: i64,
    pub working_set_bytes: u64,
    pub working_set_delta_bytes: i64,
    pub private_bytes: u64,
    pub private_delta_bytes: i64,
    pub pagefile_bytes: u64,
    pub pagefile_delta_bytes: i64,
    pub handle_count: u64,
    pub handle_delta: i64,
}

/// Where the diagnostics log lives.
#[derive(Debug, Clone)]
pub struct DiagnosticsLogStatus {
    pub path: String,
    pub directory: String,
    pub directory_kind: String,
    pub fallback_reason: Option<String>,
}

/// `end - start`, saturated to the `i64` range.
pub open spec fn delta_spec(end: u64, start: u64) -> i64 {
    if end >= start {
        if end - start <= i64::MAX {
            (end - start) as i64
        } else {
            i64::MAX
        }
    } else {
        if start - end <= i64::MAX {
            (-(start - end)) as i64
        } else {
            (-i64::MAX) as i64
        }
    }
}

/// `end - start`, saturated to `-i64::MAX..=i64::MAX`.
pub fn delta_i64(end: u64, start: u64) -> (r: i64)
    ensures
        r == delta_spec(end, start),
{
    if end >= start {
        let d = end - start;
        if d <= i64::MAX as u64 {
            d as i64
        } else {
            i64::MAX
        }
    } else {
        let d = start - end;
        if d <= i64::MAX as u64 {
            -(d as i64)
        } else {
            -i64::MAX
        }
    }
}

/// A copy of a sample.
pub fn copy_snapshot(s: &ProcessResourceSnapshot) -> (r: ProcessResourceSnapshot)
    ensures
        r == *s,
{
    ProcessResourceSnapshot {
        user_cpu_ms: s.user_cpu_ms,
        kernel_cpu_ms: s.kernel_cpu_ms,
        total_cpu_ms: s.total_cpu_ms,
        working_set_bytes: s.working_set_bytes,
        private_bytes: s.private_bytes,
        pagefile_bytes: s.pagefile_bytes,
        handle_count: s.handle_count,
    }
}

fn copy_optional_snapshot(s: Option<&ProcessResourceSnapshot>) -> (r: Option<
    ProcessResourceSnapshot,
>)
    ensures
        match s {
            Some(x) => r == Some(*x),
            None => r is None,
        },
{
    match s {
        Some(x) => Some(copy_snapshot(x)),
        None => None,
    }
}

/// The field-wise difference of two samples.
pub open spec fn delta_of(start: ProcessResourceSnapshot, end: ProcessResourceSnapshot) -> ProcessResourceDelta {
    ProcessResourceDelta {
        user_cpu_ms: delta_spec(end.user_cpu_ms, start.user_cpu_ms),
        kernel_cpu_ms: delta_spec(end.kernel_cpu_ms, start.kernel_cpu_ms),
        total_cpu_ms: delta_spec(end.total_cpu_ms, start.total_cpu_ms),
        working_set_bytes: delta_spec(end.working_set_bytes, start.working_set_bytes),
        private_bytes: delta_spec(end.private_bytes, start.private_bytes),
        pagefile_bytes: delta_spec(end.pagefile_bytes, start.pagefile_bytes),
        handle_count: delta_spec(end.handle_count, start.handle_count),
    }
}

/// The diagnostics for a piece of work sampled at `start` and `end`: it is
/// sampled, and has a delta, exactly when both samples are present.
pub fn build_process_resource_diagnostics(
    start: Option<&ProcessResourceSnapshot>,
    end: Option<&ProcessResourceSnapshot>,
) -> (r: ProcessResourceDiagnostics)
    ensures
        r.sampled == (start is Some && end is Some),
        r.start == match start {
            Some(x) => Some(*x),
            None => None::<ProcessResourceSnapshot>,
        },
        r.end == match end {
            Some(x) => Some(*x),
            None => None::<ProcessResourceSnapshot>,
        },
        r.delta == match (start, end) {
            (Some(s), Some(e)) => Some(delta_of(*s, *e)),
            _ => None::<ProcessResourceDelta>,
        },
{
    let sampled = start.is_some() && end.is_some();
    let delta = match (start, end) {
        (Some(s), Some(e)) => Some(
            ProcessResourceDelta {
                user_cpu_ms: delta_i64(e.user_cpu_ms, s.user_cpu_ms),
                kernel_cpu_ms: delta_i64(e.kernel_cpu_ms, s.kernel_cpu_ms),
                total_cpu_ms: delta_i64(e.total_cpu_ms, s.total_cpu_ms),
                working_set_bytes: delta_i64(e.working_set_bytes, s.working_set_bytes),
                private_bytes: delta_i64(e.private_bytes, s.private_bytes),
                pagefile_bytes: delta_i64(e.pagefile_bytes, s.pagefile_bytes),
                handle_count: delta_i64(e.handle_count, s.handle_count),
            },
        ),
        _ => None,
    };
    ProcessResourceDiagnostics {
        sampled,
        start: copy_optional_snapshot(start),
        end: copy_optional_snapshot(end),
        delta,
    }
}

/// A profile for step `key`: the end sample's levels (zero without one), and
/// deltas against the start sample when both samples are present (zero
/// otherwise).
pub fn build_diagnostic_step_profile(
    key: &str,
    elapsed_ms: u64,
    start: Option<&ProcessResourceSnapshot>,
    end: Option<&ProcessResourceSnapshot>,
) -> (r: DiagnosticStepProfile)
    ensures
        r.key@ == key@,
        r.elapsed_ms == elapsed_ms,
        r.sampled == (start is Some && end is Some),
        r.working_set_bytes == match end { Some(e) => e.working_set_bytes, None => 0 },
        r.private_bytes == match end { Some(e) => e.private_bytes, None => 0 },
        r.pagefile_bytes == match end { Some(e) => e.pagefile_bytes, None => 0 },
        r.handle_count == match end { Some(e) => e.handle_count, None => 0 },
        match (start, end) {
            (Some(s), Some(e)) => {
                let d = delta_of(*s, *e);
                &&& r.user_cpu_ms == d.user_cpu_ms
                &&& r.kernel_cpu_ms == d.kernel_cpu_ms
                &&& r.total_cpu_ms == d.total_cpu_ms
                &&& r.working_set_delta_bytes == d.working_set_bytes
                &&& r.private_delta_bytes == d.private_bytes
                &&& r.pagefile_delta_bytes == d.pagefile_bytes
                &&& r.handle_delta == d.handle_count
            },
            _ => {
                &&& r.user_cpu_ms == 0
                &&& r.kernel_cpu_ms == 0
                &&& r.total_cpu_ms == 0
                &&& r.working_set_delta_bytes == 0
                &&& r.private_delta_bytes == 0
                &&& r.pagefile_delta_bytes == 0
                &&& r.handle_delta == 0
            },
        },
{
    let sampled = start.is_some() && end.is_some();
    let (wb, pb, fb, hc) = match end {
        Some(e) => (e.working_set_bytes, e.private_bytes, e.pagefile_bytes, e.handle_count),
        None => (0, 0, 0, 0),
    };
    let d = match (start, end) {
        (Some(s), Some(e)) => (
            delta_i64(e.user_cpu_ms, s.user_cpu_ms),
            delta_i64(e.kernel_cpu_ms, s.kernel_cpu_ms),
            delta_i64(e.total_cpu_ms, s.total_cpu_ms),
            delta_i64(e.working_set_bytes, s.working_set_bytes),
            delta_i64(e.private_bytes, s.private_bytes),
            delta_i64(e.pagefile_bytes, s.pagefile_bytes),
            delta_i64(e.handle_count, s.handle_count),
        ),
        _ => (0, 0, 0, 0, 0, 0, 0),
    };
    DiagnosticStepProfile {
        key: to_owned(key),
        elapsed_ms,
        sampled,
        user_cpu_ms: d.0,
        kernel_cpu_ms: d.1,
        total_cpu_ms: d.2,
        working_set_bytes: wb,
        working_set_delta_bytes: d.3,
        private_bytes: pb,
        private_delta_bytes: d.4,
        pagefile_bytes: fb,
        pagefile_delta_bytes: d.5,
        handle_count: hc,
        handle_delta: d.6,
    }
}

} // verus!
