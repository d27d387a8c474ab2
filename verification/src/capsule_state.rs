//! The lyric capsule's sender state: its sequence numbers, the backpressure
//! windows opened by slow sends, and the ring of send diagnostics.
use vstd::prelude::*;
use crate::capsule_artwork_cache::CapsuleArtworkRef;
use crate::text::{contains, to_owned, trim, trim_seq};
pub use crate::clock::now_ms;

verus! {

pub const CAPSULE_LABEL: &'static str = "lyric-capsule";
pub const CAPSULE_STATE_EVENT: &'static str = "capsule://state";
pub const CAPSULE_PROGRESS_ANCHOR_EVENT: &'static str = "capsule://progress-anchor";
pub const CAPSULE_DIAGNOSTICS_VERSION: &'static str = "2026-05-09.3";
pub const CAPSULE_DIAGNOSTICS_RING_LIMIT: usize = 96;
pub const CAPSULE_PRESSURED_MS: u64 = 2000;
pub const CAPSULE_DEGRADED_MS: u64 = 5000;
pub const CAPSULE_PAUSED_MS: u64 = 5000;
pub const CAPSULE_SLOW_SEND_MS: u64 = 50;
pub const CAPSULE_PRESSURED_SEND_MS: u64 = 100;
pub const CAPSULE_DEGRADED_SEND_MS: u64 = 500;
pub const CAPSULE_PAUSED_SEND_MS: u64 = 1500;
pub const CAPSULE_LARGE_PAYLOAD_BYTES: usize = 16384;
pub const CAPSULE_SLOW_ARTWORK_CACHE_MS: u64 = 100;
pub const CAPSULE_MAX_TEXT_CHARS: usize = 180;
pub const CAPSULE_TIMELINE_MAX_TEXT_CHARS: usize = 120;
pub const CAPSULE_DEFAULT_TITLE: &'static str = "Music is ready";
pub const CAPSULE_DEFAULT_ARTIST: &'static str = "OFPlayer";

/// How hard the capsule's receiver is pushing back.
#[derive(Debug, Clone, Copy, PartialEq, Eq, Structural)]
pub enum CapsuleBackpressureMode {
    Normal,
    Pressured,
    Degraded,
    Paused,
}

/// The backpressure mode at some moment and the windows behind it.
#[derive(Debug, Clone, Copy)]
pub struct CapsuleBackpressureSnapshot {
    pub mode: CapsuleBackpressureMode,
    pub pressure_until_ms: u64,
    pub degraded_until_ms: u64,
    pub paused_until_ms: u64,
}

/// One slow, large, failed or otherwise notable send.
#[derive(Debug, Clone)]
pub struct CapsuleDiagnosticEntry {
    pub timestamp_ms: u64,
    pub event: String,
    pub send_kind: String,
    pub elapsed_ms: u64,
    pub payload_bytes: usize,
    pub ok: bool,
    pub mode: CapsuleBackpressureMode,
}

/// What a drain of the diagnostics ring reports.
#[derive(Debug, Clone)]
pub struct CapsuleDiagnosticsSummary {
    pub diagnostics_version: String,
    pub entry_count: usize,
    pub backpressure: CapsuleBackpressureSnapshot,
    pub entries: Vec<CapsuleDiagnosticEntry>,
}

/// Where playback stands, as the capsule shows it.
#[derive(Debug, Clone)]
pub struct CapsuleProgressAnchor {
    pub seq: u64,
    pub track_id: Option<String>,
    pub is_playing: bool,
    pub duration_ms: u64,
    pub position_ms: u64,
    pub sent_at_ms: u64,
}

/// One line of the lyric timeline sent to the capsule.
#[derive(Debug, Clone)]
pub struct CapsuleLyricTimelineLine {
    pub index: usize,
    pub text: String,
    pub start_ms: Option<u64>,
    pub end_ms: Option<u64>,
}

/// The full state the capsule starts from.
#[derive(Debug, Clone)]
pub struct CapsuleBootState {
    pub seq: u64,
    pub track_id: Option<String>,
    pub title: String,
    pub artist: String,
    pub lyric_line: String,
    pub lyric_version: u64,
    pub lyric_index: Option<usize>,
    pub lyric_timeline: Vec<CapsuleLyricTimelineLine>,
    pub is_playing: bool,
    pub duration_ms: u64,
    pub position_ms: u64,
    pub sent_at_ms: u64,
    pub artwork_key: Option<String>,
    pub artwork_src: Option<String>,
}

/// The playback facts the capsule's messages carry, times already in
/// milliseconds.
#[derive(Debug, Clone)]
pub struct CapsulePlaybackFacts {
    pub active_track_id: Option<String>,
    pub is_playing: bool,
    pub duration_ms: u64,
    pub position_ms: u64,
}

/// The text fields of the current track, as stored (not yet trimmed).
#[derive(Debug, Clone)]
pub struct CapsuleTrackFields {
    pub id: Option<String>,
    pub display_title: Option<String>,
    pub title: Option<String>,
    pub file_name: Option<String>,
    pub artist: Option<String>,
    pub album_artist: Option<String>,
}

/// The lyric that the capsule shows, as the lyric resolver found it.
#[derive(Debug, Clone)]
pub struct CapsuleLyricState {
    pub line: String,
    pub version: u64,
    pub index: Option<usize>,
    pub timeline: Vec<CapsuleLyricTimelineLine>,
}

/// The mode that the three windows give at `now`: the longest-lasting kind of
/// pressure that is still open wins.
pub open spec fn backpressure_mode_for(
    pressure_until_ms: u64,
    degraded_until_ms: u64,
    paused_until_ms: u64,
    now: u64,
) -> CapsuleBackpressureMode {
    if paused_until_ms > now {
        CapsuleBackpressureMode::Paused
    } else if degraded_until_ms > now {
        CapsuleBackpressureMode::Degraded
    } else if pressure_until_ms > now {
        CapsuleBackpressureMode::Pressured
    } else {
        CapsuleBackpressureMode::Normal
    }
}

/// Meter frames go out in the normal and pressured modes.
pub open spec fn mode_allows_meter(mode: CapsuleBackpressureMode) -> bool {
    mode == CapsuleBackpressureMode::Normal || mode == CapsuleBackpressureMode::Pressured
}

/// The pause between meter frames in each mode.
pub open spec fn mode_meter_interval_ms(mode: CapsuleBackpressureMode) -> u64 {
    match mode {
        CapsuleBackpressureMode::Normal => 80,
        CapsuleBackpressureMode::Pressured => 250,
        _ => 1000,
    }
}

/// A progress anchor of kind `send_kind` goes out: always in the normal and
/// pressured modes, only for play and pause changes when degraded, never when
/// paused.
pub open spec fn mode_allows_progress_anchor(
    mode: CapsuleBackpressureMode,
    send_kind: Seq<char>,
) -> bool {
    match mode {
        CapsuleBackpressureMode::Normal | CapsuleBackpressureMode::Pressured => true,
        CapsuleBackpressureMode::Degraded => crate::text::contains_seq(send_kind, "play"@)
            || crate::text::contains_seq(send_kind, "pause"@),
        CapsuleBackpressureMode::Paused => false,
    }
}

/// `until` pushed out to `now + span` if that is later (saturating).
pub open spec fn extend_window(until: u64, now: u64, span: u64) -> u64 {
    let end = now.saturating_add(span);
    if until >= end {
        until
    } else {
        end
    }
}

/// `log` with `entry` appended, keeping the newest
/// `CAPSULE_DIAGNOSTICS_RING_LIMIT` entries.
pub open spec fn ring_push(log: Seq<CapsuleDiagnosticEntry>, entry: CapsuleDiagnosticEntry) -> Seq<
    CapsuleDiagnosticEntry,
> {
    let l = log.push(entry);
    if l.len() > CAPSULE_DIAGNOSTICS_RING_LIMIT {
        l.skip(l.len() - CAPSULE_DIAGNOSTICS_RING_LIMIT)
    } else {
        l
    }
}

/// The backpressure windows after a send that took `elapsed_ms` at `now`:
/// the window of the send's severity is extended to cover the span that
/// severity imposes, and the others stay.
pub open spec fn windows_after_send(
    before: CapsuleStateStore,
    after: CapsuleStateStore,
    elapsed_ms: u64,
    now: u64,
) -> bool {
    &&& after.paused_until() == if elapsed_ms > CAPSULE_PAUSED_SEND_MS {
        extend_window(before.paused_until(), now, CAPSULE_PAUSED_MS)
    } else {
        before.paused_until()
    }
    &&& after.degraded_until() == if elapsed_ms <= CAPSULE_PAUSED_SEND_MS && elapsed_ms
        > CAPSULE_DEGRADED_SEND_MS {
        extend_window(before.degraded_until(), now, CAPSULE_DEGRADED_MS)
    } else {
        before.degraded_until()
    }
    &&& after.pressure_until() == if elapsed_ms <= CAPSULE_DEGRADED_SEND_MS && elapsed_ms
        > CAPSULE_PRESSURED_SEND_MS {
        extend_window(before.pressure_until(), now, CAPSULE_PRESSURED_MS)
    } else {
        before.pressure_until()
    }
}

/// A send of this time, size and outcome is kept in the diagnostics ring.
pub open spec fn send_is_notable(elapsed_ms: u64, payload_bytes: usize, ok: bool) -> bool {
    !(ok && elapsed_ms <= CAPSULE_SLOW_SEND_MS && payload_bytes <= CAPSULE_LARGE_PAYLOAD_BYTES)
}

/// The first present (non-blank, trimmed) value among `values`.
pub open spec fn first_present(values: Seq<Option<String>>) -> Option<Seq<char>>
    decreases values.len(),
{
    if values.len() == 0 {
        None
    } else {
        match values[0] {
            Some(v) if trim_seq(v@).len() > 0 => Some(trim_seq(v@)),
            _ => first_present(values.drop_first()),
        }
    }
}

/// `value` cut to its first `max_chars` characters.
pub open spec fn truncated(value: Seq<char>, max_chars: nat) -> Seq<char> {
    if value.len() <= max_chars {
        value
    } else {
        value.take(max_chars as int)
    }
}

/// The title the capsule shows for a track.
pub open spec fn capsule_title(track: Option<CapsuleTrackFields>) -> Seq<char> {
    let found = match track {
        Some(t) => first_present(seq![t.display_title, t.title, t.file_name]),
        None => None,
    };
    truncated(
        match found {
            Some(v) => v,
            None => CAPSULE_DEFAULT_TITLE@,
        },
        CAPSULE_MAX_TEXT_CHARS as nat,
    )
}

/// The artist the capsule shows for a track.
pub open spec fn capsule_artist(track: Option<CapsuleTrackFields>) -> Seq<char> {
    let found = match track {
        Some(t) => first_present(seq![t.artist, t.album_artist]),
        None => None,
    };
    truncated(
        match found {
            Some(v) => v,
            None => CAPSULE_DEFAULT_ARTIST@,
        },
        CAPSULE_MAX_TEXT_CHARS as nat,
    )
}

/// The text of an optional string.
pub open spec fn opt_view(value: Option<String>) -> Option<Seq<char>> {
    match value {
        Some(v) => Some(v@),
        None => None,
    }
}

/// The track id a capsule message carries: the one playback reports, else
/// the track's own.
pub open spec fn capsule_track_id(
    playback_id: Option<String>,
    track: Option<CapsuleTrackFields>,
) -> Option<Seq<char>> {
    match playback_id {
        Some(id) => Some(id@),
        None => match track {
            Some(t) => first_present(seq![t.id]),
            None => None,
        },
    }
}

/// The sender state of the lyric capsule.
#[derive(Debug)]
pub struct CapsuleStateStore {
    seq: u64,
    ready: bool,
    pressure_until_ms: u64,
    degraded_until_ms: u64,
    paused_until_ms: u64,
    diagnostics: Vec<CapsuleDiagnosticEntry>,
    next_lyric_version: u64,
}

impl CapsuleStateStore {
    /// The ring never holds more than its limit.
    pub closed spec fn wf(&self) -> bool {
        self.diagnostics@.len() <= CAPSULE_DIAGNOSTICS_RING_LIMIT
    }

    /// The last sequence number handed out.
    pub closed spec fn sequence(&self) -> u64 {
        self.seq
    }

    /// Whether the capsule window reported that it is ready.
    pub closed spec fn ready_flag(&self) -> bool {
        self.ready
    }

    /// The end of the pressured window.
    pub closed spec fn pressure_until(&self) -> u64 {
        self.pressure_until_ms
    }

    /// The end of the degraded window.
    pub closed spec fn degraded_until(&self) -> u64 {
        self.degraded_until_ms
    }

    /// The end of the paused window.
    pub closed spec fn paused_until(&self) -> u64 {
        self.paused_until_ms
    }

    /// The diagnostics ring, oldest first.
    pub closed spec fn diagnostics_log(&self) -> Seq<CapsuleDiagnosticEntry> {
        self.diagnostics@
    }

    /// The version that the next resolved lyric will carry.
    pub closed spec fn lyric_version_counter(&self) -> u64 {
        self.next_lyric_version
    }

    /// The mode at `now`.
    pub open spec fn mode_at(&self, now: u64) -> CapsuleBackpressureMode {
        backpressure_mode_for(
            self.pressure_until(),
            self.degraded_until(),
            self.paused_until(),
            now,
        )
    }

    /// A fresh store: not ready, no pressure, nothing logged.
    pub fn new() -> (r: Self)
        ensures
            r.wf(),
            r.sequence() == 0,
            !r.ready_flag(),
            r.pressure_until() == 0,
            r.degraded_until() == 0,
            r.paused_until() == 0,
            r.diagnostics_log() == Seq::<CapsuleDiagnosticEntry>::empty(),
            r.lyric_version_counter() == 1,
    {
        CapsuleStateStore {
            seq: 0,
            ready: false,
            pressure_until_ms: 0,
            degraded_until_ms: 0,
            paused_until_ms: 0,
            diagnostics: Vec::new(),
            next_lyric_version: 1,
        }
    }

    /// The capsule window is up and listening.
    pub fn mark_ready(&mut self)
        requires
            old(self).wf(),
        ensures
            final(self).wf(),
            final(self).ready_flag(),
            final(self).sequence() == old(self).sequence(),
            final(self).pressure_until() == old(self).pressure_until(),
            final(self).degraded_until() == old(self).degraded_until(),
            final(self).paused_until() == old(self).paused_until(),
            final(self).diagnostics_log() == old(self).diagnostics_log(),
            final(self).lyric_version_counter() == old(self).lyric_version_counter(),
    {
        self.ready = true;
    }

    /// The capsule window closed: it is no longer ready and every
    /// backpressure window is cleared.
    pub fn mark_closed(&mut self)
        requires
            old(self).wf(),
        ensures
            final(self).wf(),
            !final(self).ready_flag(),
            final(self).pressure_until() == 0,
            final(self).degraded_until() == 0,
            final(self).paused_until() == 0,
            final(self).sequence() == old(self).sequence(),
            final(self).diagnostics_log() == old(self).diagnostics_log(),
            final(self).lyric_version_counter() == old(self).lyric_version_counter(),
    {
        self.ready = false;
        self.pressure_until_ms = 0;
        self.degraded_until_ms = 0;
        self.paused_until_ms = 0;
    }

    /// Whether the capsule window is ready.
    pub fn is_ready(&self) -> (r: bool)
        ensures
            r == self.ready_flag(),
    {
        self.ready
    }

    /// The next sequence number (saturating at `u64::MAX`).
    pub fn next_seq(&mut self) -> (r: u64)
        requires
            old(self).wf(),
        ensures
            final(self).wf(),
            r == old(self).sequence().saturating_add(1),
            final(self).sequence() == r,
            final(self).ready_flag() == old(self).ready_flag(),
            final(self).pressure_until() == old(self).pressure_until(),
            final(self).degraded_until() == old(self).degraded_until(),
            final(self).paused_until() == old(self).paused_until(),
            final(self).diagnostics_log() == old(self).diagnostics_log(),
            final(self).lyric_version_counter() == old(self).lyric_version_counter(),
    {
        self.seq = self.seq.saturating_add(1);
        self.seq
    }

    /// The version for a newly resolved lyric; the counter moves on
    /// (saturating at `u64::MAX`).
    pub fn take_lyric_version(&mut self) -> (r: u64)
        requires
            old(self).wf(),
        ensures
            final(self).wf(),
            r == old(self).lyric_version_counter(),
            final(self).lyric_version_counter() == r.saturating_add(1),
            final(self).sequence() == old(self).sequence(),
            final(self).ready_flag() == old(self).ready_flag(),
            final(self).pressure_until() == old(self).pressure_until(),
            final(self).degraded_until() == old(self).degraded_until(),
            final(self).paused_until() == old(self).paused_until(),
            final(self).diagnostics_log() == old(self).diagnostics_log(),
    {
        let version = self.next_lyric_version;
        self.next_lyric_version = self.next_lyric_version.saturating_add(1);
        version
    }

    /// The mode at `now`.
    pub fn backpressure_mode_at(&self, now: u64) -> (r: CapsuleBackpressureMode)
        ensures
            r == self.mode_at(now),
    {
        if self.paused_until_ms > now {
            CapsuleBackpressureMode::Paused
        } else if self.degraded_until_ms > now {
            CapsuleBackpressureMode::Degraded
        } else if self.pressure_until_ms > now {
            CapsuleBackpressureMode::Pressured
        } else {
            CapsuleBackpressureMode::Normal
        }
    }

    /// The mode now, by the system clock.
    pub fn backpressure_mode(&self) -> (r: CapsuleBackpressureMode)
        ensures
            exists|now: u64| r == self.mode_at(now),
    {
        let now = now_ms();
        self.backpressure_mode_at(now)
    }

    /// The mode at `now` with the windows behind it.
    pub fn backpressure_snapshot_at(&self, now: u64) -> (r: CapsuleBackpressureSnapshot)
        ensures
            r.mode == self.mode_at(now),
            r.pressure_until_ms == self.pressure_until(),
            r.degraded_until_ms == self.degraded_until(),
            r.paused_until_ms == self.paused_until(),
    {
        CapsuleBackpressureSnapshot {
            mode: self.backpressure_mode_at(now),
            pressure_until_ms: self.pressure_until_ms,
            degraded_until_ms: self.degraded_until_ms,
            paused_until_ms: self.paused_until_ms,
        }
    }

    /// The snapshot now, by the system clock.
    pub fn backpressure_snapshot(&self) -> (r: CapsuleBackpressureSnapshot)
        ensures
            exists|now: u64| r.mode == self.mode_at(now),
            r.pressure_until_ms == self.pressure_until(),
            r.degraded_until_ms == self.degraded_until(),
            r.paused_until_ms == self.paused_until(),
    {
        let now = now_ms();
        self.backpressure_snapshot_at(now)
    }

    /// Whether meter frames may go out at `now`.
    pub fn allows_meter_at(&self, now: u64) -> (r: bool)
        ensures
            r == mode_allows_meter(self.mode_at(now)),
    {
        match self.backpressure_mode_at(now) {
            CapsuleBackpressureMode::Normal | CapsuleBackpressureMode::Pressured => true,
            _ => false,
        }
    }

    /// Whether meter frames may go out now.
    pub fn allows_meter(&self) -> (r: bool)
        ensures
            exists|now: u64| r == mode_allows_meter(self.mode_at(now)),
    {
        let now = now_ms();
        self.allows_meter_at(now)
    }

    /// The pause between meter frames at `now`.
    pub fn meter_interval_ms_at(&self, now: u64) -> (r: u64)
        ensures
            r == mode_meter_interval_ms(self.mode_at(now)),
    {
        match self.backpressure_mode_at(now) {
            CapsuleBackpressureMode::Normal => 80,
            CapsuleBackpressureMode::Pressured => 250,
            CapsuleBackpressureMode::Degraded | CapsuleBackpressureMode::Paused => 1000,
        }
    }

    /// The pause between meter frames now.
    pub fn meter_interval_ms(&self) -> (r: u64)
        ensures
            exists|now: u64| r == mode_meter_interval_ms(self.mode_at(now)),
    {
        let now = now_ms();
        self.meter_interval_ms_at(now)
    }

    /// Whether ordinary state updates may go out at `now`: only without any
    /// pressure.
    pub fn allows_regular_state_at(&self, now: u64) -> (r: bool)
        ensures
            r == (self.mode_at(now) == CapsuleBackpressureMode::Normal),
    {
        match self.backpressure_mode_at(now) {
            CapsuleBackpressureMode::Normal => true,
            _ => false,
        }
    }

    /// Whether ordinary state updates may go out now.
    pub fn allows_regular_state(&self) -> (r: bool)
        ensures
            exists|now: u64| r == (self.mode_at(now) == CapsuleBackpressureMode::Normal),
    {
        let now = now_ms();
        self.allows_regular_state_at(now)
    }

    /// Whether priority state updates may go out at `now`: unless paused.
    pub fn allows_priority_state_at(&self, now: u64) -> (r: bool)
        ensures
            r == (self.mode_at(now) != CapsuleBackpressureMode::Paused),
    {
        match self.backpressure_mode_at(now) {
            CapsuleBackpressureMode::Paused => false,
            _ => true,
        }
    }

    /// Whether priority state updates may go out now.
    pub fn allows_priority_state(&self) -> (r: bool)
        ensures
            exists|now: u64| r == (self.mode_at(now) != CapsuleBackpressureMode::Paused),
    {
        let now = now_ms();
        self.allows_priority_state_at(now)
    }

    /// Whether a progress anchor of kind `send_kind` may go out at `now`.
    pub fn allows_progress_anchor_at(&self, send_kind: &str, now: u64) -> (r: bool)
        ensures
            r == mode_allows_progress_anchor(self.mode_at(now), send_kind@),
    {
        match self.backpressure_mode_at(now) {
            CapsuleBackpressureMode::Normal | CapsuleBackpressureMode::Pressured => true,
            CapsuleBackpressureMode::Degraded => contains(send_kind, "play") || contains(
                send_kind,
                "pause",
            ),
            CapsuleBackpressureMode::Paused => false,
        }
    }

    /// Whether a progress anchor of kind `send_kind` may go out now.
    pub fn allows_progress_anchor(&self, send_kind: &str) -> (r: bool)
        ensures
            exists|now: u64| r == mode_allows_progress_anchor(self.mode_at(now), send_kind@),
    {
        let now = now_ms();
        self.allows_progress_anchor_at(send_kind, now)
    }

    fn push_diagnostic(&mut self, entry: CapsuleDiagnosticEntry)
        requires
            old(self).wf(),
        ensures
            final(self).wf(),
            final(self).diagnostics_log() == ring_push(old(self).diagnostics_log(), entry),
            final(self).sequence() == old(self).sequence(),
            final(self).ready_flag() == old(self).ready_flag(),
            final(self).pressure_until() == old(self).pressure_until(),
            final(self).degraded_until() == old(self).degraded_until(),
            final(self).paused_until() == old(self).paused_until(),
            final(self).lyric_version_counter() == old(self).lyric_version_counter(),
    {
        self.diagnostics.push(entry);
        if self.diagnostics.len() > CAPSULE_DIAGNOSTICS_RING_LIMIT {
            let ghost l = self.diagnostics@;
            self.diagnostics.remove(0);
            assert(self.diagnostics@ =~= l.skip(l.len() - CAPSULE_DIAGNOSTICS_RING_LIMIT));
        }
    }

    /// Records how a send of kind `send_kind` went at `now`: a slow send opens
    /// (or extends) the backpressure window of its severity, and a slow, large
    /// or failed send is logged with the mode that results.
    pub fn record_send_result_at(
        &mut self,
        send_kind: &str,
        elapsed_ms: u64,
        payload_bytes: usize,
        ok: bool,
        now: u64,
    )
        requires
            old(self).wf(),
        ensures
            final(self).wf(),
            windows_after_send(*old(self), *final(self), elapsed_ms, now),
            !send_is_notable(elapsed_ms, payload_bytes, ok) ==> final(self).diagnostics_log()
                == old(self).diagnostics_log(),
            send_is_notable(elapsed_ms, payload_bytes, ok) ==> {
                let e = final(self).diagnostics_log().last();
                &&& final(self).diagnostics_log() == ring_push(old(self).diagnostics_log(), e)
                &&& e.timestamp_ms == now
                &&& e.event@ == (if ok {
                    "capsule_send_slow_or_large"@
                } else {
                    "capsule_send_failed"@
                })
                &&& e.send_kind@ == send_kind@
                &&& e.elapsed_ms == elapsed_ms
                &&& e.payload_bytes == payload_bytes
                &&& e.ok == ok
                &&& e.mode == final(self).mode_at(now)
            },
            final(self).sequence() == old(self).sequence(),
            final(self).ready_flag() == old(self).ready_flag(),
            final(self).lyric_version_counter() == old(self).lyric_version_counter(),
    {
        if elapsed_ms > CAPSULE_PAUSED_SEND_MS {
            let end = now.saturating_add(CAPSULE_PAUSED_MS);
            if self.paused_until_ms < end {
                self.paused_until_ms = end;
            }
        } else if elapsed_ms > CAPSULE_DEGRADED_SEND_MS {
            let end = now.saturating_add(CAPSULE_DEGRADED_MS);
            if self.degraded_until_ms < end {
                self.degraded_until_ms = end;
            }
        } else if elapsed_ms > CAPSULE_PRESSURED_SEND_MS {
            let end = now.saturating_add(CAPSULE_PRESSURED_MS);
            if self.pressure_until_ms < end {
                self.pressure_until_ms = end;
            }
        }
        if ok && elapsed_ms <= CAPSULE_SLOW_SEND_MS && payload_bytes
            <= CAPSULE_LARGE_PAYLOAD_BYTES {
            return ;
        }
        proof {
            reveal_strlit("capsule_send_slow_or_large");
            reveal_strlit("capsule_send_failed");
        }
        let mode = self.backpressure_mode_at(now);
        let entry = CapsuleDiagnosticEntry {
            timestamp_ms: now,
            event: if ok {
                to_owned("capsule_send_slow_or_large")
            } else {
                to_owned("capsule_send_failed")
            },
            send_kind: to_owned(send_kind),
            elapsed_ms,
            payload_bytes,
            ok,
            mode,
        };
        self.push_diagnostic(entry);
    }

    /// Records how a send went, at the current time.
    pub fn record_send_result(
        &mut self,
        send_kind: &str,
        elapsed_ms: u64,
        payload_bytes: usize,
        ok: bool,
    )
        requires
            old(self).wf(),
        ensures
            final(self).wf(),
            exists|now: u64| windows_after_send(*old(self), *final(self), elapsed_ms, now),
            !send_is_notable(elapsed_ms, payload_bytes, ok) ==> final(self).diagnostics_log()
                == old(self).diagnostics_log(),
            send_is_notable(elapsed_ms, payload_bytes, ok) ==> final(self).diagnostics_log()
                == ring_push(old(self).diagnostics_log(), final(self).diagnostics_log().last()),
            final(self).sequence() == old(self).sequence(),
            final(self).ready_flag() == old(self).ready_flag(),
            final(self).lyric_version_counter() == old(self).lyric_version_counter(),
    {
        let now = now_ms();
        self.record_send_result_at(send_kind, elapsed_ms, payload_bytes, ok, now);
    }

    /// Logs an artwork cache miss that took longer than
    /// `CAPSULE_SLOW_ARTWORK_CACHE_MS`, at `now`; anything else is ignored.
    pub fn record_artwork_cache_result_at(&mut self, cache_ms: u64, cache_miss: bool, now: u64)
        requires
            old(self).wf(),
        ensures
            final(self).wf(),
            !(cache_miss && cache_ms > CAPSULE_SLOW_ARTWORK_CACHE_MS) ==> final(self).diagnostics_log() == old(self).diagnostics_log(),
            (cache_miss && cache_ms > CAPSULE_SLOW_ARTWORK_CACHE_MS) ==> {
                let e = final(self).diagnostics_log().last();
                &&& final(self).diagnostics_log() == ring_push(old(self).diagnostics_log(), e)
                &&& e.timestamp_ms == now
                &&& e.event@ == "capsule_artwork_cache_miss_slow"@
                &&& e.send_kind@ == "artwork-cache"@
                &&& e.elapsed_ms == cache_ms
                &&& e.payload_bytes == 0
                &&& e.ok
                &&& e.mode == old(self).mode_at(now)
            },
            final(self).sequence() == old(self).sequence(),
            final(self).ready_flag() == old(self).ready_flag(),
            final(self).pressure_until() == old(self).pressure_until(),
            final(self).degraded_until() == old(self).degraded_until(),
            final(self).paused_until() == old(self).paused_until(),
            final(self).lyric_version_counter() == old(self).lyric_version_counter(),
    {
        if !cache_miss || cache_ms <= CAPSULE_SLOW_ARTWORK_CACHE_MS {
            return ;
        }
        proof {
            reveal_strlit("capsule_artwork_cache_miss_slow");
            reveal_strlit("artwork-cache");
        }
        let mode = self.backpressure_mode_at(now);
        let entry = CapsuleDiagnosticEntry {
            timestamp_ms: now,
            event: to_owned("capsule_artwork_cache_miss_slow"),
            send_kind: to_owned("artwork-cache"),
            elapsed_ms: cache_ms,
            payload_bytes: 0,
            ok: true,
            mode,
        };
        self.push_diagnostic(entry);
    }

    /// Logs a slow artwork cache miss, at the current time.
    pub fn record_artwork_cache_result(&mut self, cache_ms: u64, cache_miss: bool)
        requires
            old(self).wf(),
        ensures
            final(self).wf(),
            !(cache_miss && cache_ms > CAPSULE_SLOW_ARTWORK_CACHE_MS) ==> final(self).diagnostics_log() == old(self).diagnostics_log(),
            (cache_miss && cache_ms > CAPSULE_SLOW_ARTWORK_CACHE_MS) ==> final(self).diagnostics_log() == ring_push(
                old(self).diagnostics_log(),
                final(self).diagnostics_log().last(),
            ),
            final(self).pressure_until() == old(self).pressure_until(),
            final(self).degraded_until() == old(self).degraded_until(),
            final(self).paused_until() == old(self).paused_until(),
    {
        let now = now_ms();
        self.record_artwork_cache_result_at(cache_ms, cache_miss, now);
    }

    /// Empties the diagnostics ring: `None` when it was empty, else the
    /// entries with their count, the backpressure snapshot at `now` and the
    /// diagnostics format version.
    pub fn drain_diagnostics_summary_at(&mut self, now: u64) -> (r: Option<
        CapsuleDiagnosticsSummary,
    >)
        requires
            old(self).wf(),
        ensures
            final(self).wf(),
            old(self).diagnostics_log().len() == 0 ==> r is None,
            match r {
                Some(s) => {
                    &&& s.entries@ == old(self).diagnostics_log()
                    &&& s.entry_count == old(self).diagnostics_log().len()
                    &&& s.diagnostics_version@ == CAPSULE_DIAGNOSTICS_VERSION@
                    &&& s.backpressure.mode == old(self).mode_at(now)
                    &&& s.backpressure.pressure_until_ms == old(self).pressure_until()
                    &&& s.backpressure.degraded_until_ms == old(self).degraded_until()
                    &&& s.backpressure.paused_until_ms == old(self).paused_until()
                },
                None => old(self).diagnostics_log().len() == 0,
            },
            final(self).diagnostics_log() == Seq::<CapsuleDiagnosticEntry>::empty(),
            final(self).sequence() == old(self).sequence(),
            final(self).ready_flag() == old(self).ready_flag(),
            final(self).pressure_until() == old(self).pressure_until(),
            final(self).degraded_until() == old(self).degraded_until(),
            final(self).paused_until() == old(self).paused_until(),
            final(self).lyric_version_counter() == old(self).lyric_version_counter(),
    {
        if self.diagnostics.len() == 0 {
            return None;
        }
        let mut entries: Vec<CapsuleDiagnosticEntry> = Vec::new();
        std::mem::swap(&mut entries, &mut self.diagnostics);
        let count = entries.len();
        Some(
            CapsuleDiagnosticsSummary {
                diagnostics_version: to_owned(CAPSULE_DIAGNOSTICS_VERSION),
                entry_count: count,
                backpressure: self.backpressure_snapshot_at(now),
                entries,
            },
        )
    }

    /// Empties the diagnostics ring, with the snapshot taken at the current
    /// time.
    pub fn drain_diagnostics_summary(&mut self) -> (r: Option<CapsuleDiagnosticsSummary>)
        requires
            old(self).wf(),
        ensures
            final(self).wf(),
            match r {
                Some(s) => {
                    &&& s.entries@ == old(self).diagnostics_log()
                    &&& s.entry_count == old(self).diagnostics_log().len()
                    &&& s.entry_count > 0
                    &&& s.diagnostics_version@ == CAPSULE_DIAGNOSTICS_VERSION@
                },
                None => old(self).diagnostics_log().len() == 0,
            },
            final(self).diagnostics_log() == Seq::<CapsuleDiagnosticEntry>::empty(),
    {
        let now = now_ms();
        self.drain_diagnostics_summary_at(now)
    }

    /// The progress anchor for `playback`, under the next sequence number.
    pub fn build_progress_anchor(&mut self, playback: CapsulePlaybackFacts, sent_at_ms: u64) -> (r:
        CapsuleProgressAnchor)
        requires
            old(self).wf(),
        ensures
            final(self).wf(),
            r.seq == old(self).sequence().saturating_add(1),
            final(self).sequence() == r.seq,
            r.track_id == playback.active_track_id,
            r.is_playing == playback.is_playing,
            r.duration_ms == playback.duration_ms,
            r.position_ms == playback.position_ms,
            r.sent_at_ms == sent_at_ms,
            final(self).diagnostics_log() == old(self).diagnostics_log(),
    {
        let seq = self.next_seq();
        CapsuleProgressAnchor {
            seq,
            track_id: playback.active_track_id,
            is_playing: playback.is_playing,
            duration_ms: playback.duration_ms,
            position_ms: playback.position_ms,
            sent_at_ms,
        }
    }

    /// The boot state for the current track: title and artist fall back to
    /// defaults and are cut to `CAPSULE_MAX_TEXT_CHARS` characters; the track
    /// id comes from playback, else from the track.
    pub fn build_boot_state(
        &mut self,
        playback: CapsulePlaybackFacts,
        track: Option<CapsuleTrackFields>,
        lyric: CapsuleLyricState,
        artwork: CapsuleArtworkRef,
        sent_at_ms: u64,
    ) -> (r: CapsuleBootState)
        requires
            old(self).wf(),
        ensures
            final(self).wf(),
            r.seq == old(self).sequence().saturating_add(1),
            final(self).sequence() == r.seq,
            r.title@ == capsule_title(track),
            r.artist@ == capsule_artist(track),
            opt_view(r.track_id) == capsule_track_id(playback.active_track_id, track),
            r.lyric_line == lyric.line,
            r.lyric_version == lyric.version,
            r.lyric_index == lyric.index,
            r.lyric_timeline@ == lyric.timeline@,
            r.is_playing == playback.is_playing,
            r.duration_ms == playback.duration_ms,
            r.position_ms == playback.position_ms,
            r.sent_at_ms == sent_at_ms,
            r.artwork_key == artwork.artwork_key,
            r.artwork_src == artwork.artwork_src,
            final(self).diagnostics_log() == old(self).diagnostics_log(),
    {
        let title = resolve_title(&track);
        let artist = resolve_artist(&track);
        let seq = self.next_seq();
        let track_id = match playback.active_track_id {
            Some(id) => Some(id),
            None => match &track {
                Some(t) => present_text(&t.id),
                None => None,
            },
        };
        proof {
            reveal_with_fuel(first_present, 2);
            if track is Some {
                let s = seq![track->0.id];
                assert(s.drop_first() =~= Seq::<Option<String>>::empty());
            }
        }
        CapsuleBootState {
            seq,
            track_id,
            title,
            artist,
            lyric_line: lyric.line,
            lyric_version: lyric.version,
            lyric_index: lyric.index,
            lyric_timeline: lyric.timeline,
            is_playing: playback.is_playing,
            duration_ms: playback.duration_ms,
            position_ms: playback.position_ms,
            sent_at_ms,
            artwork_key: artwork.artwork_key,
            artwork_src: artwork.artwork_src,
        }
    }
}

impl Default for CapsuleStateStore {
    fn default() -> (r: Self)
        ensures
            r.wf(),
            r.sequence() == 0,
            !r.ready_flag(),
            r.pressure_until() == 0,
            r.degraded_until() == 0,
            r.paused_until() == 0,
            r.diagnostics_log() == Seq::<CapsuleDiagnosticEntry>::empty(),
            r.lyric_version_counter() == 1,
    {
        CapsuleStateStore::new()
    }
}

/// The value trimmed, when something is left of it.
pub fn present_text(value: &Option<String>) -> (r: Option<String>)
    ensures
        match r {
            Some(v) => value is Some && trim_seq(value->0@).len() > 0 && v@ == trim_seq(
                value->0@,
            ),
            None => value is None || trim_seq(value->0@).len() == 0,
        },
{
    match value {
        Some(v) => {
            let t = trim(v.as_str());
            if t.as_str().is_empty() {
                None
            } else {
                Some(t)
            }
        },
        None => None,
    }
}

/// `value` cut to its first `max_chars` characters.
pub fn truncate_text(value: String, max_chars: usize) -> (r: String)
    ensures
        r@ == truncated(value@, max_chars as nat),
{
    let chars = crate::text::chars_of(value.as_str());
    if chars.len() <= max_chars {
        return value;
    }
    crate::text::string_from_range(&chars, 0, max_chars)
}

fn resolve_title(track: &Option<CapsuleTrackFields>) -> (r: String)
    ensures
        r@ == capsule_title(*track),
{
    let found = match track {
        Some(t) => {
            let a = present_text(&t.display_title);
            match a {
                Some(v) => Some(v),
                None => {
                    let b = present_text(&t.title);
                    match b {
                        Some(v) => Some(v),
                        None => present_text(&t.file_name),
                    }
                },
            }
        },
        None => None,
    };
    proof {
        reveal_with_fuel(first_present, 4);
        reveal_strlit("Music is ready");
        if track is Some {
            let t = track->0;
            let s = seq![t.display_title, t.title, t.file_name];
            assert(s.drop_first() =~= seq![t.title, t.file_name]);
            assert(s.drop_first().drop_first() =~= seq![t.file_name]);
            assert(s.drop_first().drop_first().drop_first() =~= Seq::<Option<String>>::empty());
        }
    }
    let chosen = match found {
        Some(v) => v,
        None => to_owned(CAPSULE_DEFAULT_TITLE),
    };
    truncate_text(chosen, CAPSULE_MAX_TEXT_CHARS)
}

fn resolve_artist(track: &Option<CapsuleTrackFields>) -> (r: String)
    ensures
        r@ == capsule_artist(*track),
{
    let found = match track {
        Some(t) => {
            let a = present_text(&t.artist);
            match a {
                Some(v) => Some(v),
                None => present_text(&t.album_artist),
            }
        },
        None => None,
    };
    proof {
        reveal_with_fuel(first_present, 3);
        if track is Some {
            let t = track->0;
            let s = seq![t.artist, t.album_artist];
            assert(s.drop_first() =~= seq![t.album_artist]);
            assert(s.drop_first().drop_first() =~= Seq::<Option<String>>::empty());
        }
    }
    let chosen = match found {
        Some(v) => v,
        None => to_owned(CAPSULE_DEFAULT_ARTIST),
    };
    truncate_text(chosen, CAPSULE_MAX_TEXT_CHARS)
}

/// A closed capsule (all windows cleared) is under no pressure at any time.
pub proof fn law_closed_capsule_is_unpressured(s: CapsuleStateStore, now: u64)
    requires
        s.pressure_until() == 0,
        s.degraded_until() == 0,
        s.paused_until() == 0,
    ensures
        s.mode_at(now) == CapsuleBackpressureMode::Normal,
{
}

/// Recording a send never shortens a backpressure window.
pub proof fn law_send_never_shortens_windows(
    before: CapsuleStateStore,
    after: CapsuleStateStore,
    elapsed_ms: u64,
    now: u64,
)
    requires
        windows_after_send(before, after, elapsed_ms, now),
    ensures
        after.paused_until() >= before.paused_until(),
        after.degraded_until() >= before.degraded_until(),
        after.pressure_until() >= before.pressure_until(),
{
}

/// A send slower than `CAPSULE_PAUSED_SEND_MS` pauses the capsule for the
/// following `CAPSULE_PAUSED_MS` milliseconds; a send slower than
/// `CAPSULE_DEGRADED_SEND_MS` leaves it at least degraded for
/// `CAPSULE_DEGRADED_MS`, and one slower than `CAPSULE_PRESSURED_SEND_MS`
/// at least pressured for `CAPSULE_PRESSURED_MS`.
pub proof fn law_slow_send_raises_pressure(
    before: CapsuleStateStore,
    after: CapsuleStateStore,
    elapsed_ms: u64,
    now: u64,
    t: u64,
)
    requires
        windows_after_send(before, after, elapsed_ms, now),
        now <= t,
        now + CAPSULE_PAUSED_MS <= u64::MAX,
    ensures
        elapsed_ms > CAPSULE_PAUSED_SEND_MS && t < now + CAPSULE_PAUSED_MS ==> after.mode_at(t)
            == CapsuleBackpressureMode::Paused,
        elapsed_ms > CAPSULE_DEGRADED_SEND_MS && t < now + CAPSULE_DEGRADED_MS ==> after.mode_at(
            t,
        ) == CapsuleBackpressureMode::Paused || after.mode_at(t)
            == CapsuleBackpressureMode::Degraded,
        elapsed_ms > CAPSULE_PRESSURED_SEND_MS && t < now + CAPSULE_PRESSURED_MS ==> after.mode_at(
            t,
        ) != CapsuleBackpressureMode::Normal,
{
}

/// The pressure order: the more pressure, the fewer kinds of message go out.
/// Regular state goes out only without pressure; meter frames also under
/// mere pressure; priority state whenever the capsule is not paused.
pub proof fn law_pressure_gates_messages(mode: CapsuleBackpressureMode, kind: Seq<char>)
    ensures
        mode == CapsuleBackpressureMode::Normal ==> mode_allows_meter(mode)
            && mode_allows_progress_anchor(mode, kind),
        mode_allows_meter(mode) ==> mode_allows_progress_anchor(mode, kind),
        mode_allows_progress_anchor(mode, kind) ==> mode != CapsuleBackpressureMode::Paused,
        mode_meter_interval_ms(mode) >= 80,
{
}

/// The diagnostics ring keeps at most `CAPSULE_DIAGNOSTICS_RING_LIMIT`
/// entries, ends with the newest, and keeps the rest in order.
pub proof fn law_ring_bounded_and_ordered(
    log: Seq<CapsuleDiagnosticEntry>,
    entry: CapsuleDiagnosticEntry,
)
    requires
        log.len() <= CAPSULE_DIAGNOSTICS_RING_LIMIT,
    ensures
        ring_push(log, entry).len() <= CAPSULE_DIAGNOSTICS_RING_LIMIT,
        ring_push(log, entry).last() == entry,
        ring_push(log, entry).drop_last() == log.skip(
            log.len() - ring_push(log, entry).drop_last().len(),
        ),
{
    let l = log.push(entry);
    if l.len() > CAPSULE_DIAGNOSTICS_RING_LIMIT {
        assert(ring_push(log, entry).drop_last() =~= log.skip(1));
    } else {
        assert(ring_push(log, entry).drop_last() =~= log);
        assert(log.skip(0) =~= log);
    }
}


/// How far back, in milliseconds, the timeline keeps lines that have ended.
pub const CAPSULE_LYRIC_TIMELINE_BEHIND_MS: u64 = 350;

/// How far ahead, in milliseconds, the timeline reaches.
pub const CAPSULE_LYRIC_TIMELINE_AHEAD_MS: u64 = 18000;

/// The most lines the timeline carries.
pub const CAPSULE_LYRIC_TIMELINE_MAX_LINES: usize = 10;

/// The model of a timeline line.
pub struct TimelineLineView {
    pub index: nat,
    pub text: Seq<char>,
    pub start_ms: Option<nat>,
    pub end_ms: Option<nat>,
}

impl View for CapsuleLyricTimelineLine {
    type V = TimelineLineView;

    open spec fn view(&self) -> TimelineLineView {
        TimelineLineView {
            index: self.index as nat,
            text: self.text@,
            start_ms: crate::lrc::opt_time(self.start_ms),
            end_ms: crate::lrc::opt_time(self.end_ms),
        }
    }
}

/// The models of a list of timeline lines.
pub open spec fn timeline_view(lines: Seq<CapsuleLyricTimelineLine>) -> Seq<TimelineLineView> {
    lines.map_values(|l: CapsuleLyricTimelineLine| l@)
}

/// The timeline around the playing position, added to `acc`: going through
/// the timed lines in order, lines that ended before `after` are left out
/// and the first line starting after `until` ends the walk (the active
/// line is exempt from both); each line's text is trimmed and cut to
/// `CAPSULE_TIMELINE_MAX_TEXT_CHARS` characters, empty ones are left out,
/// and the walk ends at `CAPSULE_LYRIC_TIMELINE_MAX_LINES` lines.
pub open spec fn timeline_from(
    lines: Seq<crate::lrc::LyricsLineView>,
    active: Option<nat>,
    after: nat,
    until: nat,
    acc: Seq<TimelineLineView>,
) -> Seq<TimelineLineView>
    decreases lines.len(),
{
    if lines.len() == 0 {
        acc
    } else {
        let l = lines[0];
        let rest = lines.drop_first();
        match l.start_ms {
            None => timeline_from(rest, active, after, until, acc),
            Some(start) => {
                let is_active = active == Some(l.index);
                if !is_active && (l.end_ms matches Some(end) && end < after) {
                    timeline_from(rest, active, after, until, acc)
                } else if !is_active && start > until {
                    acc
                } else {
                    let text = truncated(trim_seq(l.text), CAPSULE_TIMELINE_MAX_TEXT_CHARS as nat);
                    if text.len() == 0 {
                        timeline_from(rest, active, after, until, acc)
                    } else {
                        let next = acc.push(
                            TimelineLineView { index: l.index, text, start_ms: l.start_ms, end_ms: l.end_ms },
                        );
                        if next.len() >= CAPSULE_LYRIC_TIMELINE_MAX_LINES {
                            next
                        } else {
                            timeline_from(rest, active, after, until, next)
                        }
                    }
                }
            },
        }
    }
}

/// The timeline the capsule shows around `position_ms` (see
/// `timeline_from`): from `CAPSULE_LYRIC_TIMELINE_BEHIND_MS` before the
/// position (not before 0) to `CAPSULE_LYRIC_TIMELINE_AHEAD_MS` after it.
pub open spec fn lyric_timeline(
    lines: Seq<crate::lrc::LyricsLineView>,
    active: Option<nat>,
    position_ms: nat,
) -> Seq<TimelineLineView> {
    let after = if position_ms >= CAPSULE_LYRIC_TIMELINE_BEHIND_MS {
        (position_ms - CAPSULE_LYRIC_TIMELINE_BEHIND_MS) as nat
    } else {
        0
    };
    timeline_from(lines, active, after, (position_ms + CAPSULE_LYRIC_TIMELINE_AHEAD_MS) as nat, seq![])
}

/// The timeline the capsule shows around `position_ms` (see
/// `lyric_timeline`).
pub fn build_lyric_timeline(
    lines: &[crate::lrc::LyricsLine],
    active_line_index: Option<usize>,
    position_ms: u64,
) -> (r: Vec<CapsuleLyricTimelineLine>)
    ensures
        timeline_view(r@) == lyric_timeline(
            crate::lrc::lines_view(lines@),
            crate::lrc::opt_index(active_line_index),
            position_ms as nat,
        ),
{
    let ghost all = crate::lrc::lines_view(lines@);
    let after: u64 = if position_ms >= CAPSULE_LYRIC_TIMELINE_BEHIND_MS {
        position_ms - CAPSULE_LYRIC_TIMELINE_BEHIND_MS
    } else {
        0
    };
    let until: u128 = position_ms as u128 + CAPSULE_LYRIC_TIMELINE_AHEAD_MS as u128;
    let ghost active = crate::lrc::opt_index(active_line_index);
    let ghost want = lyric_timeline(all, active, position_ms as nat);
    let mut timeline: Vec<CapsuleLyricTimelineLine> = Vec::new();
    let mut i: usize = 0;
    assert(all.skip(0) =~= all);
    assert(timeline_view(timeline@) =~= Seq::<TimelineLineView>::empty());
    while i < lines.len()
        invariant
            i <= lines@.len(),
            all == crate::lrc::lines_view(lines@),
            active == crate::lrc::opt_index(active_line_index),
            until == position_ms + CAPSULE_LYRIC_TIMELINE_AHEAD_MS,
            after as nat == if position_ms >= CAPSULE_LYRIC_TIMELINE_BEHIND_MS {
                (position_ms - CAPSULE_LYRIC_TIMELINE_BEHIND_MS) as nat
            } else {
                0
            },
            want == lyric_timeline(all, active, position_ms as nat),
            timeline@.len() < CAPSULE_LYRIC_TIMELINE_MAX_LINES,
            want == timeline_from(all.skip(i as int), active, after as nat, until as nat, timeline_view(timeline@)),
        decreases lines@.len() - i,
    {
        let ghost rest = all.skip(i as int);
        assert(rest[0] == lines@[i as int]@);
        assert(rest.drop_first() =~= all.skip(i + 1));
        let line = &lines[i];
        match line.start_ms {
            None => {},
            Some(start) => {
                let is_active = match active_line_index {
                    Some(a) => a == line.index,
                    None => false,
                };
                let ended = match line.end_ms {
                    Some(end) => end < after,
                    None => false,
                };
                if !is_active && ended {
                } else if !is_active && (start as u128) > until {
                    return timeline;
                } else {
                    let text = truncate_text(trim(line.text.as_str()), CAPSULE_TIMELINE_MAX_TEXT_CHARS);
                    if !text.as_str().is_empty() {
                        let ghost before = timeline@;
                        timeline.push(
                            CapsuleLyricTimelineLine {
                                index: line.index,
                                text,
                                start_ms: line.start_ms,
                                end_ms: line.end_ms,
                            },
                        );
                        assert(timeline_view(timeline@) =~= timeline_view(before).push(
                            TimelineLineView {
                                index: line.index as nat,
                                text: text@,
                                start_ms: crate::lrc::opt_time(line.start_ms),
                                end_ms: crate::lrc::opt_time(line.end_ms),
                            },
                        ));
                        if timeline.len() >= CAPSULE_LYRIC_TIMELINE_MAX_LINES {
                            return timeline;
                        }
                    }
                }
            },
        }
        i += 1;
    }
    assert(all.skip(i as int) =~= Seq::<crate::lrc::LyricsLineView>::empty());
    timeline
}

/// The first line of `text` with more than whitespace, trimmed.
pub open spec fn first_shown_piece(pieces: Seq<Seq<char>>) -> Option<Seq<char>>
    decreases pieces.len(),
{
    if pieces.len() == 0 {
        None
    } else if trim_seq(pieces[0]).len() > 0 {
        Some(trim_seq(pieces[0]))
    } else {
        first_shown_piece(pieces.drop_first())
    }
}

/// The first line of `text` with more than whitespace, trimmed.
pub fn first_non_empty_line(text: &str) -> (r: Option<String>)
    ensures
        crate::text::opt_text(r) == first_shown_piece(crate::lrc::split_pieces(text@, '\n')),
{
    let pieces = crate::lrc::split_text_pieces(text, '\n');
    let ghost ps = crate::text::texts(pieces@);
    let mut i: usize = 0;
    assert(ps.skip(0) =~= ps);
    while i < pieces.len()
        invariant
            i <= pieces@.len(),
            ps == crate::text::texts(pieces@),
            ps == crate::lrc::split_pieces(text@, '\n'),
            first_shown_piece(ps) == first_shown_piece(ps.skip(i as int)),
        decreases pieces@.len() - i,
    {
        assert(ps.skip(i as int)[0] == pieces@[i as int]@);
        assert(ps.skip(i as int).drop_first() =~= ps.skip(i + 1));
        let t = trim(pieces[i].as_str());
        if !t.as_str().is_empty() {
            assert(first_shown_piece(ps.skip(i as int)) == Some(t@));
            return Some(t);
        }
        i += 1;
    }
    assert(ps.skip(i as int) =~= Seq::<Seq<char>>::empty());
    None
}

/// The lyric the capsule shows at `position_ms` from the resolved lyrics:
/// the line playing there (trimmed, when not empty), else the first line
/// of the lyrics text, else the fallback title, cut to
/// `CAPSULE_MAX_TEXT_CHARS` characters; with the index of the playing line
/// and the timeline around the position.
pub fn capsule_lyric_state(
    lines: &Vec<crate::lrc::LyricsLine>,
    text: &str,
    version: u64,
    position_ms: u64,
    fallback_title: &str,
) -> (r: CapsuleLyricState)
    ensures
        crate::lrc::opt_index(r.index) == crate::lrc::active_line_from(
            crate::lrc::lines_view(lines@),
            position_ms as nat,
            None,
        ),
        r.version == version,
        r.line@ == truncated(
            match active_line_text(crate::lrc::lines_view(lines@), crate::lrc::opt_index(r.index)) {
                Some(t) => t,
                None => match first_shown_piece(crate::lrc::split_pieces(text@, '\n')) {
                    Some(t) => t,
                    None => fallback_title@,
                },
            },
            CAPSULE_MAX_TEXT_CHARS as nat,
        ),
        timeline_view(r.timeline@) == lyric_timeline(
            crate::lrc::lines_view(lines@),
            crate::lrc::opt_index(r.index),
            position_ms as nat,
        ),
{
    let index = crate::lrc::find_active_line_index(lines.as_slice(), position_ms);
    let active = line_text_by_index(lines, index);
    let chosen = match active {
        Some(t) => t,
        None => match first_non_empty_line(text) {
            Some(t) => t,
            None => to_owned(fallback_title),
        },
    };
    CapsuleLyricState {
        line: truncate_text(chosen, CAPSULE_MAX_TEXT_CHARS),
        version,
        index,
        timeline: build_lyric_timeline(lines.as_slice(), index, position_ms),
    }
}

/// The text of the first line with the given index, trimmed, when it is
/// not empty.
pub open spec fn active_line_text(lines: Seq<crate::lrc::LyricsLineView>, index: Option<nat>) -> Option<Seq<char>>
    decreases lines.len(),
{
    match index {
        None => None,
        Some(i) => if lines.len() == 0 {
            None
        } else if lines[0].index == i {
            if trim_seq(lines[0].text).len() > 0 {
                Some(trim_seq(lines[0].text))
            } else {
                None
            }
        } else {
            active_line_text(lines.drop_first(), index)
        },
    }
}

/// The text of the first line with the given index (see
/// `active_line_text`).
fn line_text_by_index(lines: &Vec<crate::lrc::LyricsLine>, index: Option<usize>) -> (r: Option<String>)
    ensures
        crate::text::opt_text(r) == active_line_text(
            crate::lrc::lines_view(lines@),
            crate::lrc::opt_index(index),
        ),
{
    let target = match index {
        Some(t) => t,
        None => return None,
    };
    let ghost all = crate::lrc::lines_view(lines@);
    let mut i: usize = 0;
    assert(all.skip(0) =~= all);
    while i < lines.len()
        invariant
            i <= lines@.len(),
            all == crate::lrc::lines_view(lines@),
            index == Some(target),
            active_line_text(all, crate::lrc::opt_index(index)) == active_line_text(
                all.skip(i as int),
                crate::lrc::opt_index(index),
            ),
        decreases lines@.len() - i,
    {
        assert(all.skip(i as int)[0] == lines@[i as int]@);
        assert(all.skip(i as int).drop_first() =~= all.skip(i + 1));
        if lines[i].index == target {
            let t = trim(lines[i].text.as_str());
            if t.as_str().is_empty() {
                return None;
            }
            return Some(t);
        }
        i += 1;
    }
    assert(all.skip(i as int) =~= Seq::<crate::lrc::LyricsLineView>::empty());
    None
}

/// The lyric the capsule shows when the track or its path is unknown: the
/// fallback title, version 0, no line and no timeline.
pub fn capsule_fallback_lyric(fallback_title: &str) -> (r: CapsuleLyricState)
    ensures
        r.line@ == fallback_title@,
        r.version == 0,
        r.index is None,
        r.timeline@.len() == 0,
{
    CapsuleLyricState { line: to_owned(fallback_title), version: 0, index: None, timeline: Vec::new() }
}

/// The key under which a track's resolved lyrics are kept: its id, audio
/// path and lyrics path, separated by `::`.
pub fn capsule_lyrics_cache_key(track_id: &str, audio_path: &str, lyrics_path: &str) -> (r: String)
    ensures
        r@ == track_id@ + "::"@ + audio_path@ + "::"@ + lyrics_path@,
{
    let a = crate::text::concat(track_id, "::");
    let b = crate::text::concat(a.as_str(), audio_path);
    let c = crate::text::concat(b.as_str(), "::");
    crate::text::concat(c.as_str(), lyrics_path)
}

} // verus!
