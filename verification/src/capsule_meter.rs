//! The audio level frames sent to the lyric capsule, and when they go out.
use vstd::prelude::*;
use crate::capsule_state::{mode_allows_meter, mode_meter_interval_ms, opt_view, CapsuleStateStore};

verus! {

pub const CAPSULE_METER_EVENT: &'static str = "capsule://meter";
pub const CAPSULE_METER_IDLE_INTERVAL_MS: u64 = 250;
pub const CAPSULE_METER_PAYLOAD_BYTES: usize = 64;
pub const CAPSULE_METER_SLOW_SEND_MS: u64 = 50;

/// Eight audio levels, each scaled to `0..=255`.
#[derive(Debug, Clone)]
pub struct CapsuleMeterFrame {
    pub seq: u64,
    pub track_id: Option<String>,
    pub is_playing: bool,
    pub levels: [u8; 8],
    pub sent_at_ms: u64,
}

/// The level at `i` of `levels`, zero past its end.
pub open spec fn level_or_zero(levels: Seq<u8>, i: int) -> u8 {
    if 0 <= i < levels.len() {
        levels[i]
    } else {
        0
    }
}

fn level_at(levels: &[u8], i: usize) -> (r: u8)
    ensures
        r == level_or_zero(levels@, i as int),
{
    if i < levels.len() {
        levels[i]
    } else {
        0
    }
}

impl CapsuleMeterFrame {
    /// A frame of the first eight of `scaled_levels` (missing ones are zero);
    /// it counts as playing when any level is above zero.
    pub fn from_levels(seq: u64, scaled_levels: &[u8], sent_at_ms: u64) -> (r: Self)
        ensures
            r.seq == seq,
            r.track_id is None,
            r.sent_at_ms == sent_at_ms,
            forall|i: int| 0 <= i < 8 ==> r.levels@[i] == level_or_zero(scaled_levels@, i),
            r.is_playing == exists|i: int| 0 <= i < 8 && level_or_zero(scaled_levels@, i) > 0,
    {
        let levels: [u8; 8] = [
            level_at(scaled_levels, 0),
            level_at(scaled_levels, 1),
            level_at(scaled_levels, 2),
            level_at(scaled_levels, 3),
            level_at(scaled_levels, 4),
            level_at(scaled_levels, 5),
            level_at(scaled_levels, 6),
            level_at(scaled_levels, 7),
        ];
        let mut is_playing = false;
        let mut i: usize = 0;
        while i < 8
            invariant
                i <= 8,
                levels@.len() == 8,
                forall|k: int| 0 <= k < 8 ==> levels@[k] == level_or_zero(scaled_levels@, k),
                is_playing == exists|k: int| 0 <= k < i && level_or_zero(scaled_levels@, k) > 0,
            decreases 8 - i,
        {
            if levels[i] > 0 {
                is_playing = true;
            }
            i += 1;
        }
        CapsuleMeterFrame { seq, track_id: None, is_playing, levels, sent_at_ms }
    }
}

/// Whether two frames carry the same content.
pub open spec fn same_frame(a: CapsuleMeterFrame, b: CapsuleMeterFrame) -> bool {
    &&& a.seq == b.seq
    &&& opt_view(a.track_id) == opt_view(b.track_id)
    &&& a.is_playing == b.is_playing
    &&& a.levels@ == b.levels@
    &&& a.sent_at_ms == b.sent_at_ms
}

/// Whether `frame` differs from the last one sent (always, when none was).
#[verifier::loop_isolation(false)]
pub fn frame_differs(last: &Option<CapsuleMeterFrame>, frame: &CapsuleMeterFrame) -> (r: bool)
    ensures
        r == match last {
            Some(l) => !same_frame(*l, *frame),
            None => true,
        },
{
    match last {
        None => true,
        Some(l) => {
            if l.seq != frame.seq || l.is_playing != frame.is_playing || l.sent_at_ms
                != frame.sent_at_ms {
                return true;
            }
            let same_track = match (&l.track_id, &frame.track_id) {
                (None, None) => true,
                (Some(a), Some(b)) => crate::text::str_eq(a.as_str(), b.as_str()),
                _ => false,
            };
            if !same_track {
                return true;
            }
            let mut i: usize = 0;
            while i < 8
                invariant
                    i <= 8,
                    l.levels@.len() == 8,
                    frame.levels@.len() == 8,
                    forall|k: int| 0 <= k < i ==> l.levels@[k] == frame.levels@[k],
                decreases 8 - i,
            {
                if l.levels[i] != frame.levels[i] {
                    assert(l.levels@[i as int] != frame.levels@[i as int]);
                    return true;
                }
                i += 1;
            }
            assert(l.levels@ =~= frame.levels@);
            false
        },
    }
}

/// One round of the meter loop: how long to wait and whether to send.
#[derive(Debug, Clone, Copy)]
pub struct CapsuleMeterTick {
    pub interval_ms: u64,
    pub send: bool,
}

/// The meter round at `now`: frames go out while the capsule is ready and
/// the mode allows them, at the mode's interval; otherwise the loop idles at
/// `CAPSULE_METER_IDLE_INTERVAL_MS`.
pub fn plan_meter_tick(state: &CapsuleStateStore, now: u64) -> (r: CapsuleMeterTick)
    ensures
        r.send == (state.ready_flag() && mode_allows_meter(state.mode_at(now))),
        r.interval_ms == if r.send {
            mode_meter_interval_ms(state.mode_at(now))
        } else {
            CAPSULE_METER_IDLE_INTERVAL_MS
        },
{
    let send = state.is_ready() && state.allows_meter_at(now);
    let interval_ms = if send {
        state.meter_interval_ms_at(now)
    } else {
        CAPSULE_METER_IDLE_INTERVAL_MS
    };
    CapsuleMeterTick { interval_ms, send }
}

/// A meter send is recorded only when it failed or took longer than
/// `CAPSULE_METER_SLOW_SEND_MS`.
pub fn meter_send_needs_record(elapsed_ms: u64, ok: bool) -> (r: bool)
    ensures
        r == !(elapsed_ms <= CAPSULE_METER_SLOW_SEND_MS && ok),
{
    !(elapsed_ms <= CAPSULE_METER_SLOW_SEND_MS && ok)
}

} // verus!
