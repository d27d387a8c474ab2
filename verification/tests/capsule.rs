use ofplayer::capsule_artwork_cache::{
    plan_capsule_artwork, sanitize_file_component, CapsuleArtworkCache, CapsuleArtworkPlan,
    CapsuleArtworkRef,
};
use ofplayer::capsule_meter::{frame_differs, meter_send_needs_record, plan_meter_tick, CapsuleMeterFrame};
use ofplayer::capsule_state::{
    truncate_text, CapsuleBackpressureMode, CapsuleLyricState, CapsulePlaybackFacts,
    CapsuleStateStore, CapsuleTrackFields,
};

fn facts() -> CapsulePlaybackFacts {
    CapsulePlaybackFacts {
        active_track_id: None,
        is_playing: true,
        duration_ms: 1000,
        position_ms: 250,
    }
}

#[test]
fn slow_sends_raise_backpressure_by_severity() {
    let now = 1_000_000;
    let mut state = CapsuleStateStore::new();
    assert_eq!(state.backpressure_mode_at(now), CapsuleBackpressureMode::Normal);
    state.record_send_result_at("state", 150, 10, true, now);
    assert_eq!(state.backpressure_mode_at(now), CapsuleBackpressureMode::Pressured);
    assert_eq!(state.backpressure_mode_at(now + 2_000), CapsuleBackpressureMode::Normal);
    state.record_send_result_at("state", 600, 10, true, now);
    assert_eq!(state.backpressure_mode_at(now + 1), CapsuleBackpressureMode::Degraded);
    state.record_send_result_at("state", 1_600, 10, true, now);
    assert_eq!(state.backpressure_mode_at(now + 4_999), CapsuleBackpressureMode::Paused);
    assert_eq!(state.backpressure_mode_at(now + 5_000), CapsuleBackpressureMode::Normal);
}

#[test]
fn backpressure_gates_messages() {
    let now = 5_000_000;
    let mut state = CapsuleStateStore::new();
    assert!(state.allows_meter_at(now));
    assert!(state.allows_regular_state_at(now));
    assert_eq!(state.meter_interval_ms_at(now), 80);
    state.record_send_result_at("state", 200, 10, true, now);
    assert!(state.allows_meter_at(now));
    assert!(!state.allows_regular_state_at(now));
    assert_eq!(state.meter_interval_ms_at(now), 250);
    state.record_send_result_at("state", 700, 10, true, now);
    assert!(!state.allows_meter_at(now));
    assert!(state.allows_priority_state_at(now));
    assert!(state.allows_progress_anchor_at("play-toggle", now));
    assert!(!state.allows_progress_anchor_at("seek", now));
    assert_eq!(state.meter_interval_ms_at(now), 1_000);
    state.record_send_result_at("state", 2_000, 10, true, now);
    assert!(!state.allows_priority_state_at(now));
    assert!(!state.allows_progress_anchor_at("pause", now));
}

#[test]
fn closing_the_capsule_clears_pressure() {
    let now = 7_000_000;
    let mut state = CapsuleStateStore::default();
    state.mark_ready();
    assert!(state.is_ready());
    state.record_send_result_at("state", 2_000, 10, true, now);
    state.mark_closed();
    assert!(!state.is_ready());
    assert_eq!(state.backpressure_mode_at(now), CapsuleBackpressureMode::Normal);
}

#[test]
fn only_notable_sends_are_logged_and_the_ring_is_bounded() {
    let now = 9_000_000;
    let mut state = CapsuleStateStore::new();
    state.record_send_result_at("meter", 10, 64, true, now);
    assert!(state.drain_diagnostics_summary_at(now).is_none());
    state.record_send_result_at("meter", 10, 64, false, now);
    state.record_send_result_at("state", 10, 20_000, true, now);
    let summary = state.drain_diagnostics_summary_at(now).unwrap();
    assert_eq!(summary.entry_count, 2);
    assert_eq!(summary.entries[0].event, "capsule_send_failed");
    assert_eq!(summary.entries[1].event, "capsule_send_slow_or_large");
    assert_eq!(summary.diagnostics_version, "2026-05-09.3");
    assert!(state.drain_diagnostics_summary_at(now).is_none());
    for index in 0..100u64 {
        state.record_send_result_at("state", 60 + index, 1, true, now);
    }
    let summary = state.drain_diagnostics_summary_at(now).unwrap();
    assert_eq!(summary.entry_count, 96);
    assert_eq!(summary.entries[0].elapsed_ms, 64);
}

#[test]
fn slow_artwork_cache_misses_are_logged() {
    let now = 1_000;
    let mut state = CapsuleStateStore::new();
    state.record_artwork_cache_result_at(500, false, now);
    state.record_artwork_cache_result_at(50, true, now);
    assert!(state.drain_diagnostics_summary_at(now).is_none());
    state.record_artwork_cache_result_at(150, true, now);
    let summary = state.drain_diagnostics_summary_at(now).unwrap();
    assert_eq!(summary.entries[0].event, "capsule_artwork_cache_miss_slow");
    assert_eq!(summary.entries[0].send_kind, "artwork-cache");
}

#[test]
fn sequence_numbers_increase() {
    let mut state = CapsuleStateStore::new();
    assert_eq!(state.next_seq(), 1);
    assert_eq!(state.next_seq(), 2);
    let anchor = state.build_progress_anchor(facts(), 77);
    assert_eq!(anchor.seq, 3);
    assert_eq!(anchor.position_ms, 250);
    assert_eq!(anchor.sent_at_ms, 77);
    assert_eq!(state.take_lyric_version(), 1);
    assert_eq!(state.take_lyric_version(), 2);
}

#[test]
fn boot_state_falls_back_to_defaults() {
    let mut state = CapsuleStateStore::new();
    let lyric = CapsuleLyricState {
        line: String::from("Line"),
        version: 4,
        index: Some(1),
        timeline: Vec::new(),
    };
    let boot = state.build_boot_state(facts(), None, lyric, CapsuleArtworkRef::default(), 5);
    assert_eq!(boot.title, "Music is ready");
    assert_eq!(boot.artist, "OFPlayer");
    assert_eq!(boot.track_id, None);
    assert_eq!(boot.lyric_version, 4);

    let track = CapsuleTrackFields {
        id: Some(String::from("  track-9 ")),
        display_title: Some(String::from("   ")),
        title: Some(String::from(" Song ")),
        file_name: Some(String::from("song.flac")),
        artist: None,
        album_artist: Some(String::from("Band")),
    };
    let lyric = CapsuleLyricState { line: String::new(), version: 0, index: None, timeline: Vec::new() };
    let boot = state.build_boot_state(facts(), Some(track), lyric, CapsuleArtworkRef::default(), 6);
    assert_eq!(boot.title, "Song");
    assert_eq!(boot.artist, "Band");
    assert_eq!(boot.track_id.as_deref(), Some("track-9"));
    assert_eq!(boot.seq, 2);
}

#[test]
fn text_is_truncated_by_characters() {
    assert_eq!(truncate_text(String::from("héllo"), 2), "hé");
    assert_eq!(truncate_text(String::from("abc"), 5), "abc");
}

#[test]
fn artwork_plans_follow_the_source() {
    assert!(matches!(plan_capsule_artwork(Some("t"), None), CapsuleArtworkPlan::Missing));
    assert!(matches!(plan_capsule_artwork(Some("t"), Some("   ")), CapsuleArtworkPlan::Missing));
    match plan_capsule_artwork(Some("id/1"), Some("data:image/png;base64,SGVsbG8=")) {
        CapsuleArtworkPlan::Thumbnail { key, bytes } => {
            assert!(key.starts_with("id_1-"));
            assert_eq!(key.len(), "id_1-".len() + 16);
            assert_eq!(bytes, b"Hello".to_vec());
        }
        _ => panic!("expected a thumbnail"),
    }
    assert!(matches!(
        plan_capsule_artwork(None, Some("data:image/png;base64")),
        CapsuleArtworkPlan::Unusable
    ));
    let long = "x".repeat(1025);
    assert!(matches!(plan_capsule_artwork(None, Some(&long)), CapsuleArtworkPlan::Unusable));
    match plan_capsule_artwork(None, Some(" https://example.test/a.jpg ")) {
        CapsuleArtworkPlan::External { key, src } => {
            assert!(key.starts_with("external-"));
            assert_eq!(src, "https://example.test/a.jpg");
        }
        _ => panic!("expected an external source"),
    }
}

#[test]
fn file_components_are_sanitized() {
    assert_eq!(sanitize_file_component("a b/c-d_e"), "a_b_c-d_e");
    assert_eq!(sanitize_file_component(""), "track");
}

#[test]
fn the_artwork_cache_keeps_recent_keys_once() {
    let mut cache = CapsuleArtworkCache::new();
    assert!(cache.remember_key("k0").is_empty());
    assert!(cache.remember_key("k0").is_empty());
    for index in 1..96 {
        assert!(cache.remember_key(&format!("k{index}")).is_empty());
    }
    let evicted = cache.remember_key("k96");
    assert_eq!(evicted, vec![String::from("k0")]);
}

#[test]
fn meter_frames_and_ticks() {
    let frame = CapsuleMeterFrame::from_levels(3, &[0, 0, 9], 10);
    assert!(frame.is_playing);
    assert_eq!(frame.levels, [0, 0, 9, 0, 0, 0, 0, 0]);
    let silent = CapsuleMeterFrame::from_levels(4, &[], 10);
    assert!(!silent.is_playing);
    assert!(frame_differs(&None, &frame));
    assert!(!frame_differs(&Some(frame.clone()), &frame));
    assert!(frame_differs(&Some(silent), &frame));
    let mut state = CapsuleStateStore::new();
    let tick = plan_meter_tick(&state, 0);
    assert!(!tick.send);
    assert_eq!(tick.interval_ms, 250);
    state.mark_ready();
    let tick = plan_meter_tick(&state, 0);
    assert!(tick.send);
    assert_eq!(tick.interval_ms, 80);
    assert!(!meter_send_needs_record(50, true));
    assert!(meter_send_needs_record(51, true));
    assert!(meter_send_needs_record(1, false));
}
