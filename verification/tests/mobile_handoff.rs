use ofplayer::mobile_handoff::{
    build_event_record, build_event_record_with, MobileHandoffEventRequest, MobileHandoffState,
};

fn request(event: &str) -> MobileHandoffEventRequest {
    MobileHandoffEventRequest {
        event: String::from(event),
        platform: None,
        direction: None,
        transport: None,
        phase: None,
        outcome: None,
        duration_ms: None,
        error_code: None,
        session_id: None,
        device_id: None,
        track_matched: None,
        queue_size: None,
        position_drift_ms: None,
    }
}

#[test]
fn build_event_record_rejects_unknown_events() {
    let result = build_event_record(MobileHandoffEventRequest {
        event: String::from("handoff.unknown"),
        platform: None,
        direction: None,
        transport: None,
        phase: None,
        outcome: None,
        duration_ms: None,
        error_code: None,
        session_id: None,
        device_id: None,
        track_matched: None,
        queue_size: None,
        position_drift_ms: None,
    });

    assert!(result.is_err());
}

#[test]
fn build_event_record_sanitizes_attributes() {
    let record = build_event_record(MobileHandoffEventRequest {
        event: String::from("STREAM.TRANSFER_READY"),
        platform: Some(String::from("Android")),
        direction: Some(String::from("phone-to-desktop")),
        transport: Some(String::from("http-file")),
        phase: Some(String::from("transfer")),
        outcome: Some(String::from("succeeded")),
        duration_ms: Some(200),
        error_code: Some(String::from("Ignored Raw Text!")),
        session_id: Some(String::from("session-123")),
        device_id: Some(String::from("device-123")),
        track_matched: Some(true),
        queue_size: Some(12),
        position_drift_ms: Some(35),
    })
    .unwrap();

    assert_eq!(record.event, "stream.transfer_ready");
    assert_eq!(record.attributes.platform.as_deref(), Some("android"));
    assert_eq!(record.attributes.error_code, None);
    assert_eq!(record.attributes.track_matched, Some(true));
    assert_eq!(record.attributes.queue_size, Some(12));
    assert!(record.attributes.session_key.is_some());
    assert!(record.attributes.device_key.is_some());
}

#[test]
fn fingerprints_are_stable_and_hide_the_identifier() {
    let mut a = request("stream.transfer_ready");
    a.session_id = Some(String::from("  Session-123 "));
    let mut b = request("stream.transfer_ready");
    b.session_id = Some(String::from("session-123"));
    let ra = build_event_record_with(a, String::from("id-a"), String::from("t")).unwrap();
    let rb = build_event_record_with(b, String::from("id-b"), String::from("t")).unwrap();
    let key = ra.attributes.session_key.clone().unwrap();
    assert_eq!(ra.attributes.session_key, rb.attributes.session_key);
    assert!(key.starts_with('h'));
    assert_eq!(key.len(), 17);
    assert!(!key.contains("session"));
}

#[test]
fn negative_numbers_are_dropped_and_large_ones_capped() {
    let mut r = request("stream.transfer_ready");
    r.duration_ms = Some(-5);
    r.queue_size = Some(i64::MAX);
    let record = build_event_record_with(r, String::from("id"), String::from("t")).unwrap();
    assert_eq!(record.attributes.duration_ms, None);
    assert_eq!(record.attributes.queue_size, Some(10_000));
}

#[test]
fn recorded_events_keep_order_and_the_latest_time() {
    let mut state = MobileHandoffState::new(String::from("start"));
    for index in 0..3 {
        let record = build_event_record_with(
            request("stream.transfer_ready"),
            format!("id-{index}"),
            format!("t-{index}"),
        )
        .unwrap();
        state.record_event(record);
    }
    let snapshot = state.snapshot();
    assert_eq!(snapshot.recent_event_count, 3);
    assert_eq!(snapshot.recent_events[0].id, "id-0");
    assert_eq!(snapshot.recent_events[2].id, "id-2");
    assert_eq!(snapshot.last_event_at.as_deref(), Some("t-2"));
    assert_eq!(snapshot.started_at, "start");
}

#[test]
fn the_event_log_is_bounded() {
    let mut state = MobileHandoffState::new(String::from("start"));
    for index in 0..200 {
        let record = build_event_record_with(
            request("stream.transfer_ready"),
            format!("id-{index}"),
            String::from("t"),
        )
        .unwrap();
        state.record_event(record);
    }
    let snapshot = state.snapshot();
    assert_eq!(snapshot.recent_event_count, 128);
    assert_eq!(snapshot.recent_events[0].id, "id-72");
    assert_eq!(snapshot.recent_events[127].id, "id-199");
}
