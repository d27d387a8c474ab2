use ofplayer::session_queue::{plan_session_advance, plan_session_selection};

fn ids(values: &[&str]) -> Vec<String> {
    values.iter().map(|v| String::from(*v)).collect()
}

#[test]
fn selecting_a_queued_track_changes_the_current_track() {
    let queue = ids(&["a", "b", "c"]);
    let catalog = ids(&["a", "b", "c", "d"]);
    let selection = plan_session_selection(&queue, Some("a"), &catalog, "b", None).unwrap();
    assert_eq!(selection.queue_track_ids, queue);
    assert_eq!(selection.current_track_id, "b");
    assert!(selection.changed);
    assert!(selection.current_track_changed);
}

#[test]
fn selecting_the_current_track_again_changes_nothing() {
    let queue = ids(&["a", "b"]);
    let catalog = ids(&["a", "b"]);
    let selection = plan_session_selection(&queue, Some("b"), &catalog, "b", None).unwrap();
    assert!(!selection.changed);
    assert!(!selection.current_track_changed);
    let with_new_queue =
        plan_session_selection(&queue, Some("b"), &catalog, "b", Some(ids(&["b"]))).unwrap();
    assert_eq!(with_new_queue.queue_track_ids, ids(&["b"]));
    assert!(with_new_queue.changed);
    assert!(!with_new_queue.current_track_changed);
}

#[test]
fn selection_errors() {
    let queue = ids(&["a"]);
    let catalog = ids(&["a", "b"]);
    assert_eq!(
        plan_session_selection(&queue, None, &catalog, "z", None).unwrap_err(),
        "Selected track was not found in the desktop catalog."
    );
    assert_eq!(
        plan_session_selection(&queue, None, &catalog, "b", None).unwrap_err(),
        "Selected track is not available in the current playback queue."
    );
    assert_eq!(
        plan_session_selection(&queue, None, &catalog, "b", Some(ids(&["a"]))).unwrap_err(),
        "Selected track is not available in the supplied playback queue."
    );
    let selection = plan_session_selection(&queue, None, &catalog, "b", Some(ids(&["a", "b"]))).unwrap();
    assert!(selection.current_track_changed);
}

#[test]
fn stepping_to_a_neighbour() {
    assert_eq!(plan_session_advance(Some("a"), None), None);
    assert_eq!(plan_session_advance(Some("a"), Some(String::from("b"))), Some((String::from("b"), true)));
    assert_eq!(plan_session_advance(Some("b"), Some(String::from("b"))), Some((String::from("b"), false)));
    assert_eq!(plan_session_advance(None, Some(String::from("b"))), Some((String::from("b"), true)));
}
