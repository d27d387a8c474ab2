use ofplayer::playlist_ops::{
    assert_user_playlist, ensure_track_matches_playlist_library, plan_playlist_track_insert,
    plan_playlist_track_removal, reorder_relation_indices, PlaylistInsert,
};

fn ids(values: &[&str]) -> Vec<Option<String>> {
    values.iter().map(|v| Some(String::from(*v))).collect()
}

#[test]
fn only_user_playlists_are_edited() {
    assert!(assert_user_playlist(Some("user")).is_ok());
    assert_eq!(assert_user_playlist(Some("system")).unwrap_err(), "System playlists cannot be modified.");
    assert_eq!(assert_user_playlist(Some("other")).unwrap_err(), "Playlist not found.");
    assert_eq!(assert_user_playlist(None).unwrap_err(), "Playlist not found.");
}

#[test]
fn tracks_join_playlists_of_their_library() {
    assert!(ensure_track_matches_playlist_library(Some("a"), Some("a")).is_ok());
    assert_eq!(
        ensure_track_matches_playlist_library(Some("a"), Some("b")).unwrap_err(),
        "Track and playlist must belong to the same library."
    );
    assert_eq!(
        ensure_track_matches_playlist_library(None, Some("b")).unwrap_err(),
        "Missing string field 'libraryId' on desktop track."
    );
    assert_eq!(
        ensure_track_matches_playlist_library(Some("a"), None).unwrap_err(),
        "Missing string field 'libraryId' on desktop playlist."
    );
}

#[test]
fn added_tracks_go_where_asked_once() {
    let tracks = ids(&["t1", "t2"]);
    assert_eq!(plan_playlist_track_insert(&tracks, "t2", Some(0)), PlaylistInsert::Existing(1));
    assert_eq!(plan_playlist_track_insert(&tracks, "t3", Some(1)), PlaylistInsert::Insert(1));
    assert_eq!(plan_playlist_track_insert(&tracks, "t3", Some(9)), PlaylistInsert::Insert(2));
    assert_eq!(plan_playlist_track_insert(&tracks, "t3", None), PlaylistInsert::Insert(2));
}

#[test]
fn removals_drop_the_first_relation_of_the_track() {
    let tracks = ids(&["t1", "t2", "t2"]);
    let relations = ids(&["r1", "r2", "r3"]);
    let removal = plan_playlist_track_removal(&tracks, &relations, "t2").unwrap().unwrap();
    assert_eq!(removal.deleted_relation_id, "r2");
    assert_eq!(removal.kept, vec![0, 2]);
    assert!(plan_playlist_track_removal(&tracks, &relations, "t9").unwrap().is_none());
    let anonymous = vec![Some(String::from("r1")), None, None];
    assert_eq!(
        plan_playlist_track_removal(&tracks, &anonymous, "t2").err().unwrap(),
        "Missing string field 'id' on desktop playlist-track relation."
    );
}

#[test]
fn reorders_place_requested_tracks_first() {
    let tracks = ids(&["a", "b", "c", "d"]);
    let ordered = vec![String::from("c"), String::from("x"), String::from("a"), String::from("c")];
    assert_eq!(reorder_relation_indices(&tracks, &ordered).unwrap(), vec![2, 0, 1, 3]);
    let duplicated = ids(&["a", "b", "a"]);
    assert_eq!(reorder_relation_indices(&duplicated, &vec![String::from("a")]).unwrap(), vec![2, 1]);
    let broken = vec![Some(String::from("a")), None];
    assert_eq!(
        reorder_relation_indices(&broken, &Vec::new()).unwrap_err(),
        "Missing string field 'trackId' on desktop playlist-track relation."
    );
}
