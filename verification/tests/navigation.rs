use ofplayer::desktop_types::{NavigationQueryDiagnostics, NavigationQueryRequest};
use ofplayer::navigation::{
    escape_sql_like, is_known_smart_view_key, normalize_recent_query, normalize_recent_type_filter,
    parse_collection_ref, resolve_active_collection_key, resolve_projection_format,
    resolve_active_library_id, resolve_default_collection_key, summarize_navigation,
    unique_existing_track_ids, collection_track_source, recent_page_window, ActiveLibraryNavigationData,
    CollectionRefKind, CollectionTrackSource, PlaylistHeader,
};

fn header(id: &str, system_key: Option<&str>) -> PlaylistHeader {
    PlaylistHeader { id: String::from(id), system_key: system_key.map(String::from) }
}

fn ids(values: &[&str]) -> Vec<String> {
    values.iter().map(|value| String::from(*value)).collect()
}

#[test]
fn collection_refs_are_parsed() {
    assert!(matches!(parse_collection_ref("playlist:p1"), CollectionRefKind::Playlist(id) if id == "p1"));
    assert!(matches!(parse_collection_ref("view:albums"), CollectionRefKind::View(key) if key == "albums"));
    assert!(matches!(parse_collection_ref("playlist:  "), CollectionRefKind::Invalid));
    assert!(matches!(parse_collection_ref("folder:x"), CollectionRefKind::Invalid));
    assert!(is_known_smart_view_key("all-plays"));
    assert!(!is_known_smart_view_key("all-tracks"));
}

#[test]
fn active_library_prefers_an_existing_choice() {
    let libraries = ids(&["a", "b"]);
    assert_eq!(resolve_active_library_id(&libraries, Some("b")).as_deref(), Some("b"));
    assert_eq!(resolve_active_library_id(&libraries, Some("z")).as_deref(), Some("a"));
    assert_eq!(resolve_active_library_id(&Vec::new(), Some("z")), None);
}

#[test]
fn default_collection_is_the_all_tracks_playlist() {
    let playlists = vec![header("p1", None), header("p2", Some("all-tracks"))];
    assert_eq!(resolve_default_collection_key(&playlists).as_deref(), Some("playlist:p2"));
    assert_eq!(
        resolve_default_collection_key(&vec![header("p1", None)]).as_deref(),
        Some("playlist:p1")
    );
    assert_eq!(resolve_default_collection_key(&Vec::new()).as_deref(), Some("view:recent-imports"));
    assert_eq!(
        resolve_active_collection_key(Some("playlist:p1"), &playlists, Some("playlist:p2")).as_deref(),
        Some("playlist:p1")
    );
    assert_eq!(
        resolve_active_collection_key(Some("playlist:gone"), &playlists, Some("playlist:p2")).as_deref(),
        Some("playlist:p2")
    );
    assert_eq!(
        resolve_active_collection_key(Some("view:favorites"), &playlists, None),
        None
    );
}

#[test]
fn unique_existing_ids_keep_first_order() {
    let valid = ids(&["a", "b", "c"]);
    assert_eq!(
        unique_existing_track_ids(&ids(&["c", "x", "a", "c", "b", "a"]), &valid),
        ids(&["c", "a", "b"])
    );
}

#[test]
fn like_patterns_are_escaped() {
    assert_eq!(escape_sql_like("100%_a\\b"), "100\\%\\_a\\\\b");
}

#[test]
fn summary_counts_each_collection() {
    let data = ActiveLibraryNavigationData {
        library_track_ids: ids(&["t1", "t2", "t3"]),
        recent_import_count: 2,
        favorite_count: 1,
        recently_played_count: 3,
        queue_track_ids: ids(&["t1", "t9", "t1", "t2"]),
        album_group_count: 4,
        artist_group_count: 5,
        playlists: vec![header("all", Some("all-tracks")), header("mine", None)],
        playlist_track_ids: vec![Vec::new(), ids(&["t2", "t2", "gone"])],
    };
    let request = NavigationQueryRequest {
        active_library: Some(String::from("lib")),
        active_collection_ref: Some(String::from("view:current-queue")),
    };
    let result = summarize_navigation(
        &request,
        vec![(String::from("lib"), 3)],
        Some(String::from("lib")),
        &data,
        NavigationQueryDiagnostics::default(),
    );
    assert_eq!(result.active_collection_key.as_deref(), Some("view:current-queue"));
    assert_eq!(result.playlist_track_counts, vec![(String::from("all"), 3), (String::from("mine"), 1)]);
    assert_eq!(result.smart_collection_counts[3], (String::from("current-queue"), 2));
    assert_eq!(result.smart_collection_counts[5], (String::from("artists"), 5));
}

#[test]
fn recent_queries_and_formats_are_normalized() {
    assert_eq!(normalize_recent_query("  ÄbC "), "äbc");
    assert_eq!(normalize_recent_type_filter(" flac"), "FLAC");
    assert_eq!(resolve_projection_format(Some(" flac "), None), "FLAC");
    assert_eq!(resolve_projection_format(None, Some("song.mp3")), "MP3");
    assert_eq!(resolve_projection_format(Some("  "), Some("noext")), "NOEXT");
    assert_eq!(resolve_projection_format(None, Some("a.")), "AUDIO");
    assert_eq!(resolve_projection_format(None, None), "AUDIO");
}

#[test]
fn collection_sources_follow_the_reference() {
    let playlists = vec![
        PlaylistHeader { id: String::from("p-all"), system_key: Some(String::from("all-tracks")) },
        PlaylistHeader { id: String::from("p1"), system_key: None },
    ];
    assert_eq!(collection_track_source(None, &playlists), CollectionTrackSource::LibraryOrder);
    assert_eq!(collection_track_source(Some("playlist:p-all"), &playlists), CollectionTrackSource::LibraryOrder);
    assert_eq!(
        collection_track_source(Some("playlist:p1"), &playlists),
        CollectionTrackSource::Playlist(String::from("p1"))
    );
    assert_eq!(
        collection_track_source(Some("playlist:gone"), &playlists),
        CollectionTrackSource::Playlist(String::from("gone"))
    );
    assert_eq!(collection_track_source(Some("view:recent-imports"), &playlists), CollectionTrackSource::ImportDate);
    assert_eq!(collection_track_source(Some("view:all-plays"), &playlists), CollectionTrackSource::RecentlyPlayed);
    assert_eq!(collection_track_source(Some("view:all-favorites"), &playlists), CollectionTrackSource::Favorites);
    assert_eq!(collection_track_source(Some("view:current-queue"), &playlists), CollectionTrackSource::CurrentQueue);
    assert_eq!(collection_track_source(Some("view:albums"), &playlists), CollectionTrackSource::LibraryOrder);
    assert_eq!(collection_track_source(Some("view:artists"), &playlists), CollectionTrackSource::LibraryOrder);
    assert_eq!(collection_track_source(Some("view:unknown"), &playlists), CollectionTrackSource::Nothing);
    assert_eq!(collection_track_source(Some("nonsense"), &playlists), CollectionTrackSource::LibraryOrder);
}

#[test]
fn recent_pages_stay_inside_the_results() {
    assert_eq!(recent_page_window(Some(10), Some(5), 12), (10, 2));
    assert_eq!(recent_page_window(None, Some(5), 12), (12, 0));
    assert_eq!(recent_page_window(Some(50), None, 12), (12, 0));
    assert_eq!(recent_page_window(Some(3), Some(4), 12), (3, 4));
    assert_eq!(recent_page_window(Some(3), Some(4), 0), (0, 0));
}
