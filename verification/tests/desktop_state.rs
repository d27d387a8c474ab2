use ofplayer::desktop_state::{
    artwork_retention, bootstrap_diagnostics, bootstrap_options, history_query_limit, next_revision, clear_deleted_import_paths_for_tracks,
    collect_import_path_keys, distinct_texts, invalidated_track_ids, invalidation_candidates,
    sorted_unique_texts, BootstrapStepTimes, LocalTrackState,
    collect_normalized_scan_directories, insert_import_key, is_local_indexed_track,
    managed_storage_root, normalize_batch_track_ids, normalize_entity_name,
    normalize_import_directory, normalize_import_path, parse_track_artwork_snapshot_mode,
    path_matches_scan_directories, register_import_path_keys,
    remember_deleted_import_paths_for_tracks, remove_import_key, reset_table_names,
    track_album_artwork_key, DesktopStateStore, TrackAlbumFields, TrackArtworkSnapshotMode,
    TrackSourcePaths,
};
use ofplayer::desktop_types::{
    DesktopBootstrapRequest, DesktopStateRevisions, LibraryImportCandidatesRequest, LibraryImportFileInput, NavigationQueryDiagnostics,
    NavigationQueryRequest,
};
use ofplayer::diagnostics::ProcessResourceDiagnostics;
use ofplayer::navigation::ActiveLibraryNavigationData;

fn file(source: &str, original: Option<&str>) -> LibraryImportFileInput {
    LibraryImportFileInput {
        source_path: String::from(source),
        file_name: Some(String::from(" song.flac ")),
        original_path: original.map(String::from),
    }
}

fn initialized() -> DesktopStateStore {
    let mut store = DesktopStateStore::new();
    assert!(store.initialize_with(String::from("/data/ofplayer-desktop.sqlite3")));
    store
}

#[test]
fn import_paths_are_normalized() {
    assert_eq!(normalize_import_path("  C:/Music/Album/Song.FLAC "), "c:\\music\\album\\song.flac");
    assert_eq!(normalize_import_directory("D:/Music///"), "d:\\music");
    assert_eq!(
        collect_normalized_scan_directories(&[
            String::from("D:/Music/"),
            String::from("d:\\music"),
            String::from("  "),
            String::from("E:/Other"),
        ]),
        vec![String::from("d:\\music"), String::from("e:\\other")]
    );
}

#[test]
fn scan_directories_match_whole_components() {
    let dirs = vec![String::from("d:\\music")];
    assert!(path_matches_scan_directories("d:\\music\\a.flac", &dirs));
    assert!(path_matches_scan_directories("d:\\music", &dirs));
    assert!(!path_matches_scan_directories("d:\\music2\\a.flac", &dirs));
    assert!(path_matches_scan_directories("x:\\anything", &[]));
}

#[test]
fn import_filter_skips_known_and_repeated_paths() {
    let store = initialized();
    let existing = collect_import_path_keys(&[TrackSourcePaths {
        path: Some(String::from("D:/Music/old.flac")),
        origin_path: None,
    }]);
    let request = LibraryImportCandidatesRequest {
        library_id: String::from("library-1"),
        files: vec![
            file("d:\\music\\OLD.flac", None),
            file(" D:/Music/new.flac ", None),
            file("E:/copy/new-copy.flac", Some("d:/music/new.flac")),
            file("D:/Music/other.flac", Some("   ")),
        ],
        respect_deleted_import_paths: None,
    };
    let accepted = store
        .filter_library_import_candidates(&request, &existing, &Vec::new())
        .unwrap();
    assert_eq!(accepted.len(), 2);
    assert_eq!(accepted[0].source_path, "D:/Music/new.flac");
    assert_eq!(accepted[0].original_path.as_deref(), Some("D:/Music/new.flac"));
    assert_eq!(accepted[0].file_name.as_deref(), Some("song.flac"));
    assert_eq!(accepted[1].source_path, "D:/Music/other.flac");
    assert_eq!(accepted[1].original_path.as_deref(), Some("D:/Music/other.flac"));
}

#[test]
fn deleted_paths_count_only_when_respected() {
    let store = initialized();
    let deleted = vec![normalize_import_path("D:/Music/deleted.flac")];
    let mut request = LibraryImportCandidatesRequest {
        library_id: String::from("library-1"),
        files: vec![file("D:/Music/deleted.flac", None)],
        respect_deleted_import_paths: Some(true),
    };
    let automatic = store
        .filter_library_import_candidates(&request, &Vec::new(), &deleted)
        .unwrap();
    assert!(automatic.is_empty());
    request.respect_deleted_import_paths = Some(false);
    let manual = store
        .filter_library_import_candidates(&request, &Vec::new(), &deleted)
        .unwrap();
    assert_eq!(manual.len(), 1);
}

#[test]
fn import_filter_rejects_blank_source_paths() {
    let store = initialized();
    let request = LibraryImportCandidatesRequest {
        library_id: String::from("library-1"),
        files: vec![file("D:/a.flac", None), file("   ", None)],
        respect_deleted_import_paths: None,
    };
    let error = store
        .filter_library_import_candidates(&request, &Vec::new(), &Vec::new())
        .unwrap_err();
    assert_eq!(error, "Import candidate is missing a source path.");
}

#[test]
fn track_keys_cover_both_paths() {
    let mut keys = Vec::new();
    register_import_path_keys(
        &mut keys,
        &TrackSourcePaths {
            path: Some(String::from("C:/Cache/x.flac")),
            origin_path: Some(String::from("D:/Music/X.flac")),
        },
    );
    assert_eq!(keys, vec![String::from("c:\\cache\\x.flac"), String::from("d:\\music\\x.flac")]);
    register_import_path_keys(&mut keys, &TrackSourcePaths { path: Some(String::from("  ")), origin_path: None });
    assert_eq!(keys.len(), 2);
}

#[test]
fn commands_need_an_initialized_database() {
    let mut store = DesktopStateStore::default();
    let error = store.delete_libraries(&[String::from("a")]).unwrap_err();
    assert_eq!(error, "Desktop state database was accessed before initialization completed.");
    assert!(store.reset_all_data(None).is_err());
    assert!(store.connection_path().is_err());
    assert!(store.initialize_with(String::from("db")));
    assert!(!store.initialize_with(String::from("other")));
    assert_eq!(store.connection_path().unwrap(), "db");
}

#[test]
fn delete_plans_name_their_tables() {
    let mut store = initialized();
    let ids = vec![String::from("x"), String::from("y")];
    let plan = store.delete_libraries(&ids).unwrap();
    assert_eq!(plan.table_name, "libraries");
    assert_eq!(plan.ids, ids);
    assert_eq!(store.delete_playlists(&ids).unwrap().table_name, "playlists");
    assert_eq!(
        store.delete_playlist_track_relations(&ids).unwrap().entity_label,
        "desktop playlist-track relations"
    );
    assert_eq!(store.delete_tracks(&ids).unwrap().table_name, "tracks");
}

#[test]
fn deleting_bumps_catalog_and_navigation_even_without_ids() {
    let mut store = initialized();
    store.mark_catalog_consistency_checked();
    let plan = store.delete_tracks(&[]).unwrap();
    assert!(plan.ids.is_empty());
    assert_eq!(plan.revisions_to_bump, vec!["revision.catalog", "revision.navigation"]);
    assert!(store.needs_catalog_consistency_check());
    let mut fresh = DesktopStateStore::default();
    assert_eq!(
        fresh.delete_tracks(&[String::from("t")]).unwrap_err(),
        "Desktop state database was accessed before initialization completed."
    );
    assert_eq!(next_revision(None), 1);
    assert_eq!(next_revision(Some(41)), 42);
    assert_eq!(next_revision(Some(u64::MAX)), u64::MAX);
}

#[test]
fn catalog_changes_require_a_new_consistency_check() {
    let mut store = initialized();
    assert!(store.needs_catalog_consistency_check());
    store.mark_catalog_consistency_checked();
    assert!(!store.needs_catalog_consistency_check());
    let keys = store.mark_catalog_structure_changed();
    assert_eq!(keys, vec!["revision.catalog", "revision.navigation"]);
    assert!(store.needs_catalog_consistency_check());
}

#[test]
fn reset_reports_the_removed_storage() {
    let mut store = initialized();
    store.mark_catalog_consistency_checked();
    let result = store.reset_all_data(Some(String::from("D:/Managed"))).unwrap();
    assert!(result.managed_storage_deleted);
    assert_eq!(result.managed_storage_path.as_deref(), Some("D:/Managed"));
    assert!(store.needs_catalog_consistency_check());
    assert_eq!(reset_table_names().len(), 7);
    assert_eq!(managed_storage_root(Some(String::from("  "))), None);
    assert_eq!(managed_storage_root(Some(String::from("D:/M"))).as_deref(), Some("D:/M"));
}

#[test]
fn navigation_summary_without_libraries_is_empty() {
    let store = initialized();
    let data = ActiveLibraryNavigationData {
        library_track_ids: Vec::new(),
        recent_import_count: 0,
        favorite_count: 0,
        recently_played_count: 0,
        queue_track_ids: Vec::new(),
        album_group_count: 0,
        artist_group_count: 0,
        playlists: Vec::new(),
        playlist_track_ids: Vec::new(),
    };
    let request = NavigationQueryRequest { active_library: None, active_collection_ref: None };
    let result = store
        .resolve_navigation_summary(&request, &Vec::new(), Vec::new(), &data, NavigationQueryDiagnostics::default())
        .unwrap();
    assert!(result.active_library.is_none());
    assert!(result.smart_collection_counts.is_empty());
}

fn album_track(library: &str) -> TrackAlbumFields {
    TrackAlbumFields {
        library_id: Some(String::from(library)),
        album: Some(String::from("Shared Album")),
        album_artist: Some(String::from("Shared Artist")),
        artist: Some(String::from("Track Artist")),
    }
}

#[test]
fn album_artwork_snapshot_key_is_scoped_per_library() {
    let first_library_track = album_track("library-a");
    let second_library_track = album_track("library-b");
    assert_ne!(
        track_album_artwork_key(&first_library_track),
        track_album_artwork_key(&second_library_track)
    );
}

#[test]
fn album_artwork_key_falls_back_to_placeholders() {
    assert_eq!(
        track_album_artwork_key(&album_track("Library-A")),
        "library-a\u{1f}shared album\u{1f}shared artist"
    );
    let bare = TrackAlbumFields {
        library_id: None,
        album: None,
        album_artist: None,
        artist: Some(String::from("Solo")),
    };
    assert_eq!(
        track_album_artwork_key(&bare),
        "<unknown-library>\u{1f}<unknown-album>\u{1f}solo"
    );
    let empty = TrackAlbumFields { library_id: None, album: None, album_artist: None, artist: None };
    assert_eq!(
        track_album_artwork_key(&empty),
        "<unknown-library>\u{1f}<unknown-album>\u{1f}<unknown-artist>"
    );
}

#[test]
fn artwork_modes_are_parsed_leniently() {
    assert_eq!(parse_track_artwork_snapshot_mode(Some(" NONE ")), TrackArtworkSnapshotMode::NoArtwork);
    assert_eq!(
        parse_track_artwork_snapshot_mode(Some("Album-Covers")),
        TrackArtworkSnapshotMode::AlbumCovers
    );
    assert_eq!(parse_track_artwork_snapshot_mode(Some("everything")), TrackArtworkSnapshotMode::All);
    assert_eq!(parse_track_artwork_snapshot_mode(None), TrackArtworkSnapshotMode::All);
}

#[test]
fn album_cover_mode_keeps_first_track_of_each_album() {
    let keys = vec![String::from("a"), String::from("b"), String::from("a"), String::from("c")];
    assert_eq!(
        artwork_retention(TrackArtworkSnapshotMode::AlbumCovers, &keys),
        vec![true, true, false, true]
    );
    assert_eq!(artwork_retention(TrackArtworkSnapshotMode::All, &keys), vec![true; 4]);
    assert_eq!(artwork_retention(TrackArtworkSnapshotMode::NoArtwork, &keys), vec![false; 4]);
}

#[test]
fn batch_ids_are_trimmed_and_deduplicated() {
    let ids = vec![
        String::from(" track-a "),
        String::from(""),
        String::from("track-b"),
        String::from("track-a"),
        String::from("   "),
    ];
    assert_eq!(normalize_batch_track_ids(&ids), vec![String::from("track-a"), String::from("track-b")]);
}

#[test]
fn entity_names_are_required() {
    assert_eq!(normalize_entity_name("  Mix  ", "Playlist").unwrap(), "Mix");
    assert_eq!(normalize_entity_name("   ", "Playlist").unwrap_err(), "Playlist name is required.");
}

#[test]
fn only_indexed_native_files_are_local_tracks() {
    assert!(is_local_indexed_track(Some(" native-file "), Some(true)));
    assert!(!is_local_indexed_track(Some("native-file"), Some(false)));
    assert!(!is_local_indexed_track(Some("native-file"), None));
    assert!(!is_local_indexed_track(Some("webdav"), Some(true)));
    assert!(!is_local_indexed_track(None, Some(true)));
}

#[test]
fn import_keys_form_a_set() {
    let mut keys = Vec::new();
    insert_import_key(&mut keys, "a");
    insert_import_key(&mut keys, "a");
    insert_import_key(&mut keys, "");
    insert_import_key(&mut keys, "b");
    assert_eq!(keys, vec![String::from("a"), String::from("b")]);
    remove_import_key(&mut keys, "a");
    assert_eq!(keys, vec![String::from("b")]);
    remove_import_key(&mut keys, "missing");
    assert_eq!(keys, vec![String::from("b")]);
}

#[test]
fn deleted_import_keys_are_remembered_and_cleared() {
    let track = TrackSourcePaths {
        path: Some(String::from("C:/Cache/x.flac")),
        origin_path: Some(String::from("D:/Music/X.flac")),
    };
    let mut keys = vec![String::from("e:\\old.flac")];
    assert!(remember_deleted_import_paths_for_tracks(&mut keys, &[track.clone()]));
    assert_eq!(keys.len(), 3);
    assert!(keys.contains(&String::from("d:\\music\\x.flac")));
    assert!(!remember_deleted_import_paths_for_tracks(&mut keys, &[track.clone()]));
    assert!(clear_deleted_import_paths_for_tracks(&mut keys, &[track.clone()]));
    assert_eq!(keys, vec![String::from("e:\\old.flac")]);
    assert!(!clear_deleted_import_paths_for_tracks(&mut keys, &[track]));
}

fn local(id: Option<&str>, path: &str) -> LocalTrackState {
    LocalTrackState {
        id: id.map(String::from),
        source_kind: Some(String::from("native-file")),
        indexed: Some(true),
        source_path: Some(String::from(path)),
    }
}

#[test]
fn invalidation_looks_only_at_undiscovered_indexed_files_in_scanned_folders() {
    let mut manual = local(Some("manual"), "D:/Music/manual.mp3");
    manual.indexed = Some(false);
    let tracks = vec![
        local(Some("present"), "D:/Music/present.mp3"),
        local(Some("missing"), " D:/Music/missing.mp3 "),
        local(Some("elsewhere"), "E:/Other/x.mp3"),
        manual,
        local(Some("no-path"), "   "),
    ];
    let discovered = vec![String::from("d:\\music\\PRESENT.mp3")];
    let directories = vec![String::from("D:/Music")];
    let candidates = invalidation_candidates(&tracks, &discovered, &directories);
    assert_eq!(candidates, vec![(1, String::from("D:/Music/missing.mp3"))]);
    let ids = invalidated_track_ids(&tracks, &candidates, &vec![false]).unwrap();
    assert_eq!(ids, vec![String::from("missing")]);
    assert!(invalidated_track_ids(&tracks, &candidates, &vec![true]).unwrap().is_empty());
    let anonymous = vec![local(None, "D:/Music/a.mp3")];
    let candidates = invalidation_candidates(&anonymous, &Vec::new(), &directories);
    assert_eq!(
        invalidated_track_ids(&anonymous, &candidates, &vec![false]).unwrap_err(),
        "Missing string field 'id' on desktop track."
    );
}

#[test]
fn deleted_track_libraries_and_relations_are_collected_once() {
    let libraries = vec![String::from("b"), String::from("a"), String::from("b")];
    assert_eq!(distinct_texts(&libraries), vec![String::from("b"), String::from("a")]);
    let relations = vec![
        String::from("p2:t1"),
        String::from("p1:t1"),
        String::from("p2:t1"),
        String::from("P0:t9"),
    ];
    assert_eq!(
        sorted_unique_texts(&relations),
        vec![String::from("P0:t9"), String::from("p1:t1"), String::from("p2:t1")]
    );
}

#[test]
fn bootstrap_defaults_and_diagnostics() {
    let options = bootstrap_options(&DesktopBootstrapRequest::default());
    assert!(!options.include_catalog_tracks);
    assert!(options.include_playlist_track_relations);
    assert!(options.warm_track_query_cache);
    assert_eq!(options.history_limit, 100);
    let times = BootstrapStepTimes { catalog_consistency_ms: 7, catalog_load_ms: 5, total_ms: 30, ..BootstrapStepTimes::default() };
    let diagnostics = bootstrap_diagnostics(options, times, 3, 2, 9, ProcessResourceDiagnostics::default(), Vec::new());
    assert_eq!(diagnostics.catalog_ms, 12);
    assert_eq!(diagnostics.track_cache_warm_ms, 7);
    assert_eq!(diagnostics.total_ms, 30);
    let mut store = initialized();
    assert!(store.complete_bootstrap_consistency(options));
    assert!(!store.complete_bootstrap_consistency(options));
    assert!(!store.needs_catalog_consistency_check());
    let manifest = store.load_bootstrap_manifest(&DesktopStateRevisions { catalog: 4, ..DesktopStateRevisions::default() });
    assert_eq!(manifest.version, "desktop-bootstrap-v1");
    assert_eq!(manifest.revisions.catalog, 4);
    assert!(manifest.track_query_cache_ready);
    assert!(!manifest.generated_at.is_empty());
}

#[test]
fn a_zero_history_limit_loads_the_default_hundred() {
    let request = DesktopBootstrapRequest { history_limit: Some(0), ..DesktopBootstrapRequest::default() };
    assert_eq!(bootstrap_options(&request).history_limit, 100);
    let request = DesktopBootstrapRequest { history_limit: Some(7), ..DesktopBootstrapRequest::default() };
    assert_eq!(bootstrap_options(&request).history_limit, 7);
    assert_eq!(history_query_limit(0), 100);
    assert_eq!(history_query_limit(25), 25);
    assert_eq!(history_query_limit(usize::MAX), i64::MAX);
}
