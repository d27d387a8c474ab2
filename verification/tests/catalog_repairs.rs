use ofplayer::catalog_db::{
    plan_catalog_repairs, plan_catalog_shell_repairs, plan_track_repair,
    should_delete_empty_track_artwork, validate_track_row, PlaylistShape, TrackRowFields,
    TrackShape, assert_library_can_be_deleted, relation_query_for_library_delete,
    reorder_libraries, reorder_library_playlists, OrderedEntity,
};

fn playlist(library: &str, system_key: Option<&str>) -> PlaylistShape {
    PlaylistShape {
        library_id: Some(String::from(library)),
        system_key: system_key.map(String::from),
    }
}

fn track(library: Option<&str>) -> TrackShape {
    TrackShape {
        library_id: library.map(String::from),
        library_order: None,
        is_favorite: None,
        imported_at: Some(String::from("2024-01-01T00:00:00Z")),
    }
}

#[test]
fn an_empty_catalog_is_seeded_with_the_default_library() {
    let plan = plan_catalog_repairs(&Vec::new(), &Vec::new(), &vec![track(Some("x")), track(None)]).unwrap();
    assert!(plan.seed_default_library);
    assert_eq!(plan.default_playlists.len(), 1);
    assert_eq!(plan.default_playlists[0].library_id, "library-default");
    assert_eq!(plan.default_playlists[0].order, 0);
    assert_eq!(plan.default_playlists[0].id.as_deref(), Some("playlist-default-all-tracks"));
    assert_eq!(plan.track_repairs.len(), 2);
    assert_eq!(plan.track_repairs[1].track_index, 1);
    assert_eq!(plan.track_repairs[1].library_id, "library-default");
    assert_eq!(plan.track_repairs[1].library_order, 1);
    assert!(!plan.is_empty());
}

#[test]
fn libraries_without_all_tracks_playlists_get_one() {
    let libraries = vec![Some(String::from("library-default")), Some(String::from("lib-2"))];
    let playlists = vec![
        playlist("lib-2", Some("all-tracks")),
        playlist("library-default", None),
        playlist("library-default", None),
    ];
    let plan = plan_catalog_shell_repairs(&libraries, &playlists).unwrap();
    assert!(!plan.seed_default_library);
    assert_eq!(plan.default_playlists.len(), 1);
    assert_eq!(plan.default_playlists[0].library_id, "library-default");
    assert_eq!(plan.default_playlists[0].order, 2);
    assert_eq!(plan.default_playlists[0].id.as_deref(), Some("playlist-default-all-tracks"));
    let complete = vec![playlist("library-default", Some("all-tracks")), playlist("lib-2", Some("all-tracks"))];
    assert!(plan_catalog_shell_repairs(&libraries, &complete).unwrap().is_empty());
    let other = plan_catalog_shell_repairs(&vec![Some(String::from("lib-3"))], &Vec::new()).unwrap();
    assert_eq!(other.default_playlists[0].id, None);
}

#[test]
fn tracks_without_a_library_join_the_first_library() {
    let libraries = vec![Some(String::from("lib-a")), Some(String::from("lib-b"))];
    let playlists = vec![playlist("lib-a", Some("all-tracks")), playlist("lib-b", Some("all-tracks"))];
    let tracks = vec![track(Some("lib-b")), track(Some("  ")), track(None)];
    let plan = plan_catalog_repairs(&libraries, &playlists, &tracks).unwrap();
    assert_eq!(plan.track_repairs.len(), 2);
    assert_eq!(plan.track_repairs[0].track_index, 1);
    assert_eq!(plan.track_repairs[0].library_id, "lib-a");
    assert_eq!(plan.track_repairs[0].library_order, 0);
    assert_eq!(plan.track_repairs[1].track_index, 2);
    assert_eq!(plan.track_repairs[1].library_order, 1);
}

#[test]
fn a_library_without_an_id_fails_the_check() {
    let error = plan_catalog_repairs(&vec![Some(String::from("a")), None], &Vec::new(), &Vec::new()).unwrap_err();
    assert_eq!(error, "Missing string field 'id' on desktop library.");
}

#[test]
fn track_repairs_keep_stored_orders_and_flags() {
    let stored = TrackShape {
        library_id: None,
        library_order: Some(9),
        is_favorite: Some(true),
        imported_at: Some(String::from("  ")),
    };
    let repair = plan_track_repair(&stored, 4, "lib-a", 2);
    assert_eq!(repair.track_index, 4);
    assert_eq!(repair.library_order, 9);
    assert!(repair.is_favorite);
    assert!(repair.needs_imported_at);
    let fresh = plan_track_repair(&track(None), 0, "lib-a", 2);
    assert_eq!(fresh.library_order, 2);
    assert!(!fresh.is_favorite);
    assert!(!fresh.needs_imported_at);
}

fn complete_row() -> TrackRowFields {
    TrackRowFields {
        id: Some(String::from("t1")),
        library_id: Some(String::from("lib")),
        library_order: Some(3),
        imported_at: Some(String::from("2024-01-01T00:00:00Z")),
        is_favorite: Some(false),
        title: Some(String::from("Song")),
        display_title: Some(String::from("Song")),
        file_name: Some(String::from("song.mp3")),
        format: Some(String::from("mp3")),
    }
}

#[test]
fn track_rows_need_every_stored_column() {
    let row = validate_track_row(&complete_row()).unwrap();
    assert_eq!(row.id, "t1");
    assert_eq!(row.library_order, 3);
    let mut fields = complete_row();
    fields.format = None;
    assert_eq!(validate_track_row(&fields).unwrap_err(), "Missing string field 'format' on desktop track.");
    fields.library_order = None;
    assert_eq!(
        validate_track_row(&fields).unwrap_err(),
        "Missing integer field 'libraryOrder' on desktop track."
    );
    fields.id = None;
    assert_eq!(validate_track_row(&fields).unwrap_err(), "Missing string field 'id' on desktop track.");
    let mut fields = complete_row();
    fields.is_favorite = None;
    assert_eq!(
        validate_track_row(&fields).unwrap_err(),
        "Missing boolean field 'isFavorite' on desktop track."
    );
}

#[test]
fn blank_webdav_artwork_is_deleted() {
    assert!(should_delete_empty_track_artwork(true, Some("  "), Some(" WebDAV ")));
    assert!(should_delete_empty_track_artwork(true, None, Some("webdav")));
    assert!(!should_delete_empty_track_artwork(false, None, Some("webdav")));
    assert!(!should_delete_empty_track_artwork(true, Some("data:x"), Some("webdav")));
    assert!(!should_delete_empty_track_artwork(true, Some(""), Some("subsonic")));
    assert!(!should_delete_empty_track_artwork(true, Some(""), None));
}

fn entity(id: &str, order: i64, created: &str) -> OrderedEntity {
    OrderedEntity {
        id: Some(String::from(id)),
        order: Some(order),
        created_at: Some(String::from(created)),
    }
}

#[test]
fn libraries_reorder_requested_first_then_by_order_date_and_id() {
    let libraries = vec![
        entity("c", 1, "2024"),
        entity("a", 0, "2025"),
        entity("b", 0, "2023"),
        entity("d", 0, "2023"),
    ];
    let order = reorder_libraries(&libraries, &vec![String::from("d"), String::from("x"), String::from("d")]).unwrap();
    assert_eq!(order, vec![3, 2, 1, 0]);
    let all = reorder_libraries(&libraries, &Vec::new()).unwrap();
    assert_eq!(all, vec![2, 3, 1, 0]);
    let broken = vec![entity("a", 0, ""), OrderedEntity::default()];
    assert_eq!(
        reorder_libraries(&broken, &Vec::new()).unwrap_err(),
        "Missing string field 'id' on desktop library."
    );
}

#[test]
fn playlists_keep_system_playlists_first() {
    let kinds = vec![
        Some(String::from("user")),
        Some(String::from("system")),
        Some(String::from("user")),
    ];
    let playlists = vec![entity("p1", 1, ""), entity("all", 0, ""), entity("p2", 0, "")];
    assert_eq!(reorder_library_playlists(&kinds, &playlists, &Vec::new()).unwrap(), vec![1, 2, 0]);
    assert_eq!(
        reorder_library_playlists(&kinds, &playlists, &vec![String::from("p1")]).unwrap(),
        vec![1, 0, 2]
    );
}

#[test]
fn default_libraries_are_never_deleted() {
    assert!(assert_library_can_be_deleted(Some("lib-2"), None).is_ok());
    assert_eq!(
        assert_library_can_be_deleted(Some("library-default"), Some(false)).unwrap_err(),
        "Default library cannot be deleted."
    );
    assert_eq!(
        assert_library_can_be_deleted(Some("lib-2"), Some(true)).unwrap_err(),
        "Default library cannot be deleted."
    );
    assert!(assert_library_can_be_deleted(None, None).is_err());
}

#[test]
fn library_relation_queries_have_one_placeholder_per_id() {
    assert_eq!(relation_query_for_library_delete(0, 0), None);
    assert_eq!(
        relation_query_for_library_delete(2, 1).as_deref(),
        Some("SELECT id FROM playlist_track_relations WHERE playlist_id IN (?, ?) OR track_id IN (?)")
    );
    assert_eq!(
        relation_query_for_library_delete(0, 3).as_deref(),
        Some("SELECT id FROM playlist_track_relations WHERE track_id IN (?, ?, ?)")
    );
}
