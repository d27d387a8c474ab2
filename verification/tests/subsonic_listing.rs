use ofplayer::subsonic_listing::{
    build_subsonic_track, subsonic_album_list_query, subsonic_album_page_step, subsonic_album_step,
    subsonic_album_tracks, subsonic_disc_total, subsonic_file_name, SubsonicAlbum,
    SubsonicAlbumStep, SubsonicSong,
};

fn album() -> SubsonicAlbum {
    SubsonicAlbum {
        id: String::from("al-1"),
        name: String::from("Album Name"),
        title: String::from("Album Title"),
        artist: String::from("Album Artist"),
        genre: String::from("Jazz"),
        year: 1999,
        cover_art: String::from("cover-al-1"),
    }
}

fn song(id: &str, disc: u64) -> SubsonicSong {
    SubsonicSong {
        id: String::from(id),
        path: format!("Artist/Album/{id}.flac"),
        suffix: String::from("flac"),
        title: String::new(),
        disc_number: disc,
        track: 3,
        bit_rate: 1_411,
        sample_rate: 44_100,
        created: String::from(" 2024-01-01T00:00:00Z "),
        ..SubsonicSong::default()
    }
}

#[test]
fn album_pages_continue_only_after_full_pages() {
    assert_eq!(subsonic_album_page_step(0, 100), (100, true));
    assert_eq!(subsonic_album_page_step(100, 42), (142, false));
    assert_eq!(subsonic_album_page_step(200, 0), (200, false));
}

#[test]
fn album_list_query_names_the_music_folder() {
    let query = subsonic_album_list_query(200, Some(" 7 "));
    let pairs: Vec<(&str, &str)> = query.iter().map(|(k, v)| (k.as_str(), v.as_str())).collect();
    assert_eq!(
        pairs,
        vec![
            ("type", "alphabeticalByName"),
            ("size", "100"),
            ("offset", "200"),
            ("musicFolderId", "7"),
        ]
    );
    assert_eq!(subsonic_album_list_query(0, Some("  ")).len(), 3);
    assert_eq!(subsonic_album_list_query(0, None).len(), 3);
}

#[test]
fn albums_without_ids_are_skipped_and_limits_stop_the_listing() {
    let mut blank = album();
    blank.id = String::new();
    assert_eq!(subsonic_album_step(&album(), 0, None), SubsonicAlbumStep::Fetch);
    assert_eq!(subsonic_album_step(&blank, 0, Some(5)), SubsonicAlbumStep::Skip);
    assert_eq!(subsonic_album_step(&album(), 5, Some(5)), SubsonicAlbumStep::Stop);
}

#[test]
fn song_file_names_fall_back_to_title_and_suffix() {
    assert_eq!(subsonic_file_name(&song("s1", 1)), "s1.flac");
    let mut untitled = song("s2", 1);
    untitled.path = String::from("  ");
    assert_eq!(subsonic_file_name(&untitled), "s2.flac");
    untitled.title = String::from("Named");
    untitled.suffix = String::new();
    assert_eq!(subsonic_file_name(&untitled), "Named");
}

#[test]
fn song_tracks_borrow_album_fields_where_blank() {
    let track = build_subsonic_track(&album(), &song("s1", 2), 10, 2);
    assert_eq!(track.remote_id, "s1");
    assert_eq!(track.title, "s1");
    assert_eq!(track.album, "Album Name");
    assert_eq!(track.album_artist, "Album Artist");
    assert_eq!(track.genre, "Jazz");
    assert_eq!(track.year, 1999);
    assert_eq!(track.track_number, 3);
    assert_eq!(track.track_total, 10);
    assert_eq!(track.disc_total, 2);
    assert_eq!(track.format, "flac");
    assert_eq!(track.bitrate, 1_411_000);
    assert_eq!(track.sample_rate, 44_100);
    assert_eq!(track.imported_at.as_deref(), Some("2024-01-01T00:00:00Z"));
    assert_eq!(track.album_id, "al-1");
    assert_eq!(track.cover_art, "cover-al-1");
    assert_eq!(track.path, "Artist/Album/s1.flac");
}

#[test]
fn album_tracks_skip_blank_ids_and_stop_at_the_limit() {
    let songs = vec![song("a", 1), song("", 3), song("b", 2), song("c", 1)];
    assert_eq!(subsonic_disc_total(&songs), 3);
    let all = subsonic_album_tracks(&album(), &songs, 0, None);
    let ids: Vec<&str> = all.iter().map(|t| t.remote_id.as_str()).collect();
    assert_eq!(ids, vec!["a", "b", "c"]);
    assert_eq!(all[0].track_total, 4);
    assert_eq!(all[0].disc_total, 3);
    let limited = subsonic_album_tracks(&album(), &songs, 3, Some(5));
    let ids: Vec<&str> = limited.iter().map(|t| t.remote_id.as_str()).collect();
    assert_eq!(ids, vec!["a", "b"]);
}
