use ofplayer::playback_requests::{
    history_track_id, is_recoverable_session_playback_error, playback_artist, playback_title,
    requested_delete_on_release,
};
use ofplayer::external_sources::{ExternalLibraryAuth, ExternalLibraryConnection};
use ofplayer::playback_source::{
    add_download_chunk, check_download_length, external_cache_names, external_download_basic_auth,
    path_is_probably_url, plan_external_playback, resolve_webdav_remote_track_url,
    track_needs_external_playback_resolution, transient_download_file_name, PlaybackTrackSource,
};

fn connection(provider: &str, endpoint: &str) -> ExternalLibraryConnection {
    ExternalLibraryConnection {
        provider: String::from(provider),
        name: None,
        endpoint: String::from(endpoint),
        root_path: None,
        auth: None,
    }
}

#[test]
fn webdav_remote_resolution_prefers_origin_path_over_cached_path() {
    let track = PlaybackTrackSource {
        source_path: Some(String::from(
            "C:\\Users\\demo\\AppData\\Local\\OFPlayer\\cache\\track.flac",
        )),
        source_origin_path: Some(String::from("https://dav.example.test/music/track.flac")),
        source_remote_id: Some(String::from("https://dav.example.test/music/track.flac")),
        ..PlaybackTrackSource::default()
    };
    assert_eq!(
        resolve_webdav_remote_track_url(&track).as_deref(),
        Some("https://dav.example.test/music/track.flac")
    );
}

#[test]
fn webdav_remote_resolution_ignores_legacy_cached_path_when_origin_exists() {
    let track = PlaybackTrackSource {
        source_kind: Some(String::from("external-cache")),
        source_path: Some(String::from(
            "C:\\Users\\demo\\AppData\\Local\\OFPlayer\\cache\\external-sources\\webdav\\cached.mp3",
        )),
        source_origin_path: Some(String::from("https://dav.example.test/music/track.mp3")),
        source_remote_id: Some(String::from("https://dav.example.test/music/track.mp3")),
        ..PlaybackTrackSource::default()
    };
    assert_eq!(
        resolve_webdav_remote_track_url(&track).as_deref(),
        Some("https://dav.example.test/music/track.mp3")
    );
}

#[test]
fn only_http_urls_count_as_remote() {
    assert!(path_is_probably_url("https://dav.example.test/a.mp3"));
    assert!(path_is_probably_url("http://dav.example.test/a.mp3"));
    assert!(!path_is_probably_url("file:///music/a.mp3"));
    assert!(!path_is_probably_url("C:\\music\\a.mp3"));
    let track = PlaybackTrackSource {
        source_path: Some(String::from(" https://dav.example.test/fallback.mp3 ")),
        source_origin_path: Some(String::from("D:/local.mp3")),
        ..PlaybackTrackSource::default()
    };
    assert_eq!(
        resolve_webdav_remote_track_url(&track).as_deref(),
        Some("https://dav.example.test/fallback.mp3")
    );
    assert_eq!(resolve_webdav_remote_track_url(&PlaybackTrackSource::default()), None);
}

#[test]
fn external_resolution_needs_a_connection_and_a_remote_source() {
    let mut track = PlaybackTrackSource {
        source_connection_id: Some(String::from("conn-1")),
        source_kind: Some(String::from("webdav")),
        ..PlaybackTrackSource::default()
    };
    assert!(track_needs_external_playback_resolution(&track));
    track.source_kind = Some(String::from("native-file"));
    assert!(!track_needs_external_playback_resolution(&track));
    track.source_path = Some(String::from("https://dav.example.test/a.mp3"));
    assert!(track_needs_external_playback_resolution(&track));
    track.source_connection_id = Some(String::from("   "));
    assert!(!track_needs_external_playback_resolution(&track));
}

#[test]
fn webdav_plans_stay_inside_the_library() {
    let mut conn = connection("WebDAV", "https://dav.example.test/dav");
    conn.root_path = Some(String::from("/music"));
    let inside = PlaybackTrackSource {
        source_origin_path: Some(String::from("https://dav.example.test/dav/music/a.mp3")),
        ..PlaybackTrackSource::default()
    };
    let plan = plan_external_playback(&conn, &inside).unwrap();
    assert_eq!(plan.provider, "webdav");
    assert_eq!(plan.download_url, "https://dav.example.test/dav/music/a.mp3");
    assert_eq!(plan.remote_id, "https://dav.example.test/dav/music/a.mp3");
    let outside = PlaybackTrackSource {
        source_origin_path: Some(String::from("https://dav.example.test/dav/other/a.mp3")),
        ..PlaybackTrackSource::default()
    };
    assert_eq!(
        plan_external_playback(&conn, &outside).unwrap_err(),
        "Refusing to resolve a WebDAV track outside the configured library endpoint."
    );
    assert_eq!(
        plan_external_playback(&conn, &PlaybackTrackSource::default()).unwrap_err(),
        "WebDAV track is missing its source URL."
    );
}

#[test]
fn subsonic_plans_stream_by_remote_id() {
    let conn = connection("navidrome", "https://music.example.test");
    let track = PlaybackTrackSource {
        remote_id: Some(String::from("song-7")),
        source_path: Some(String::from("Artist/Album/song.flac")),
        ..PlaybackTrackSource::default()
    };
    let plan = plan_external_playback(&conn, &track).unwrap();
    assert_eq!(plan.provider, "subsonic");
    assert_eq!(plan.remote_id, "song-7");
    assert!(plan.download_url.starts_with("https://music.example.test/rest/stream.view?"));
    assert!(plan.download_url.ends_with("&id=song-7"));
    assert_eq!(plan.origin_path, "Artist/Album/song.flac");
    assert_eq!(
        plan_external_playback(&conn, &PlaybackTrackSource::default()).unwrap_err(),
        "Subsonic track is missing its remote id."
    );
}

#[test]
fn ftp_and_unknown_providers_are_refused() {
    let track = PlaybackTrackSource::default();
    assert_eq!(
        plan_external_playback(&connection("ftp", "ftp://x"), &track).unwrap_err(),
        "FTP requires a native playback bridge before tracks can be resolved."
    );
    assert_eq!(
        plan_external_playback(&connection("webdav", "ftp://x"), &track).unwrap_err(),
        "WebDAV track is missing its source URL."
    );
}

#[test]
fn cache_names_share_the_key_of_a_download() {
    let track = PlaybackTrackSource {
        format: Some(String::from("FLAC")),
        ..PlaybackTrackSource::default()
    };
    let names = external_cache_names("webdav", "id-1", "https://x/a.flac", &track);
    assert_eq!(names.key.len(), 16);
    assert_eq!(names.extension, "flac");
    assert_eq!(names.cache_file_name, format!("external-cache-{}.flac", names.key));
    assert_eq!(names.lock_file_name, format!("external-cache-{}.lock", names.key));
    let again = external_cache_names("webdav", "id-1", "https://x/a.flac", &track);
    assert_eq!(again.key, names.key);
    let other = external_cache_names("webdav", "id-2", "https://x/a.flac", &track);
    assert_ne!(other.key, names.key);
    assert_eq!(
        transient_download_file_name(&names, 42, 7),
        format!("external-cache-{}-42-7.flac.part", names.key)
    );
    let unknown = external_cache_names("webdav", "id-1", "https://x/a", &PlaybackTrackSource::default());
    assert_eq!(unknown.extension, "audio");
}

#[test]
fn downloads_send_webdav_credentials_only() {
    let mut conn = connection("webdav", "https://dav.example.test");
    conn.auth = Some(ExternalLibraryAuth {
        username: Some(String::from("me")),
        password: None,
        token: None,
        salt: None,
    });
    assert_eq!(
        external_download_basic_auth("webdav", &conn),
        Some((String::from("me"), String::new()))
    );
    assert_eq!(external_download_basic_auth("subsonic", &conn), None);
    conn.auth = Some(ExternalLibraryAuth::default());
    assert_eq!(external_download_basic_auth("webdav", &conn), None);
}

#[test]
fn downloads_are_capped_at_the_cache_limit() {
    assert!(check_download_length(None).is_ok());
    assert!(check_download_length(Some(536_870_912)).is_ok());
    assert_eq!(
        check_download_length(Some(536_870_913)).unwrap_err(),
        "External playback download is larger than the 512 MB safety limit."
    );
    assert_eq!(add_download_chunk(10, 5).unwrap(), 15);
    assert!(add_download_chunk(536_870_900, 100).is_err());
    assert!(add_download_chunk(u64::MAX, 1).is_err());
}

#[test]
fn playback_requests_fall_back_sensibly() {
    assert_eq!(playback_title(Some("  "), Some(" Shown "), Some("f.mp3")), "Shown");
    assert_eq!(playback_title(None, None, Some("f.mp3")), "f.mp3");
    assert_eq!(playback_title(None, None, None), "Untitled");
    assert_eq!(playback_artist(Some(""), Some("Band")).as_deref(), Some("Band"));
    assert!(requested_delete_on_release(None, Some(true), None));
    assert!(requested_delete_on_release(None, None, Some(" external-temp ")));
    assert!(!requested_delete_on_release(Some(false), Some(false), Some("external-cache")));
    assert_eq!(history_track_id(Some(" t1 "), Some(String::from("t2"))).as_deref(), Some("t1"));
    assert_eq!(history_track_id(Some("  "), Some(String::from("t2"))).as_deref(), Some("t2"));
    assert_eq!(history_track_id(None, None), None);
    assert!(is_recoverable_session_playback_error("Selected track path is not available on disk."));
    assert!(!is_recoverable_session_playback_error("Something else."));
}

#[test]
fn system_media_artwork_leaves_out_large_embedded_covers() {
    assert_eq!(
        ofplayer::playback_requests::system_media_artwork(Some("  https://x/cover.jpg ")),
        Some(String::from("https://x/cover.jpg"))
    );
    assert_eq!(ofplayer::playback_requests::system_media_artwork(Some("  ")), None);
    assert_eq!(ofplayer::playback_requests::system_media_artwork(None), None);
    let small = format!("data:image/png;base64,{}", "A".repeat(100));
    assert_eq!(ofplayer::playback_requests::system_media_artwork(Some(&small)), Some(small.clone()));
    let large = format!("data:image/png;base64,{}", "A".repeat(786_432));
    assert_eq!(ofplayer::playback_requests::system_media_artwork(Some(&large)), None);
    let long_url = format!("https://x/{}", "a".repeat(786_432));
    assert_eq!(
        ofplayer::playback_requests::system_media_artwork(Some(&long_url)),
        Some(long_url.clone())
    );
}

#[test]
fn unusable_endpoints_give_the_endpoint_errors() {
    let subsonic_track = PlaybackTrackSource { remote_id: Some(String::from("s1")), ..PlaybackTrackSource::default() };
    assert_eq!(
        plan_external_playback(&connection("subsonic", "   "), &subsonic_track).unwrap_err(),
        "External source endpoint is required."
    );
    assert_eq!(
        plan_external_playback(&connection("subsonic", "ftp://music.example.test"), &subsonic_track).unwrap_err(),
        "External source endpoint must use http or https."
    );
    assert!(plan_external_playback(&connection("subsonic", "not a url"), &subsonic_track)
        .unwrap_err()
        .starts_with("Invalid external source endpoint: "));
    let webdav_track = PlaybackTrackSource {
        source_path: Some(String::from("https://dav.example.test/a.mp3")),
        ..PlaybackTrackSource::default()
    };
    assert_eq!(
        plan_external_playback(&connection("webdav", "ftp://dav.example.test"), &webdav_track).unwrap_err(),
        "External source endpoint must use http or https."
    );
}
