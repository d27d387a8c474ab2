use ofplayer::external_sources::{
    auth_has_basic_credentials, basename_from_path, extension_from_name, first_nonzero_u64,
    hex_encode, hex_value, infer_metadata_from_file_name, limit_reached, normalize_provider,
    provider_capabilities, remember_webdav_request_profile, sanitize_track_title,
    split_leading_track_number, subsonic_bitrate_bps, subsonic_song_bitrate_bps, field_u64,
    JsonFieldValue, ExternalLibraryAuth,
    ExternalRequestDiagnostics, ExternalTrackListDiagnostics,
};

#[test]
fn providers_are_normalized() {
    assert_eq!(normalize_provider(" Navidrome "), "subsonic");
    assert_eq!(normalize_provider("SUBSONIC"), "subsonic");
    assert_eq!(normalize_provider("ftp"), "ftp");
    assert_eq!(normalize_provider("anything"), "webdav");
}

#[test]
fn ftp_needs_a_bridge() {
    let ftp = provider_capabilities("FTP");
    assert_eq!(ftp.provider, "ftp");
    assert!(ftp.requires_bridge);
    assert!(!ftp.can_stream);
    let dav = provider_capabilities("webdav");
    assert!(dav.rust_core && dav.can_list_libraries && dav.can_list_tracks && dav.can_stream);
    assert!(!dav.requires_bridge);
}

#[test]
fn subsonic_bitrate_is_normalized_from_kbps_to_bps() {
    assert_eq!(subsonic_song_bitrate_bps(&JsonFieldValue::Unsigned(1530)), 1_530_000);
    assert_eq!(subsonic_song_bitrate_bps(&JsonFieldValue::Text(String::from("1470"))), 1_470_000);
    assert_eq!(subsonic_song_bitrate_bps(&JsonFieldValue::Missing), 0);
    assert_eq!(subsonic_song_bitrate_bps(&JsonFieldValue::Text(String::from("fast"))), 0);
    assert_eq!(subsonic_song_bitrate_bps(&JsonFieldValue::Other), 0);
    assert_eq!(field_u64(&JsonFieldValue::Text(String::from("+12"))), 12);
    assert_eq!(subsonic_bitrate_bps(0), 0);
    assert_eq!(subsonic_bitrate_bps(u64::MAX), u64::MAX);
}

#[test]
fn small_helpers() {
    assert!(limit_reached(3, Some(3)));
    assert!(!limit_reached(2, Some(3)));
    assert!(!limit_reached(1_000, None));
    assert_eq!(first_nonzero_u64(&[0, 0, 7, 9]), 7);
    assert_eq!(first_nonzero_u64(&[]), 0);
    assert_eq!(hex_value(b'F'), Some(15));
    assert_eq!(hex_value(b'g'), None);
    assert_eq!(hex_encode(&[0, 171, 255]), "00abff");
}

#[test]
fn names_and_paths() {
    assert_eq!(extension_from_name("Song.Live.FLAC"), "flac");
    assert_eq!(extension_from_name("README"), "");
    assert_eq!(sanitize_track_title("  Song.mp3"), "Song");
    assert_eq!(sanitize_track_title(".mp3"), "Untitled");
    assert_eq!(basename_from_path("C:\\Music\\Album\\track.flac"), "track.flac");
    assert_eq!(basename_from_path("/music/album//"), "album");
    assert_eq!(basename_from_path("///"), "");
}

#[test]
fn credentials_need_a_user_or_password() {
    let mut auth = ExternalLibraryAuth::default();
    assert!(!auth_has_basic_credentials(&auth));
    auth.token = Some(String::from("t"));
    assert!(!auth_has_basic_credentials(&auth));
    auth.password = Some(String::from(" secret "));
    assert!(auth_has_basic_credentials(&auth));
}

#[test]
fn leading_track_numbers_are_split() {
    assert_eq!(split_leading_track_number(" 07 - Song "), (7, String::from("Song")));
    assert_eq!(split_leading_track_number("1. Intro"), (1, String::from("Intro")));
    assert_eq!(split_leading_track_number("1999 Remaster"), (0, String::from("1999 Remaster")));
    assert_eq!(split_leading_track_number("00 Zero"), (0, String::from("00 Zero")));
    assert_eq!(split_leading_track_number("12"), (0, String::from("12")));
}

#[test]
fn artist_and_title_come_from_the_file_name() {
    let metadata = infer_metadata_from_file_name("03 - Artist - Song - Live.flac", true);
    assert_eq!(metadata.track_number, 3);
    assert_eq!(metadata.artist, "Artist");
    assert_eq!(metadata.title, "Song - Live");
    let metadata = infer_metadata_from_file_name("03 - Artist - Song.flac", false);
    assert_eq!(metadata.artist, "");
    assert_eq!(metadata.title, "Artist - Song");
    let metadata = infer_metadata_from_file_name("Only.mp3", true);
    assert_eq!(metadata.title, "Only");
    assert_eq!(metadata.track_number, 0);
}

fn profile(duration_ms: u64) -> ExternalRequestDiagnostics {
    ExternalRequestDiagnostics { duration_ms, ..ExternalRequestDiagnostics::default() }
}

#[test]
fn the_slowest_requests_are_kept() {
    let mut diagnostics = ExternalTrackListDiagnostics::default();
    for duration in [10, 3_000, 20, 2_000, 5, 1_600, 40, 30, 50] {
        remember_webdav_request_profile(&mut diagnostics, profile(duration));
    }
    let kept: Vec<u64> = diagnostics.slow_requests.iter().map(|p| p.duration_ms).collect();
    assert_eq!(kept, vec![3_000, 2_000, 1_600, 40, 30, 20, 10, 5]);
    remember_webdav_request_profile(&mut diagnostics, profile(60));
    assert_eq!(diagnostics.slow_requests.len(), 8);
    remember_webdav_request_profile(&mut diagnostics, profile(1_500));
    let kept: Vec<u64> = diagnostics.slow_requests.iter().map(|p| p.duration_ms).collect();
    assert_eq!(kept, vec![3_000, 2_000, 1_600, 1_500, 40, 30, 20, 10]);
}

use ofplayer::external_sources::{
    basename_from_url, build_subsonic_url, decoded_url_path_segments, infer_webdav_track_metadata,
    normalize_endpoint, percent_decode_path_segment, relative_webdav_directories,
    resolve_cache_extension, resolve_webdav_entry_url, resolve_webdav_root_url, same_url_origin,
    same_url_scope, ExternalLibraryConnection, PROVIDER_SUBSONIC, PROVIDER_WEBDAV,
};
use ofplayer::remote_url::ParsedUrl;

fn url(text: &str) -> ParsedUrl {
    ParsedUrl::parse(text).unwrap()
}

#[test]
fn normalize_endpoint_rejects_non_http_schemes() {
    assert!(normalize_endpoint("file:///tmp/music").is_err());
    assert!(normalize_endpoint("ftp://example.test/music").is_err());
    assert!(normalize_endpoint("https://example.test/music").is_ok());
}

#[test]
fn endpoints_become_directories() {
    assert_eq!(normalize_endpoint(" https://example.test/music ").unwrap().as_str(), "https://example.test/music/");
    assert_eq!(normalize_endpoint("   ").unwrap_err(), "External source endpoint is required.");
    assert!(normalize_endpoint("not a url").unwrap_err().starts_with("Invalid external source endpoint: "));
}

#[test]
fn same_url_origin_requires_scheme_host_and_port() {
    let root = url("https://example.test:8443/music/");

    assert!(same_url_origin(&root, &url("https://example.test:8443/other/track.mp3")));
    assert!(!same_url_origin(&root, &url("http://example.test:8443/music/track.mp3")));
    assert!(!same_url_origin(&root, &url("https://example.test/music/track.mp3")));
    assert!(!same_url_origin(&root, &url("https://other.example.test:8443/music/track.mp3")));
}

#[test]
fn webdav_root_url_is_normalized_as_directory() {
    let connection = ExternalLibraryConnection {
        provider: String::from(PROVIDER_WEBDAV),
        name: None,
        endpoint: String::from("https://example.test/dav"),
        root_path: Some(String::from("/music")),
        auth: None,
    };

    assert_eq!(
        resolve_webdav_root_url(&connection).unwrap().as_str(),
        "https://example.test/dav/music/"
    );
}

#[test]
fn same_url_scope_rejects_sibling_paths() {
    let root = url("https://example.test/dav/music/");

    assert!(same_url_scope(&root, &url("https://example.test/dav/music/album/track.mp3")));
    assert!(same_url_scope(&root, &url("https://example.test/dav/music/")));
    assert!(!same_url_scope(&root, &url("https://example.test/dav/music-other/track.mp3")));
    assert!(!same_url_scope(&root, &url("https://example.test/dav/other/track.mp3")));
}

#[test]
fn webdav_entries_resolve_against_the_root() {
    let root = url("https://example.test/dav/music/");
    let entry = resolve_webdav_entry_url(&root, "/dav/music/Artist/Album/01%20Song.flac").unwrap();
    assert_eq!(entry.as_str(), "https://example.test/dav/music/Artist/Album/01%20Song.flac");
    assert_eq!(
        decoded_url_path_segments(&entry),
        vec![
            String::from("dav"),
            String::from("music"),
            String::from("Artist"),
            String::from("Album"),
            String::from("01 Song.flac"),
        ]
    );
    assert_eq!(
        relative_webdav_directories(&root, &entry),
        vec![String::from("Artist"), String::from("Album")]
    );
    assert_eq!(basename_from_url(&entry), "01 Song.flac");
    let tags = infer_webdav_track_metadata(&root, &entry, "01 Song.flac");
    assert_eq!(tags.title, "Song");
    assert_eq!(tags.artist, "Artist");
    assert_eq!(tags.album_artist, "Artist");
    assert_eq!(tags.album, "Album");
    assert_eq!(tags.track_number, 1);
}

#[test]
fn path_segments_are_percent_decoded() {
    assert_eq!(percent_decode_path_segment("caf%C3%A9%20"), "café");
    assert_eq!(percent_decode_path_segment("100%"), "100%");
    assert_eq!(percent_decode_path_segment("%zz"), "%zz");
}

#[test]
fn subsonic_urls_carry_authentication() {
    let connection = ExternalLibraryConnection {
        provider: String::from(PROVIDER_SUBSONIC),
        name: None,
        endpoint: String::from("https://music.example.test"),
        root_path: None,
        auth: Some(ExternalLibraryAuth {
            username: Some(String::from("me")),
            password: Some(String::from("pw")),
            token: None,
            salt: Some(String::from("salt")),
        }),
    };
    let href = build_subsonic_url(&connection, "ping", &vec![(String::from("id"), String::from("7"))]).unwrap();
    assert_eq!(href, "https://music.example.test/rest/ping.view?u=me&v=1.16.1&c=OFPlayer&f=json&p=enc%3A7077&id=7");
}

#[test]
fn cache_extensions_are_short_and_plain() {
    assert_eq!(resolve_cache_extension(Some(" .FLAC "), None, ""), "flac");
    assert_eq!(resolve_cache_extension(None, Some("song.MP3"), ""), "mp3");
    assert_eq!(resolve_cache_extension(None, None, "https://x.test/a/b.ogg?x=1"), "ogg");
    assert_eq!(resolve_cache_extension(Some("verylongext"), None, ""), "audio");
    assert_eq!(resolve_cache_extension(None, Some("noext"), ""), "audio");
}
