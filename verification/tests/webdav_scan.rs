use ofplayer::external_sources::ExternalRequestDiagnostics;
use ofplayer::remote_url::ParsedUrl;
use ofplayer::webdav_scan::{is_audio_resource, WebDavScan};
use ofplayer::webdav_xml::WebDavEntry;

fn entry(href: &str, display_name: &str, content_type: &str, is_collection: bool) -> WebDavEntry {
    WebDavEntry {
        href: String::from(href),
        display_name: String::from(display_name),
        content_length: 42,
        content_type: String::from(content_type),
        etag: String::from("\"e\""),
        modified_at: String::from("  Mon, 01 Jan 2024 00:00:00 GMT "),
        is_collection,
    }
}

fn profile(url: &str, duration_ms: u64) -> ExternalRequestDiagnostics {
    ExternalRequestDiagnostics {
        url: String::from(url),
        depth: String::from("1"),
        status: 207,
        duration_ms,
        entry_count: 0,
        byte_count: 0,
    }
}

fn root_scan(limit: Option<usize>) -> WebDavScan {
    WebDavScan::new(ParsedUrl::parse("https://example.test/dav/").unwrap(), limit)
}

#[test]
fn audio_resources_are_known_by_type_or_extension() {
    assert!(is_audio_resource("a.bin", "audio/mpeg"));
    assert!(is_audio_resource("a.FLAC", ""));
    assert!(!is_audio_resource("cover.jpg", "image/jpeg"));
}

#[test]
fn scan_visits_folders_once_and_orders_tracks_by_url() {
    let mut scan = root_scan(None);
    assert!(scan.has_room(10));
    let first = scan.next_directory().unwrap();
    assert_eq!(first.as_str(), "https://example.test/dav/");
    scan.record_listing(
        first.as_str(),
        &vec![
            entry("/dav/", "dav", "", true),
            entry("/dav/Artist", "Artist", "", true),
            entry("/dav/z.mp3", "", "audio/mpeg", false),
            entry("/dav/cover.jpg", "", "image/jpeg", false),
            entry("/other/x.mp3", "", "audio/mpeg", false),
            entry("/dav/a.flac", "", "", false),
        ],
        profile(first.as_str(), 20),
    )
    .unwrap();
    assert_eq!(scan.pending_directories(), 1);
    let second = scan.next_directory().unwrap();
    assert_eq!(second.as_str(), "https://example.test/dav/Artist/");
    scan.record_listing(
        second.as_str(),
        &vec![
            entry("/dav/Artist/", "Artist", "", true),
            entry("/dav/Artist/", "Artist", "", true),
            entry("/dav/Artist/Album/", "Album", "", true),
            entry("/dav/", "dav", "", true),
        ],
        profile(second.as_str(), 1_600),
    )
    .unwrap();
    let third = scan.next_directory().unwrap();
    assert_eq!(third.as_str(), "https://example.test/dav/Artist/Album/");
    scan.record_listing(
        third.as_str(),
        &vec![entry("/dav/Artist/Album/01%20-%20Song.mp3", "", "audio/mpeg", false)],
        profile(third.as_str(), 5),
    )
    .unwrap();
    assert!(scan.next_directory().is_none());
    let (tracks, diagnostics) = scan.finish(99);
    let ids: Vec<&str> = tracks.iter().map(|t| t.remote_id.as_str()).collect();
    assert_eq!(
        ids,
        vec![
            "https://example.test/dav/Artist/Album/01%20-%20Song.mp3",
            "https://example.test/dav/a.flac",
            "https://example.test/dav/z.mp3",
        ]
    );
    let song = &tracks[0];
    assert_eq!(song.title, "Song");
    assert_eq!(song.track_number, 1);
    assert_eq!(song.album, "Album");
    assert_eq!(song.album_artist, "Artist");
    assert_eq!(song.artist, "Artist");
    assert_eq!(song.file_name, "01 - Song.mp3");
    assert_eq!(song.format, "mp3");
    assert_eq!(song.imported_at.as_deref(), Some("Mon, 01 Jan 2024 00:00:00 GMT"));
    assert_eq!(tracks[1].title, "a");
    assert_eq!(tracks[1].format, "flac");
    assert_eq!(diagnostics.request_count, 3);
    assert_eq!(diagnostics.directories_scanned, 3);
    assert_eq!(diagnostics.directories_queued, 3);
    assert_eq!(diagnostics.collections_seen, 3);
    assert_eq!(diagnostics.duplicate_directory_count, 1);
    assert_eq!(diagnostics.files_seen, 4);
    assert_eq!(diagnostics.audio_files_seen, 3);
    assert_eq!(diagnostics.non_audio_files_skipped, 1);
    assert_eq!(diagnostics.entries_seen, 11);
    assert_eq!(diagnostics.total_ms, 99);
    assert!(!diagnostics.truncated);
    assert_eq!(diagnostics.slow_requests.len(), 3);
    assert_eq!(diagnostics.slow_requests[0].duration_ms, 1_600);
    assert_eq!(diagnostics.provider, "webdav");
    assert_eq!(diagnostics.root_url.as_deref(), Some("https://example.test/dav/"));
}

#[test]
fn scan_stops_at_the_track_limit() {
    let mut scan = root_scan(Some(1));
    let first = scan.next_directory().unwrap();
    scan.record_listing(
        first.as_str(),
        &vec![
            entry("/dav/b.mp3", "", "audio/mpeg", false),
            entry("/dav/a.mp3", "", "audio/mpeg", false),
            entry("/dav/Sub/", "Sub", "", true),
        ],
        profile(first.as_str(), 1),
    )
    .unwrap();
    assert_eq!(scan.pending_directories(), 0);
    assert!(scan.next_directory().is_none());
    let (tracks, diagnostics) = scan.finish(1);
    assert_eq!(tracks.len(), 1);
    assert_eq!(tracks[0].remote_id, "https://example.test/dav/b.mp3");
    assert!(diagnostics.truncated);
    assert_eq!(diagnostics.collections_seen, 0);
}

#[test]
fn unresolvable_entries_fail_the_listing() {
    let mut scan = WebDavScan::new(ParsedUrl::parse("data:text/plain,root").unwrap(), None);
    let first = scan.next_directory().unwrap();
    let error = scan
        .record_listing(first.as_str(), &vec![entry("relative/path", "", "", false)], profile("x", 1))
        .unwrap_err();
    assert!(error.starts_with("Failed to resolve WebDAV entry URL: "));
    assert_eq!(scan.record_failure(error.clone(), 7), error);
    let (_, diagnostics) = scan.finish(0);
    assert_eq!(diagnostics.failed_request_count, 1);
}

#[test]
fn a_failed_request_ends_the_scan() {
    let mut scan = root_scan(None);
    let first = scan.next_directory().unwrap();
    scan.record_listing(
        first.as_str(),
        &vec![entry("/dav/a/", "", "", true), entry("/dav/b/", "", "", true)],
        profile("x", 1),
    )
    .unwrap();
    assert_eq!(scan.pending_directories(), 2);
    assert_eq!(scan.record_failure(String::from("boom"), 12), "boom");
    assert!(scan.next_directory().is_none());
    assert_eq!(scan.pending_directories(), 2);
    let (tracks, diagnostics) = scan.finish(15);
    assert!(tracks.is_empty());
    assert_eq!(diagnostics.failed_request_count, 1);
    assert_eq!(diagnostics.directories_queued, 3);
}

#[test]
fn a_zero_limit_lists_nothing() {
    let mut scan = root_scan(Some(0));
    assert!(scan.has_room(scan.pending_directories()));
    assert!(scan.next_directory().is_none());
    let (tracks, diagnostics) = scan.finish(3);
    assert!(tracks.is_empty());
    assert!(diagnostics.truncated);
    assert_eq!(diagnostics.limit, Some(0));
    assert_eq!(diagnostics.directories_queued, 1);
    assert_eq!(diagnostics.max_concurrency, 8);
    assert_eq!(diagnostics.request_count, 0);
    assert_eq!(diagnostics.directories_scanned, 0);
    assert_eq!(diagnostics.failed_request_count, 0);
    assert!(diagnostics.slow_requests.is_empty());
    assert_eq!(diagnostics.root_url.as_deref(), Some("https://example.test/dav/"));
}
