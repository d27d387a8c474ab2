use ofplayer::lyrics::{
    combine_lookup_values, detect_sidecar_source_kind, join_display_lines, normalize_lookup_text,
    sidecar_rank, trim_empty_edge_lines, LyricsSourceKind,
};
use ofplayer::metadata::{
    path_stem, resolve_bitrate, resolve_joined_strings, resolve_request_file_name, resolve_title,
    sanitize_title, MetadataParseError,
};

#[test]
fn sidecar_kinds_and_ranks() {
    assert_eq!(detect_sidecar_source_kind(Some("LRC")), LyricsSourceKind::SidecarLrc);
    assert_eq!(detect_sidecar_source_kind(Some("txt")), LyricsSourceKind::SidecarText);
    assert_eq!(detect_sidecar_source_kind(None), LyricsSourceKind::SidecarText);
    assert_eq!(sidecar_rank(Some("lrc")), 0);
    assert_eq!(sidecar_rank(Some("TXT")), 1);
    assert_eq!(sidecar_rank(Some("srt")), 9);
}

#[test]
fn lookup_values() {
    assert_eq!(normalize_lookup_text(Some("  Title ")), "Title");
    assert_eq!(normalize_lookup_text(None), "");
    assert_eq!(combine_lookup_values(" A ", "B", " - ").as_deref(), Some("A - B"));
    assert_eq!(combine_lookup_values("A", "  ", " - "), None);
}

#[test]
fn display_lines() {
    let lines = vec![String::new(), String::from("a"), String::new(), String::from("b"), String::new()];
    let trimmed = trim_empty_edge_lines(lines);
    assert_eq!(trimmed, vec![String::from("a"), String::new(), String::from("b")]);
    assert_eq!(join_display_lines(trimmed), "a\n\nb");
    assert!(trim_empty_edge_lines(vec![String::new(), String::new()]).is_empty());
}

#[test]
fn titles_and_stems() {
    assert_eq!(path_stem(" Song.flac").as_deref(), Some("Song"));
    assert_eq!(path_stem(".flac"), None);
    assert_eq!(sanitize_title(String::from("   ")), "Untitled");
    assert_eq!(resolve_title(Some("  Tag Title "), "file.mp3"), "Tag Title");
    assert_eq!(resolve_title(Some(" "), "file.name.mp3"), "file.name");
    assert_eq!(resolve_title(None, ".mp3"), "Untitled");
}

#[test]
fn tag_values_are_joined_once() {
    let values = vec![String::from(" A "), String::from("B"), String::from("A"), String::from(" ")];
    assert_eq!(resolve_joined_strings(&values), "A, B");
    assert_eq!(resolve_joined_strings(&[]), "");
}

#[test]
fn bitrates_and_file_names() {
    assert_eq!(resolve_bitrate(Some(320), Some(999)), 320_000);
    assert_eq!(resolve_bitrate(None, Some(128)), 128_000);
    assert_eq!(resolve_bitrate(None, None), 0);
    assert_eq!(resolve_bitrate(Some(u32::MAX), None), u32::MAX);
    assert_eq!(resolve_request_file_name("/music/a.flac", None), "a.flac");
    assert_eq!(resolve_request_file_name("/music/a.flac", Some(String::from(" b.mp3"))), " b.mp3");
    assert_eq!(resolve_request_file_name("", Some(String::from("  "))), "track");
}

#[test]
fn metadata_errors_carry_their_file() {
    let error = MetadataParseError::new(
        "metadata_file_unavailable",
        "The audio file is no longer available.",
        "/music/missing.wav",
        "missing.wav",
        String::from("not available"),
        false,
    );
    assert_eq!(error.code, "metadata_file_unavailable");
    assert_eq!(error.path, "/music/missing.wav");
    assert!(!error.recoverable);
}
