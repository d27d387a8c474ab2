use ofplayer::audio_formats::{
    is_dsd_audio_extension, is_dsd_audio_path, is_supported_audio_content_type,
    is_supported_audio_extension, is_supported_audio_path, mime_type_for_extension,
};

#[test]
fn recognizes_extended_mainstream_audio_extensions() {
    for extension in [
        "mp3", "M4A", ".flac", "aiff", "caf", "mka", "mp2", "adts", "dsf", ".DFF",
    ] {
        assert!(is_supported_audio_extension(extension));
    }
}

#[test]
fn does_not_claim_unsupported_decoder_families() {
    for extension in ["opus", "wma", "ape", "wv", "dst", "iso"] {
        assert!(!is_supported_audio_extension(extension));
    }
}

#[test]
fn identifies_dsd_container_extensions() {
    assert!(is_dsd_audio_extension(".dsf"));
    assert!(is_dsd_audio_extension("DFF"));
    assert!(!is_dsd_audio_extension("dst"));
}

#[test]
fn accepts_supported_audio_content_types_only() {
    assert!(is_supported_audio_content_type("audio/mp4; codecs=alac"));
    assert!(is_supported_audio_content_type("audio/x-caf"));
    assert!(is_supported_audio_content_type("audio/x-dsf"));
    assert!(!is_supported_audio_content_type("audio/opus"));
    assert!(!is_supported_audio_content_type("audio/x-ms-wma"));
}

#[test]
fn resolves_mime_types_for_picker_generated_files() {
    assert_eq!(mime_type_for_extension("m4b"), "audio/mp4");
    assert_eq!(mime_type_for_extension(".aifc"), "audio/aiff");
    assert_eq!(mime_type_for_extension("mka"), "audio/x-matroska");
    assert_eq!(mime_type_for_extension("dsf"), "audio/x-dsf");
    assert_eq!(mime_type_for_extension("unknown"), "");
}

#[test]
fn audio_paths_are_judged_by_their_last_component() {
    assert!(is_supported_audio_path("C:\\Music\\Album\\01 Song.FLAC"));
    assert!(is_supported_audio_path("/music/album/track.mp3"));
    assert!(!is_supported_audio_path("/music/album/cover.jpg"));
    assert!(!is_supported_audio_path("/music/album/.mp3"));
    assert!(is_dsd_audio_path("/music/sacd/track.dsf"));
    assert!(!is_dsd_audio_path("/music/sacd/track.flac"));
}

#[test]
fn content_types_ignore_parameters_and_case() {
    assert!(is_supported_audio_content_type("  AUDIO/FLAC ; charset=binary"));
    assert!(!is_supported_audio_content_type(""));
}
