use ofplayer::artwork::{
    fnv1a64_hex, image_extension_for_mime, parse_base64_data_url, plan_track_artwork,
    TrackArtworkPlan,
};
use ofplayer::metadata::{artwork_data_url, resolve_artwork, EmbeddedPicture};

#[test]
fn parses_base64_data_url_metadata() {
    let parsed = parse_base64_data_url("data:image/png;base64,SGVsbG8=").unwrap();

    assert_eq!(parsed.mime_type, "image/png");
    assert_eq!(parsed.payload, "SGVsbG8=");
}

#[test]
fn ignores_non_base64_artwork_urls() {
    assert!(parse_base64_data_url("https://example.test/cover.jpg").is_none());
}

#[test]
fn fnv1a64_of_empty_input_is_the_offset_basis() {
    assert_eq!(fnv1a64_hex(b""), "cbf29ce484222325");
    assert_eq!(fnv1a64_hex(b"a"), "af63dc4c8601ec8c");
}

#[test]
fn image_extensions_follow_the_mime_type() {
    assert_eq!(image_extension_for_mime("image/png"), "png");
    assert_eq!(image_extension_for_mime("image/jpeg"), "jpg");
}

#[test]
fn embedded_covers_become_data_urls_and_read_back() {
    assert_eq!(
        artwork_data_url(Some("image/png"), &[0x89, 0x50, 0x4E, 0x47]),
        "data:image/png;base64,iVBORw=="
    );
    assert_eq!(artwork_data_url(None, b"Man"), "data:image/jpeg;base64,TWFu");
    assert_eq!(artwork_data_url(None, b"Ma"), "data:image/jpeg;base64,TWE=");

    let pictures = vec![
        EmbeddedPicture { is_front_cover: false, mime_type: None, data: vec![1] },
        EmbeddedPicture {
            is_front_cover: true,
            mime_type: Some(String::from("image/png")),
            data: vec![2, 3],
        },
    ];
    assert_eq!(resolve_artwork(&pictures), "data:image/png;base64,AgM=");
    let no_front = vec![EmbeddedPicture { is_front_cover: false, mime_type: None, data: vec![1] }];
    assert_eq!(resolve_artwork(&no_front), "data:image/jpeg;base64,AQ==");
    assert_eq!(resolve_artwork(&Vec::new()), "");

    let url = artwork_data_url(Some("image/png"), &[9, 8, 7, 6]);
    match plan_track_artwork(&url) {
        Ok(Some(TrackArtworkPlan::Asset(asset))) => {
            assert_eq!(asset.bytes, vec![9, 8, 7, 6]);
            assert_eq!(asset.mime_type, "image/png");
        }
        _ => panic!("the cover should be stored as an asset"),
    }
}
