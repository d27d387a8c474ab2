use ofplayer::sidecar_match::{
    build_token_signature, collect_lookup_ordered_names, collect_lookup_token_signatures,
    normalize_sidecar_match_text, score_sidecar_match, sort_texts, split_whitespace_words,
    strip_extension, LyricsLookupHints,
};

fn loren_hints() -> LyricsLookupHints {
    LyricsLookupHints {
        title: String::from("No Promises to Keep LOVELESS Ver."),
        artist: String::from("Loren Allred"),
        album: String::new(),
        file_name: String::from("Loren Allred - No Promises to Keep LOVELESS Ver.mp3"),
    }
}

const AUDIO_STEM: &str = "Loren Allred - No Promises to Keep LOVELESS Ver";

#[test]
fn matches_swapped_artist_title_sidecar_names() {
    // The sidecar sits in the configured `Lyrics` folder beside `Music`, which
    // the origin folder chain reaches at rank 3.
    let score = score_sidecar_match(
        Some("No Promises to Keep LOVELESS Ver. - Loren Allred"),
        Some(AUDIO_STEM),
        Some("lrc"),
        3,
        &loren_hints(),
    );
    assert!(score >= 600);
    assert_eq!(score, 940 - 3 * 24 + 8);
}

#[test]
fn exact_same_stem_beats_fuzzy_match() {
    let hints = loren_hints();
    let exact = score_sidecar_match(Some(AUDIO_STEM), Some(AUDIO_STEM), Some("lrc"), 0, &hints);
    let fuzzy = score_sidecar_match(
        Some("No Promises to Keep LOVELESS Ver. - Loren Allred"),
        Some(AUDIO_STEM),
        Some("lrc"),
        3,
        &hints,
    );
    assert_eq!(exact, 1008);
    assert!(exact > fuzzy);
}

#[test]
fn folds_names_to_lower_case_words() {
    assert_eq!(normalize_sidecar_match_text("  Hello,  World!! 2 "), "hello world 2");
    assert_eq!(normalize_sidecar_match_text("Café—ÄRGER"), "café ärger");
    assert_eq!(normalize_sidecar_match_text("--!!--"), "");
    assert_eq!(split_whitespace_words(" a  b\tc "), vec!["a", "b", "c"]);
    let sorted = sort_texts(&vec![String::from("b"), String::from("a"), String::from("b")]);
    assert_eq!(sorted, vec!["a", "b", "b"]);
    assert_eq!(build_token_signature("World hello"), "hello world");
    assert_eq!(build_token_signature("hello, WORLD"), build_token_signature("World hello"));
}

#[test]
fn strips_extensions_of_file_name_hints() {
    assert_eq!(strip_extension("  song.mp3 "), Some(String::from("song")));
    assert_eq!(strip_extension("archive.tar.gz"), Some(String::from("archive.tar")));
    assert_eq!(strip_extension(".hidden"), Some(String::from(".hidden")));
    assert_eq!(strip_extension("   "), None);
}

#[test]
fn lookup_names_are_folded_once_each() {
    let names = collect_lookup_ordered_names(AUDIO_STEM, &loren_hints());
    assert_eq!(
        names,
        vec![
            "loren allred no promises to keep loveless ver",
            "no promises to keep loveless ver",
            "loren allred",
            "no promises to keep loveless ver loren allred",
        ]
    );
    let signatures = collect_lookup_token_signatures(AUDIO_STEM, &loren_hints());
    assert_eq!(
        signatures,
        vec!["allred keep loren loveless no promises to ver", "keep loveless no promises to ver", "allred loren"]
    );
}

#[test]
fn weaker_matches_and_misses() {
    let hints = loren_hints();
    let holds = score_sidecar_match(
        Some("Live - No Promises to Keep LOVELESS Ver. (Loren Allred)"),
        Some(AUDIO_STEM),
        Some("txt"),
        0,
        &hints,
    );
    assert_eq!(holds, 780);
    let title = score_sidecar_match(
        Some("no promises to keep loveless ver"),
        Some(AUDIO_STEM),
        Some("txt"),
        0,
        &hints,
    );
    assert_eq!(title, 940);
    assert_eq!(score_sidecar_match(Some("Other"), Some(AUDIO_STEM), Some("lrc"), 0, &hints), 0);
    assert_eq!(score_sidecar_match(None, Some(AUDIO_STEM), Some("lrc"), 0, &hints), 0);
    assert_eq!(score_sidecar_match(Some("!!"), Some("!!"), Some("lrc"), 0, &hints), 0);
    assert_eq!(score_sidecar_match(Some(AUDIO_STEM), Some(AUDIO_STEM), None, 255, &hints), 0);
}

#[test]
fn nearer_folders_never_score_lower() {
    let hints = loren_hints();
    let name = Some("No Promises to Keep LOVELESS Ver. - Loren Allred");
    let mut previous = u16::MAX;
    for rank in 0..50u8 {
        let score = score_sidecar_match(name, Some(AUDIO_STEM), Some("lrc"), rank, &hints);
        assert!(score <= previous);
        previous = score;
    }
    assert_eq!(previous, 0);
}

#[test]
fn own_stem_in_any_case_scores_at_least_as_high_at_the_same_rank() {
    let hints = loren_hints();
    let own = score_sidecar_match(Some("loren allred - no promises to keep loveless ver"), Some(AUDIO_STEM), Some("txt"), 2, &hints);
    let other = score_sidecar_match(Some("No Promises to Keep LOVELESS Ver."), Some(AUDIO_STEM), Some("txt"), 2, &hints);
    assert_eq!(own, 1000 - 2 * 24);
    assert!(own >= other);
}
