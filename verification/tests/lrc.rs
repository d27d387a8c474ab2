use ofplayer::lrc::{
    apply_lrc_metadata_tag, build_candidate_from_text, build_combined_embedded_synced_candidate,
    build_candidate_from_synced_frame, build_synced_lines, count_matching_timestamps,
    find_active_line_index, resolved_track_lyrics,
    synced_timelines_are_compatible,
    normalize_lyric_line_text, parse_i64, parse_lrc_line, parse_lrc_timestamp, parse_lyrics_text,
    select_best_candidate, split_text_lines, unique_non_empty_texts, LrcMetadata, LyricsLine,
    TimedLyricEntry,
};
use ofplayer::lyrics::{LyricsContentKind, LyricsSourceKind};

fn line(index: usize, text: &str, start_ms: Option<u64>, end_ms: Option<u64>) -> LyricsLine {
    LyricsLine {
        index,
        text: String::from(text),
        start_ms,
        end_ms,
        translated_lyric: String::new(),
        roman_lyric: String::new(),
    }
}

#[test]
fn parses_synced_lrc_metadata_and_offset() {
    let parsed = parse_lyrics_text(
        "[ti:Test Song]\n[ar:OFPlayer]\n[offset:500]\n[00:01.00]Line A\n[00:02.50][00:04.00]Line B",
    );

    assert_eq!(parsed.title, "Test Song");
    assert_eq!(parsed.artist, "OFPlayer");
    assert_eq!(parsed.offset_ms, 500);
    assert_eq!(parsed.timed_entries.len(), 3);
    assert_eq!(parsed.display_lines, vec!["Line A", "Line B"]);
}

#[test]
fn finds_active_synced_line_index() {
    let lines = vec![
        line(0, "Line A", Some(1000), Some(3000)),
        line(1, "Line B", Some(3000), Some(6000)),
        line(2, "Line C", Some(6000), None),
    ];

    assert_eq!(find_active_line_index(&lines, 500), None);
    assert_eq!(find_active_line_index(&lines, 1200), Some(0));
    assert_eq!(find_active_line_index(&lines, 4500), Some(1));
    assert_eq!(find_active_line_index(&lines, 9000), Some(2));
}

#[test]
fn merges_same_timestamp_lrc_lines_as_translation() {
    let parsed =
        parse_lyrics_text("[00:01.00]Hello world\n[00:01.00]你好，世界\n[00:04.00]Next line");
    let lines = build_synced_lines(parsed.timed_entries, parsed.offset_ms);

    assert_eq!(lines.len(), 2);
    assert_eq!(lines[0].text, "Hello world");
    assert_eq!(lines[0].translated_lyric, "你好，世界");
    assert_eq!(lines[0].start_ms, Some(1000));
    assert_eq!(lines[0].end_ms, Some(4000));
    assert_eq!(lines[1].text, "Next line");
}

#[test]
fn reads_timestamps_in_milliseconds() {
    assert_eq!(parse_lrc_timestamp("00:01.00"), Some(1000));
    assert_eq!(parse_lrc_timestamp(" 01:02:03.5 "), Some(3_723_500));
    assert_eq!(parse_lrc_timestamp("00:01,250"), Some(1250));
    assert_eq!(parse_lrc_timestamp("00:01.2345"), Some(1235));
    assert_eq!(parse_lrc_timestamp("00:01.2344"), Some(1234));
    assert_eq!(parse_lrc_timestamp("2:.5"), Some(120_500));
    assert_eq!(parse_lrc_timestamp("ti:Song"), None);
    assert_eq!(parse_lrc_timestamp("00:01:02:03"), None);
    assert_eq!(parse_lrc_timestamp("00:."), None);
    assert_eq!(parse_lrc_timestamp("5"), None);
    assert_eq!(
        parse_lrc_timestamp("99999999999999999999:00"),
        Some(9_223_372_036_854_775_807)
    );
}

#[test]
fn reads_signed_integers_as_i64_parsing_does() {
    assert_eq!(parse_i64("500"), Some(500));
    assert_eq!(parse_i64("+7"), Some(7));
    assert_eq!(parse_i64("-250"), Some(-250));
    assert_eq!(parse_i64("-9223372036854775808"), Some(i64::MIN));
    assert_eq!(parse_i64("9223372036854775807"), Some(i64::MAX));
    assert_eq!(parse_i64("9223372036854775808"), None);
    assert_eq!(parse_i64("-"), None);
    assert_eq!(parse_i64(""), None);
    assert_eq!(parse_i64("1.5"), None);
}

#[test]
fn metadata_tags_set_fields_and_unknown_tags_are_refused() {
    let mut meta = LrcMetadata::new();
    assert!(apply_lrc_metadata_tag(" TI : Song ", &mut meta));
    assert!(apply_lrc_metadata_tag("la:en", &mut meta));
    assert!(apply_lrc_metadata_tag("offset:abc", &mut meta));
    assert!(apply_lrc_metadata_tag("tool:x", &mut meta));
    assert!(!apply_lrc_metadata_tag("xx:yy", &mut meta));
    assert!(!apply_lrc_metadata_tag("no colon", &mut meta));
    assert_eq!(meta.title, "Song");
    assert_eq!(meta.language, "en");
    assert_eq!(meta.offset_ms, 0);
}

#[test]
fn reads_leading_tags_of_a_line() {
    let mut meta = LrcMetadata::new();
    let parsed = parse_lrc_line("  [00:01.00] [ar:Someone][00:02.00]  Words [00:03.00]", &mut meta);
    assert_eq!(parsed.timestamps, vec![1000, 2000]);
    assert_eq!(parsed.text, "Words [00:03.00]");
    assert!(parsed.consumed_tag);
    assert_eq!(meta.artist, "Someone");

    let plain = parse_lrc_line("[chorus] la la", &mut meta);
    assert!(plain.timestamps.is_empty());
    assert_eq!(plain.text, "[chorus] la la");
    assert!(!plain.consumed_tag);

    let open = parse_lrc_line("[00:01.00", &mut meta);
    assert!(open.timestamps.is_empty());
    assert_eq!(open.text, "[00:01.00");
}

#[test]
fn normalizes_breaks_marks_and_lines() {
    assert_eq!(normalize_lyric_line_text("\u{feff} a\r\nb\rc \u{feff}"), "a\nb\nc");
    assert_eq!(split_text_lines("a\nb\n"), vec!["a", "b"]);
    assert_eq!(split_text_lines("a\n\nb"), vec!["a", "", "b"]);
    assert!(split_text_lines("").is_empty());
    let unique = unique_non_empty_texts(&vec![
        String::from(" x "),
        String::from(""),
        String::from("x"),
        String::from("y"),
    ]);
    assert_eq!(unique, vec!["x", "y"]);
}

#[test]
fn offset_moves_lines_and_clamps_at_zero() {
    let entries = vec![
        TimedLyricEntry { start_ms: 3000, text: String::from("late") },
        TimedLyricEntry { start_ms: 200, text: String::from("early") },
        TimedLyricEntry { start_ms: 250, text: String::from("early, translated") },
    ];
    let lines = build_synced_lines(entries, -500);

    assert_eq!(lines.len(), 2);
    assert_eq!(lines[0].text, "early");
    assert_eq!(lines[0].start_ms, Some(0));
    assert_eq!(lines[0].translated_lyric, "early, translated");
    assert_eq!(lines[0].end_ms, Some(2500));
    assert_eq!(lines[1].index, 1);
    assert_eq!(lines[1].text, "late");
    assert_eq!(lines[1].start_ms, Some(2500));
    assert_eq!(lines[1].end_ms, None);
}

#[test]
fn blank_first_line_of_a_group_gives_way() {
    let entries = vec![
        TimedLyricEntry { start_ms: 1000, text: String::from("  ") },
        TimedLyricEntry { start_ms: 1050, text: String::from("Shown") },
        TimedLyricEntry { start_ms: 1081, text: String::from("Own line") },
    ];
    let lines = build_synced_lines(entries, 0);

    assert_eq!(lines.len(), 2);
    assert_eq!(lines[0].text, "Shown");
    assert_eq!(lines[0].start_ms, Some(1050));
    assert_eq!(lines[0].translated_lyric, "");
    assert_eq!(lines[1].text, "Own line");
}

#[test]
fn candidates_from_text_and_their_choice() {
    let synced = build_candidate_from_text(
        "[00:01.00]Hello\n[00:02.00]World",
        LyricsSourceKind::EmbeddedText,
        None,
        0,
    )
    .unwrap();
    assert_eq!(synced.kind, LyricsContentKind::Synced);
    assert_eq!(synced.text, "Hello\nWorld");
    assert_eq!(synced.lines.len(), 2);

    let plain = build_candidate_from_text(
        "\n\nFirst\n\nSecond\n",
        LyricsSourceKind::SidecarText,
        Some(String::from("/music/a.txt")),
        900,
    )
    .unwrap();
    assert_eq!(plain.kind, LyricsContentKind::Unsynced);
    assert_eq!(plain.text, "First\n\nSecond");
    assert_eq!(plain.lines.len(), 3);
    assert_eq!(plain.lines[1].text, "");

    assert!(build_candidate_from_text("[ti:Only a title]", LyricsSourceKind::SidecarLrc, None, 1)
        .is_none());

    let chosen = select_best_candidate(vec![plain, synced]).unwrap();
    assert_eq!(chosen.source, LyricsSourceKind::SidecarText);
    assert!(select_best_candidate(Vec::new()).is_none());
}

#[test]
fn combines_compatible_embedded_text_lyrics() {
    let original = build_candidate_from_text(
        "[00:01.00]Hello world\n[00:04.00]Next line",
        LyricsSourceKind::EmbeddedText,
        None,
        0,
    )
    .unwrap();
    let translated = build_candidate_from_text(
        "[00:01.00]你好，世界\n[00:04.00]下一句",
        LyricsSourceKind::EmbeddedText,
        None,
        0,
    )
    .unwrap();
    let combined = build_combined_embedded_synced_candidate(
        &vec![original, translated],
        LyricsSourceKind::EmbeddedText,
    )
    .unwrap();

    assert_eq!(combined.lines.len(), 2);
    assert_eq!(combined.lines[0].text, "Hello world");
    assert_eq!(combined.lines[0].translated_lyric, "你好，世界");
    assert_eq!(combined.lines[1].text, "Next line");
    assert_eq!(combined.lines[1].translated_lyric, "下一句");
}

#[test]
fn timelines_pair_up_within_the_tolerance() {
    assert_eq!(count_matching_timestamps(&vec![1000, 2000, 3000], &vec![1080, 2500, 3000]), 2);
    assert_eq!(count_matching_timestamps(&vec![1000], &vec![1081]), 0);
    assert_eq!(count_matching_timestamps(&vec![], &vec![1000]), 0);

    let a = build_candidate_from_text(
        "[00:01.00]a\n[00:02.00]b\n[00:03.00]c\n[00:04.00]d",
        LyricsSourceKind::EmbeddedText,
        None,
        0,
    )
    .unwrap();
    let two_of_four = build_candidate_from_text(
        "[00:01.00]A\n[00:02.00]B\n[00:05.00]C\n[00:06.00]D",
        LyricsSourceKind::EmbeddedText,
        None,
        0,
    )
    .unwrap();
    let three_of_four = build_candidate_from_text(
        "[00:01.00]A\n[00:02.00]B\n[00:03.00]C\n[00:06.00]D",
        LyricsSourceKind::EmbeddedText,
        None,
        0,
    )
    .unwrap();
    assert!(!synced_timelines_are_compatible(&a, &two_of_four));
    assert!(synced_timelines_are_compatible(&a, &three_of_four));
    assert!(build_combined_embedded_synced_candidate(
        &vec![a, two_of_four],
        LyricsSourceKind::EmbeddedText
    )
    .is_none());
}

#[test]
fn synchronised_frames_give_synced_or_plain_lyrics() {
    let frame = vec![
        (1000, String::from("Hello")),
        (1000, String::from("你好")),
        (3000, String::from("  ")),
    ];
    let synced = build_candidate_from_synced_frame(b"eng", true, &frame).unwrap();
    assert_eq!(synced.source, LyricsSourceKind::EmbeddedSynced);
    assert_eq!(synced.kind, LyricsContentKind::Synced);
    assert_eq!(synced.language, "eng");
    assert_eq!(synced.text, "Hello\n你好");
    assert_eq!(synced.lines.len(), 2);
    assert_eq!(synced.lines[0].translated_lyric, "你好");
    assert_eq!(synced.lines[1].text, "");
    assert_eq!(synced.lines[1].start_ms, Some(3000));

    let plain = vec![(0, String::from("a")), (0, String::new()), (0, String::from("b"))];
    let unsynced = build_candidate_from_synced_frame(b"xx ", false, &plain).unwrap();
    assert_eq!(unsynced.kind, LyricsContentKind::Unsynced);
    assert_eq!(unsynced.language, "xx");
    assert_eq!(unsynced.lines.len(), 2);
    assert_eq!(unsynced.text, "a\nb");

    assert!(build_candidate_from_synced_frame(b"eng", true, &Vec::new()).is_none());
}

#[test]
fn answers_carry_the_chosen_lyrics_and_the_playing_line() {
    let chosen = build_candidate_from_text(
        "[00:01.00]One\n[00:02.00]Two",
        LyricsSourceKind::SidecarLrc,
        Some(String::from("/m/a.lrc")),
        1008,
    );
    let answer = resolved_track_lyrics(Some(String::from("t1")), String::from("/m/a.mp3"), chosen, Some(2500));
    assert_eq!(answer.active_line_index, Some(1));
    assert_eq!(answer.source_path, Some(String::from("/m/a.lrc")));
    assert_eq!(answer.metadata_version, 1);

    let missing = resolved_track_lyrics(None, String::from("/m/b.mp3"), None, Some(2500));
    assert_eq!(missing.lines.len(), 0);
    assert!(missing.active_line_index.is_none());
    assert!(missing.source.is_none());
}
