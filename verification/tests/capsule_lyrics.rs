use ofplayer::capsule_state::{
    build_lyric_timeline, capsule_fallback_lyric, capsule_lyric_state, capsule_lyrics_cache_key,
    first_non_empty_line,
};
use ofplayer::lrc::LyricsLine;

fn line(index: usize, text: &str, start_ms: u64, end_ms: Option<u64>) -> LyricsLine {
    LyricsLine {
        index,
        text: String::from(text),
        start_ms: Some(start_ms),
        end_ms,
        translated_lyric: String::new(),
        roman_lyric: String::new(),
    }
}

fn three_lines() -> Vec<LyricsLine> {
    vec![
        line(0, "A", 1000, Some(3000)),
        line(1, "  ", 3000, Some(6000)),
        line(2, " C ", 6000, None),
    ]
}

#[test]
fn the_capsule_shows_the_playing_line_or_falls_back() {
    let lines = three_lines();
    let at_a = capsule_lyric_state(&lines, "A\nC", 7, 1500, "Title");
    assert_eq!(at_a.index, Some(0));
    assert_eq!(at_a.line, "A");
    assert_eq!(at_a.version, 7);

    let blank = capsule_lyric_state(&lines, "\n  \nA\nC", 7, 4500, "Title");
    assert_eq!(blank.index, Some(1));
    assert_eq!(blank.line, "A");
    assert_eq!(blank.timeline.len(), 1);
    assert_eq!(blank.timeline[0].text, "C");

    let before = capsule_lyric_state(&lines, "", 7, 500, "Title");
    assert_eq!(before.index, None);
    assert_eq!(before.line, "Title");

    let fallback = capsule_fallback_lyric("Music is ready");
    assert_eq!(fallback.line, "Music is ready");
    assert_eq!(fallback.version, 0);
    assert!(fallback.timeline.is_empty());
}

#[test]
fn the_timeline_keeps_a_window_of_at_most_ten_lines() {
    let lines: Vec<LyricsLine> = (0..12u64)
        .map(|k| line(k as usize, "x", k * 1000, Some((k + 1) * 1000)))
        .collect();
    let timeline = build_lyric_timeline(&lines, Some(0), 0);
    assert_eq!(timeline.len(), 10);
    assert_eq!(timeline[9].index, 9);

    let late = build_lyric_timeline(&lines, Some(5), 5200);
    assert_eq!(late[0].index, 4);
    assert_eq!(late[1].index, 5);
    assert_eq!(late[1].start_ms, Some(5000));
    assert_eq!(late[1].end_ms, Some(6000));
    let later = build_lyric_timeline(&lines, Some(5), 5400);
    assert_eq!(later[0].index, 5);

    let far = vec![line(0, "soon", 1000, None), line(1, "later", 30_000, None)];
    let window = build_lyric_timeline(&far, None, 0);
    assert_eq!(window.len(), 1);
    assert_eq!(window[0].text, "soon");
}

#[test]
fn first_lines_and_cache_keys() {
    assert_eq!(first_non_empty_line("\n  \r\n second \nthird"), Some(String::from("second")));
    assert_eq!(first_non_empty_line(" \n "), None);
    assert_eq!(capsule_lyrics_cache_key("t", "/a.mp3", ""), "t::/a.mp3::");
}
