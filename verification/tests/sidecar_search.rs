use ofplayer::sidecar_match::LyricsLookupHints;
use ofplayer::sidecar_search::{
    collect_sidecar_paths, collect_sidecar_search_directories, collect_sidecar_search_scope,
    is_supported_sidecar_file, normalize_path_key, push_sidecar_search_directory,
    resolve_search_directory_rank, score_sidecar_path, SidecarSearchDirectory,
};

const AUDIO: &str = "/root/Music/Loren Allred - No Promises to Keep LOVELESS Ver.mp3";
const EXACT: &str = "/root/Music/Loren Allred - No Promises to Keep LOVELESS Ver.lrc";
const FUZZY: &str = "/root/Lyrics/No Promises to Keep LOVELESS Ver. - Loren Allred.lrc";

fn hints() -> LyricsLookupHints {
    LyricsLookupHints {
        title: String::from("No Promises to Keep LOVELESS Ver."),
        artist: String::from("Loren Allred"),
        album: String::new(),
        file_name: String::from("Loren Allred - No Promises to Keep LOVELESS Ver.mp3"),
    }
}

fn directories() -> Vec<SidecarSearchDirectory> {
    collect_sidecar_search_directories(
        AUDIO,
        Some(AUDIO),
        &vec![String::from("/root/Lyrics")],
        &Vec::new(),
    )
}

#[test]
fn path_keys_ignore_slashes_and_case() {
    assert_eq!(normalize_path_key("C:\\Music\\A.LRC"), "c:/music/a.lrc");
    assert!(is_supported_sidecar_file("/x/song.LRC"));
    assert!(is_supported_sidecar_file("/x/song.txt"));
    assert!(!is_supported_sidecar_file("/x/song.mp3"));
    assert!(!is_supported_sidecar_file("/x/lrc"));
}

#[test]
fn a_folder_keeps_its_best_rank_once() {
    let mut dirs = Vec::new();
    push_sidecar_search_directory(&mut dirs, String::from("/a/Lyrics"), 5, false);
    push_sidecar_search_directory(&mut dirs, String::from("/A/lyrics"), 3, true);
    push_sidecar_search_directory(&mut dirs, String::from("/a/LYRICS"), 9, false);
    assert_eq!(dirs.len(), 1);
    assert_eq!(dirs[0].path, "/A/lyrics");
    assert_eq!(dirs[0].rank, 3);
    assert!(dirs[0].recursive);
}

#[test]
fn scope_climbs_two_folders_with_lyric_folders_beside() {
    let mut dirs = Vec::new();
    collect_sidecar_search_scope(&mut dirs, "/root/Music/song.mp3", 0);
    assert_eq!(dirs.len(), 18);
    assert_eq!(dirs[0].path, "/root/Music");
    assert_eq!(dirs[0].rank, 0);
    let lyrics = dirs.iter().find(|d| d.path == "/root/Lyrics").unwrap();
    assert_eq!(lyrics.rank, 3);
    let top = dirs.iter().find(|d| d.path == "/").unwrap();
    assert_eq!(top.rank, 4);
}

#[test]
fn folder_ranks_of_sidecars() {
    let dirs = directories();
    assert_eq!(dirs[0].rank, 0);
    assert!(dirs.windows(2).all(|pair| pair[0].rank <= pair[1].rank));
    assert_eq!(resolve_search_directory_rank(&dirs, FUZZY), 3);
    assert_eq!(resolve_search_directory_rank(&dirs, "/root/Lyrics/sub/deep/x.lrc"), 5);
    assert_eq!(resolve_search_directory_rank(&dirs, "/elsewhere/x.lrc"), 255);
}

#[test]
fn matches_swapped_artist_title_sidecar_names_by_path() {
    let dirs = directories();
    assert!(score_sidecar_path(AUDIO, FUZZY, &hints(), &dirs) >= 600);
    assert!(
        score_sidecar_path(AUDIO, EXACT, &hints(), &dirs)
            > score_sidecar_path(AUDIO, FUZZY, &hints(), &dirs)
    );
}

#[test]
fn sidecars_found_are_kept_once_and_ordered_by_match() {
    let dirs = directories();
    let found = vec![
        String::from(FUZZY),
        String::from("/root/Music/other.txt"),
        String::from(EXACT),
        String::from("/ROOT/music/Loren Allred - No Promises to Keep LOVELESS Ver.lrc"),
        String::from("/root/Music/cover.jpg"),
    ];
    let paths = collect_sidecar_paths(&found, AUDIO, &hints(), &dirs);
    assert_eq!(paths, vec![String::from(EXACT), String::from(FUZZY)]);
}
