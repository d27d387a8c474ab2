//! The choices made when a stored track is handed to the player and when
//! playback is recorded: the title shown to the system's media controls,
//! whether the player may delete the file when it lets go of it, which track
//! a history entry is for, and which playback errors a session recovers
//! from.
use vstd::prelude::*;
use crate::text::{opt_text, present_seq, str_eq, to_owned};
use crate::catalog_db::normalized_optional_text;

verus! {

pub const MISSING_LOCAL_PATH_ERROR: &'static str =
    "This track does not have an indexed local path. Re-scan its source folder before playing it.";
pub const MISSING_FILE_ERROR: &'static str = "Selected track path is not available on disk.";

/// A session moves on after these errors: the track's file is missing, or it
/// was never indexed.
pub fn is_recoverable_session_playback_error(error: &str) -> (r: bool)
    ensures
        r == (error@ == MISSING_FILE_ERROR@ || error@ == MISSING_LOCAL_PATH_ERROR@),
{
    str_eq(error, MISSING_FILE_ERROR) || str_eq(error, MISSING_LOCAL_PATH_ERROR)
}

fn present(value: Option<&str>) -> (r: Option<String>)
    ensures
        opt_text(r) == present_seq(
            match value {
                Some(v) => Some(v@),
                None => None,
            },
        ),
{
    normalized_optional_text(value)
}

/// An optional text as a view.
pub open spec fn view_of(value: Option<&str>) -> Option<Seq<char>> {
    match value {
        Some(v) => Some(v@),
        None => None,
    }
}

/// The title a track plays under: its title, else its display title, else
/// its file name (each trimmed, blank ones skipped), else `Untitled`.
pub fn playback_title(title: Option<&str>, display_title: Option<&str>, file_name: Option<&str>) -> (r: String)
    ensures
        r@ == match present_seq(view_of(title)) {
            Some(t) => t,
            None => match present_seq(view_of(display_title)) {
                Some(t) => t,
                None => match present_seq(view_of(file_name)) {
                    Some(t) => t,
                    None => "Untitled"@,
                },
            },
        },
{
    match present(title) {
        Some(t) => t,
        None => match present(display_title) {
            Some(t) => t,
            None => match present(file_name) {
                Some(t) => t,
                None => to_owned("Untitled"),
            },
        },
    }
}

/// The artist a track plays under: its artist, else its album artist.
pub fn playback_artist(artist: Option<&str>, album_artist: Option<&str>) -> (r: Option<String>)
    ensures
        opt_text(r) == match present_seq(view_of(artist)) {
            Some(a) => Some(a),
            None => present_seq(view_of(album_artist)),
        },
{
    match present(artist) {
        Some(a) => Some(a),
        None => present(album_artist),
    }
}

/// Whether a track's source asks for its file to be deleted when the player
/// lets go of it: it is marked so, or transient, or a temporary external
/// copy. (The player deletes it only inside the application's own cache.)
pub fn requested_delete_on_release(
    delete_on_release: Option<bool>,
    transient: Option<bool>,
    source_kind: Option<&str>,
) -> (r: bool)
    ensures
        r == (delete_on_release == Some(true) || transient == Some(true) || present_seq(view_of(source_kind))
            == Some("external-temp"@)),
{
    proof {
        reveal_strlit("external-temp");
    }
    let kind = present(source_kind);
    let temporary = match &kind {
        Some(k) => str_eq(k.as_str(), "external-temp"),
        None => false,
    };
    match delete_on_release {
        Some(true) => true,
        _ => match transient {
            Some(true) => true,
            _ => temporary,
        },
    }
}

/// The track a history entry is for: the one named (trimmed), else the one
/// playing; none without either.
pub fn history_track_id(explicit_track_id: Option<&str>, active_track_id: Option<String>) -> (r: Option<String>)
    ensures
        opt_text(r) == match present_seq(view_of(explicit_track_id)) {
            Some(t) => Some(t),
            None => opt_text(active_track_id),
        },
{
    match present(explicit_track_id) {
        Some(t) => Some(t),
        None => active_track_id,
    }
}


/// The largest embedded cover, in bytes, handed to the system's media
/// controls.
pub const MAX_SYSTEM_MEDIA_EMBEDDED_COVER_BYTES: usize = 786432;

/// The artwork handed to the system's media controls: the track's artwork
/// (trimmed, when not blank), unless it is an embedded `data:` URL longer
/// than `MAX_SYSTEM_MEDIA_EMBEDDED_COVER_BYTES` bytes.
pub fn system_media_artwork(artwork: Option<&str>) -> (r: Option<String>)
    ensures
        opt_text(r) == match present_seq(view_of(artwork)) {
            Some(a) => if crate::text::has_prefix(a, "data:"@) && crate::lrc::text_byte_len(a)
                > MAX_SYSTEM_MEDIA_EMBEDDED_COVER_BYTES {
                None
            } else {
                Some(a)
            },
            None => None,
        },
{
    let art = match present(artwork) {
        Some(a) => a,
        None => return None,
    };
    if crate::text::starts_with(art.as_str(), "data:") && art.as_str().len()
        > MAX_SYSTEM_MEDIA_EMBEDDED_COVER_BYTES {
        return None;
    }
    Some(art)
}

} // verus!
