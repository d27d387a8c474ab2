//! Choosing the current track of the playback session: the track must be in
//! the catalog and in the queue, and a change of current track starts its
//! playback afresh.
use vstd::prelude::*;
use crate::text::{contains_text, texts, texts_equal, to_owned};

verus! {

pub const TRACK_NOT_IN_CATALOG_ERROR: &'static str = "Selected track was not found in the desktop catalog.";

pub const TRACK_NOT_IN_SUPPLIED_QUEUE_ERROR: &'static str =
    "Selected track is not available in the supplied playback queue.";

pub const TRACK_NOT_IN_CURRENT_QUEUE_ERROR: &'static str =
    "Selected track is not available in the current playback queue.";

/// The session after a selection: its queue and current track, whether it
/// changed at all (and is to be saved, with the session revision bumped) and
/// whether the current track changed (and its playback state is reset).
#[derive(Debug, Clone)]
pub struct SessionSelection {
    pub queue_track_ids: Vec<String>,
    pub current_track_id: String,
    pub changed: bool,
    pub current_track_changed: bool,
}

/// The queue after selecting `track`: the supplied queue when one is given,
/// else the session's queue.
pub open spec fn selected_queue(queue: Seq<Seq<char>>, supplied: Option<Seq<Seq<char>>>) -> Seq<Seq<char>> {
    match supplied {
        Some(q) => q,
        None => queue,
    }
}

/// The error of selecting `track`, if any: not in the catalog, or not in the
/// queue it is to play from.
pub open spec fn selection_error(
    catalog: Seq<Seq<char>>,
    queue: Seq<Seq<char>>,
    track: Seq<char>,
    supplied: Option<Seq<Seq<char>>>,
) -> Option<Seq<char>> {
    if !catalog.contains(track) {
        Some(TRACK_NOT_IN_CATALOG_ERROR@)
    } else if !selected_queue(queue, supplied).contains(track) {
        if supplied is Some {
            Some(TRACK_NOT_IN_SUPPLIED_QUEUE_ERROR@)
        } else {
            Some(TRACK_NOT_IN_CURRENT_QUEUE_ERROR@)
        }
    } else {
        None
    }
}

/// Selects `track_id` as the current track of a session whose queue is
/// `queue_track_ids` and whose current track is `current_track_id`, from the
/// tracks of the catalog `catalog_track_ids`. `supplied_queue`, when given,
/// is the new queue (already cleared of tracks that are not in the catalog).
pub fn plan_session_selection(
    queue_track_ids: &Vec<String>,
    current_track_id: Option<&str>,
    catalog_track_ids: &Vec<String>,
    track_id: &str,
    supplied_queue: Option<Vec<String>>,
) -> (r: Result<SessionSelection, String>)
    ensures
        match r {
            Ok(sel) => {
                &&& selection_error(
                    texts(catalog_track_ids@),
                    texts(queue_track_ids@),
                    track_id@,
                    match supplied_queue {
                        Some(q) => Some(texts(q@)),
                        None => None,
                    },
                ) is None
                &&& texts(sel.queue_track_ids@) == selected_queue(
                    texts(queue_track_ids@),
                    match supplied_queue {
                        Some(q) => Some(texts(q@)),
                        None => None,
                    },
                )
                &&& sel.current_track_id@ == track_id@
                &&& sel.current_track_changed == (match current_track_id {
                    Some(c) => c@ != track_id@,
                    None => true,
                })
                &&& sel.changed == (sel.current_track_changed || texts(sel.queue_track_ids@)
                    != texts(queue_track_ids@))
            },
            Err(e) => selection_error(
                texts(catalog_track_ids@),
                texts(queue_track_ids@),
                track_id@,
                match supplied_queue {
                    Some(q) => Some(texts(q@)),
                    None => None,
                },
            ) == Some(e@),
        },
{
    if !contains_text(catalog_track_ids, track_id) {
        return Err(to_owned(TRACK_NOT_IN_CATALOG_ERROR));
    }
    let next_queue = match supplied_queue {
        Some(q) => {
            if !contains_text(&q, track_id) {
                return Err(to_owned(TRACK_NOT_IN_SUPPLIED_QUEUE_ERROR));
            }
            q
        },
        None => {
            if !contains_text(queue_track_ids, track_id) {
                return Err(to_owned(TRACK_NOT_IN_CURRENT_QUEUE_ERROR));
            }
            crate::text::clone_strings(queue_track_ids.as_slice())
        },
    };
    let current_track_changed = match current_track_id {
        Some(c) => !crate::text::str_eq(c, track_id),
        None => true,
    };
    let changed = current_track_changed || !texts_equal(&next_queue, queue_track_ids);
    Ok(
        SessionSelection {
            queue_track_ids: next_queue,
            current_track_id: to_owned(track_id),
            changed,
            current_track_changed,
        },
    )
}

/// The current track after stepping to a neighbour in the queue: `None`
/// when there is no neighbour, else the neighbour and whether it differs
/// from the current track (and the session changes, its playback state
/// reset).
pub fn plan_session_advance(current_track_id: Option<&str>, neighbour: Option<String>) -> (r: Option<
    (String, bool),
>)
    ensures
        match neighbour {
            None => r is None,
            Some(n) => r matches Some(p) && p.0@ == n@ && p.1 == (match current_track_id {
                Some(c) => c@ != n@,
                None => true,
            }),
        },
{
    match neighbour {
        None => None,
        Some(n) => {
            let changes = match current_track_id {
                Some(c) => !crate::text::str_eq(c, n.as_str()),
                None => true,
            };
            Some((n, changes))
        },
    }
}

} // verus!
