//! The decisions of playlist edits: which playlists may be edited, where a
//! track goes when it is added, which relation a removal deletes, and the
//! order of a playlist after a reorder. Relations are named by their index
//! in the playlist as loaded; the records themselves are stored outside the
//! library.
use vstd::prelude::*;
use crate::text::{concat, opt_text, str_eq, to_owned};

verus! {

pub const SYSTEM_PLAYLIST_ERROR: &'static str = "System playlists cannot be modified.";
pub const PLAYLIST_NOT_FOUND_ERROR: &'static str = "Playlist not found.";
pub const LIBRARY_MISMATCH_ERROR: &'static str = "Track and playlist must belong to the same library.";
pub const MISSING_TRACK_LIBRARY_ERROR: &'static str = "Missing string field 'libraryId' on desktop track.";
pub const MISSING_PLAYLIST_LIBRARY_ERROR: &'static str =
    "Missing string field 'libraryId' on desktop playlist.";
pub const MISSING_RELATION_ID_ERROR: &'static str =
    "Missing string field 'id' on desktop playlist-track relation.";
pub const MISSING_RELATION_TRACK_ERROR: &'static str =
    "Missing string field 'trackId' on desktop playlist-track relation.";

/// Only user playlists may be edited: a system playlist is refused, and a
/// record of no known kind counts as missing.
pub fn assert_user_playlist(kind: Option<&str>) -> (r: Result<(), String>)
    ensures
        match kind {
            Some(k) => if k@ == "user"@ {
                r is Ok
            } else if k@ == "system"@ {
                r matches Err(e) && e@ == SYSTEM_PLAYLIST_ERROR@
            } else {
                r matches Err(e) && e@ == PLAYLIST_NOT_FOUND_ERROR@
            },
            None => r matches Err(e) && e@ == PLAYLIST_NOT_FOUND_ERROR@,
        },
{
    match kind {
        Some(k) => if str_eq(k, "user") {
            Ok(())
        } else if str_eq(k, "system") {
            Err(to_owned(SYSTEM_PLAYLIST_ERROR))
        } else {
            Err(to_owned(PLAYLIST_NOT_FOUND_ERROR))
        },
        None => Err(to_owned(PLAYLIST_NOT_FOUND_ERROR)),
    }
}

/// A track may join a playlist of its own library only.
pub fn ensure_track_matches_playlist_library(
    track_library_id: Option<&str>,
    playlist_library_id: Option<&str>,
) -> (r: Result<(), String>)
    ensures
        match (track_library_id, playlist_library_id) {
            (None, _) => r matches Err(e) && e@ == MISSING_TRACK_LIBRARY_ERROR@,
            (Some(_), None) => r matches Err(e) && e@ == MISSING_PLAYLIST_LIBRARY_ERROR@,
            (Some(t), Some(p)) => if t@ == p@ {
                r is Ok
            } else {
                r matches Err(e) && e@ == LIBRARY_MISMATCH_ERROR@
            },
        },
{
    match (track_library_id, playlist_library_id) {
        (None, _) => Err(to_owned(MISSING_TRACK_LIBRARY_ERROR)),
        (Some(_), None) => Err(to_owned(MISSING_PLAYLIST_LIBRARY_ERROR)),
        (Some(t), Some(p)) => if str_eq(t, p) {
            Ok(())
        } else {
            Err(to_owned(LIBRARY_MISMATCH_ERROR))
        },
    }
}

/// The stored texts as views.
pub open spec fn opt_texts(values: Seq<Option<String>>) -> Seq<Option<Seq<char>>> {
    values.map_values(|v: Option<String>| opt_text(v))
}

/// The first index holding `value`.
pub open spec fn first_index(values: Seq<Option<Seq<char>>>, value: Seq<char>) -> Option<int>
    decreases values.len(),
{
    if values.len() == 0 {
        None
    } else if values[0] == Some(value) {
        Some(0)
    } else {
        match first_index(values.drop_first(), value) {
            Some(i) => Some(i + 1),
            None => None,
        }
    }
}

/// The last index holding `value`.
pub open spec fn last_index(values: Seq<Option<Seq<char>>>, value: Seq<char>) -> Option<int>
    decreases values.len(),
{
    if values.len() == 0 {
        None
    } else if values.last() == Some(value) {
        Some(values.len() - 1)
    } else {
        last_index(values.drop_last(), value)
    }
}

proof fn lemma_first_index(values: Seq<Option<Seq<char>>>, value: Seq<char>)
    ensures
        match first_index(values, value) {
            Some(i) => 0 <= i < values.len() && values[i] == Some(value) && forall|k: int|
                0 <= k < i ==> values[k] != Some(value),
            None => forall|k: int| 0 <= k < values.len() ==> values[k] != Some(value),
        },
    decreases values.len(),
{
    if values.len() > 0 && values[0] != Some(value) {
        lemma_first_index(values.drop_first(), value);
        assert forall|k: int| 0 < k < values.len() implies values[k] == values.drop_first()[k - 1] by {}
    }
}

pub(crate) proof fn lemma_last_index(values: Seq<Option<Seq<char>>>, value: Seq<char>)
    ensures
        match last_index(values, value) {
            Some(i) => 0 <= i < values.len() && values[i] == Some(value) && forall|k: int|
                i < k < values.len() ==> values[k] != Some(value),
            None => forall|k: int| 0 <= k < values.len() ==> values[k] != Some(value),
        },
    decreases values.len(),
{
    if values.len() > 0 && values.last() != Some(value) {
        lemma_last_index(values.drop_last(), value);
        assert forall|k: int| 0 <= k < values.len() - 1 implies values[k] == values.drop_last()[k] by {}
    }
}

fn find_first(values: &Vec<Option<String>>, value: &str) -> (r: Option<usize>)
    ensures
        match r {
            Some(i) => first_index(opt_texts(values@), value@) == Some(i as int),
            None => first_index(opt_texts(values@), value@) is None,
        },
{
    let ghost v = opt_texts(values@);
    proof {
        lemma_first_index(v, value@);
    }
    let mut i: usize = 0;
    while i < values.len()
        invariant
            i <= values@.len(),
            v == opt_texts(values@),
            forall|k: int| 0 <= k < i ==> v[k] != Some(value@),
            match first_index(v, value@) {
                Some(j) => 0 <= j < v.len() && v[j] == Some(value@) && forall|k: int|
                    0 <= k < j ==> v[k] != Some(value@),
                None => forall|k: int| 0 <= k < v.len() ==> v[k] != Some(value@),
            },
        decreases values@.len() - i,
    {
        let hit = match &values[i] {
            Some(t) => str_eq(t.as_str(), value),
            None => false,
        };
        assert(v[i as int] == opt_text(values@[i as int]));
        if hit {
            return Some(i);
        }
        i += 1;
    }
    None
}

pub(crate) fn find_last(values: &Vec<Option<String>>, value: &str) -> (r: Option<usize>)
    ensures
        match r {
            Some(i) => last_index(opt_texts(values@), value@) == Some(i as int),
            None => last_index(opt_texts(values@), value@) is None,
        },
{
    let ghost v = opt_texts(values@);
    proof {
        lemma_last_index(v, value@);
    }
    let mut i: usize = values.len();
    while i > 0
        invariant
            i <= values@.len(),
            v == opt_texts(values@),
            forall|k: int| i <= k < v.len() ==> v[k] != Some(value@),
            match last_index(v, value@) {
                Some(j) => 0 <= j < v.len() && v[j] == Some(value@) && forall|k: int|
                    j < k < v.len() ==> v[k] != Some(value@),
                None => forall|k: int| 0 <= k < v.len() ==> v[k] != Some(value@),
            },
        decreases i,
    {
        let hit = match &values[i - 1] {
            Some(t) => str_eq(t.as_str(), value),
            None => false,
        };
        assert(v[i - 1] == opt_text(values@[i - 1]));
        if hit {
            return Some(i - 1);
        }
        i -= 1;
    }
    None
}

/// Where an added track goes.
#[derive(Debug, Clone, Copy, PartialEq, Eq, Structural)]
pub enum PlaylistInsert {
    /// The track is in the playlist already, at this index: nothing changes.
    Existing(usize),
    /// The track's relation is inserted at this index.
    Insert(usize),
}

/// Where a track goes when it is added to a playlist whose relations hold
/// `relation_track_ids`: nowhere when it is there already, else at the
/// requested index (at most the end), or at the end.
pub fn plan_playlist_track_insert(relation_track_ids: &Vec<Option<String>>, track_id: &str, index: Option<usize>) -> (r:
    PlaylistInsert)
    ensures
        match first_index(opt_texts(relation_track_ids@), track_id@) {
            Some(i) => r == PlaylistInsert::Existing(i as usize),
            None => r == PlaylistInsert::Insert(
                match index {
                    Some(n) => if n < relation_track_ids@.len() {
                        n
                    } else {
                        relation_track_ids@.len() as usize
                    },
                    None => relation_track_ids@.len() as usize,
                },
            ),
        },
{
    match find_first(relation_track_ids, track_id) {
        Some(i) => PlaylistInsert::Existing(i),
        None => {
            let len = relation_track_ids.len();
            PlaylistInsert::Insert(
                match index {
                    Some(n) => if n < len {
                        n
                    } else {
                        len
                    },
                    None => len,
                },
            )
        },
    }
}

/// The indices of the relations other than those with id `deleted`.
pub open spec fn kept_indices(relation_ids: Seq<Option<Seq<char>>>, deleted: Seq<char>) -> Seq<int>
    decreases relation_ids.len(),
{
    if relation_ids.len() == 0 {
        seq![]
    } else {
        let before = kept_indices(relation_ids.drop_last(), deleted);
        if relation_ids.last() == Some(deleted) {
            before
        } else {
            before.push(relation_ids.len() - 1)
        }
    }
}

/// A removal from a playlist: the id of the relation deleted, and the
/// indices of the relations kept, in order.
pub struct PlaylistRemoval {
    pub deleted_relation_id: String,
    pub kept: Vec<usize>,
}

/// What removing `track_id` from a playlist deletes: nothing when the track
/// is not in it; else the first relation of the track goes, with every
/// relation that shares its id. A relation without an id fails the edit.
pub fn plan_playlist_track_removal(
    relation_track_ids: &Vec<Option<String>>,
    relation_ids: &Vec<Option<String>>,
    track_id: &str,
) -> (r: Result<Option<PlaylistRemoval>, String>)
    requires
        relation_track_ids@.len() == relation_ids@.len(),
    ensures
        match first_index(opt_texts(relation_track_ids@), track_id@) {
            None => r matches Ok(None),
            Some(i) => match opt_texts(relation_ids@)[i] {
                None => r matches Err(e) && e@ == MISSING_RELATION_ID_ERROR@,
                Some(d) => r matches Ok(Some(removal)) && removal.deleted_relation_id@ == d
                    && removal.kept@.map_values(|k: usize| k as int) == kept_indices(opt_texts(relation_ids@), d),
            },
        },
{
    let i = match find_first(relation_track_ids, track_id) {
        Some(i) => i,
        None => return Ok(None),
    };
    proof {
        lemma_first_index(opt_texts(relation_track_ids@), track_id@);
    }
    let deleted = match &relation_ids[i] {
        Some(d) => d.clone(),
        None => return Err(to_owned(MISSING_RELATION_ID_ERROR)),
    };
    let ghost ids = opt_texts(relation_ids@);
    let mut kept: Vec<usize> = Vec::new();
    let mut k: usize = 0;
    while k < relation_ids.len()
        invariant
            k <= relation_ids@.len(),
            ids == opt_texts(relation_ids@),
            kept@.map_values(|x: usize| x as int) == kept_indices(ids.take(k as int), deleted@),
        decreases relation_ids@.len() - k,
    {
        assert(ids.take(k + 1).drop_last() =~= ids.take(k as int));
        assert(ids.take(k + 1).last() == opt_text(relation_ids@[k as int]));
        let same = match &relation_ids[k] {
            Some(id) => str_eq(id.as_str(), deleted.as_str()),
            None => false,
        };
        if !same {
            let ghost before = kept@;
            kept.push(k);
            assert(kept@.map_values(|x: usize| x as int) =~= before.map_values(|x: usize| x as int).push(k as int));
        }
        k += 1;
    }
    assert(ids.take(relation_ids@.len() as int) =~= ids);
    Ok(Some(PlaylistRemoval { deleted_relation_id: deleted, kept }))
}

/// The tracks a reorder places first: the requested ids, each once, that
/// some relation holds.
pub open spec fn placed_tracks(relation_track_ids: Seq<Option<Seq<char>>>, ordered: Seq<Seq<char>>) -> Seq<Seq<char>>
    decreases ordered.len(),
{
    if ordered.len() == 0 {
        seq![]
    } else {
        let before = placed_tracks(relation_track_ids, ordered.drop_last());
        let t = ordered.last();
        if before.contains(t) || last_index(relation_track_ids, t) is None {
            before
        } else {
            before.push(t)
        }
    }
}

/// The relations after a reorder, by index: for each placed track its last
/// relation, then every relation of a track not placed, in order.
pub open spec fn reordered_indices(relation_track_ids: Seq<Option<Seq<char>>>, ordered: Seq<Seq<char>>) -> Seq<int> {
    let placed = placed_tracks(relation_track_ids, ordered);
    placed.map_values(|t: Seq<char>| last_index(relation_track_ids, t)->Some_0) + unplaced_indices(
        relation_track_ids,
        placed,
    )
}

/// The indices of the relations whose track is not in `placed`.
pub open spec fn unplaced_indices(relation_track_ids: Seq<Option<Seq<char>>>, placed: Seq<Seq<char>>) -> Seq<int>
    decreases relation_track_ids.len(),
{
    if relation_track_ids.len() == 0 {
        seq![]
    } else {
        let before = unplaced_indices(relation_track_ids.drop_last(), placed);
        match relation_track_ids.last() {
            Some(t) => if placed.contains(t) {
                before
            } else {
                before.push(relation_track_ids.len() - 1)
            },
            None => before.push(relation_track_ids.len() - 1),
        }
    }
}

/// Every relation has a track id.
pub open spec fn all_present(values: Seq<Option<Seq<char>>>) -> bool {
    forall|i: int| 0 <= i < values.len() ==> (#[trigger] values[i]) is Some
}

/// The tracks placed first by a reorder to `ordered_track_ids`, with the
/// index of the last relation of each.
pub(crate) fn placed_last_indices(relation_track_ids: &Vec<Option<String>>, ordered_track_ids: &Vec<String>) -> (r: (
    Vec<String>,
    Vec<usize>,
))
    ensures
        crate::text::texts(r.0@) == placed_tracks(
            opt_texts(relation_track_ids@),
            crate::text::texts(ordered_track_ids@),
        ),
        r.1@.map_values(|k: usize| k as int) == placed_tracks(
            opt_texts(relation_track_ids@),
            crate::text::texts(ordered_track_ids@),
        ).map_values(|t: Seq<char>| last_index(opt_texts(relation_track_ids@), t)->Some_0),
{
    let ghost ids = opt_texts(relation_track_ids@);
    let ghost ord = crate::text::texts(ordered_track_ids@);
    let mut placed: Vec<String> = Vec::new();
    let mut out: Vec<usize> = Vec::new();
    let mut i: usize = 0;
    while i < ordered_track_ids.len()
        invariant
            i <= ordered_track_ids@.len(),
            ids == opt_texts(relation_track_ids@),
            ord == crate::text::texts(ordered_track_ids@),
            crate::text::texts(placed@) == placed_tracks(ids, ord.take(i as int)),
            out@.map_values(|k: usize| k as int) == placed_tracks(ids, ord.take(i as int)).map_values(
                |t: Seq<char>| last_index(ids, t)->Some_0,
            ),
        decreases ordered_track_ids@.len() - i,
    {
        assert(ord.take(i + 1).drop_last() =~= ord.take(i as int));
        assert(ord.take(i + 1).last() == ordered_track_ids@[i as int]@);
        let t = ordered_track_ids[i].as_str();
        if !crate::text::contains_text(&placed, t) {
            match find_last(relation_track_ids, t) {
                Some(k) => {
                    let ghost before_placed = placed@;
                    let ghost before_out = out@;
                    placed.push(ordered_track_ids[i].clone());
                    out.push(k);
                    assert(crate::text::texts(placed@) =~= crate::text::texts(before_placed).push(t@));
                    assert(out@.map_values(|k: usize| k as int) =~= before_out.map_values(|k: usize| k as int).push(
                        k as int,
                    ));
                    assert(placed_tracks(ids, ord.take(i + 1)).map_values(|t: Seq<char>| last_index(ids, t)->Some_0)
                        =~= placed_tracks(ids, ord.take(i as int)).map_values(
                        |t: Seq<char>| last_index(ids, t)->Some_0,
                    ).push(k as int));
                },
                None => {},
            }
        }
        i += 1;
    }
    assert(ord.take(ordered_track_ids@.len() as int) =~= ord);
    assert(ord.take(ordered_track_ids@.len() as int) =~= ord);
    (placed, out)
}

/// The order of a playlist's relations after a reorder to
/// `ordered_track_ids` (see `reordered_indices`). A relation without a track
/// id fails the reorder.
pub fn reorder_relation_indices(relation_track_ids: &Vec<Option<String>>, ordered_track_ids: &Vec<String>) -> (r:
    Result<Vec<usize>, String>)
    ensures
        all_present(opt_texts(relation_track_ids@)) ==> (r matches Ok(v) && v@.map_values(|k: usize| k as int)
            == reordered_indices(opt_texts(relation_track_ids@), crate::text::texts(ordered_track_ids@))),
        !all_present(opt_texts(relation_track_ids@)) ==> (r matches Err(e) && e@ == MISSING_RELATION_TRACK_ERROR@),
{
    let ghost ids = opt_texts(relation_track_ids@);
    let ghost ord = crate::text::texts(ordered_track_ids@);
    let mut c: usize = 0;
    while c < relation_track_ids.len()
        invariant
            c <= relation_track_ids@.len(),
            ids == opt_texts(relation_track_ids@),
            forall|k: int| 0 <= k < c ==> (#[trigger] ids[k]) is Some,
        decreases relation_track_ids@.len() - c,
    {
        assert(ids[c as int] == opt_text(relation_track_ids@[c as int]));
        if relation_track_ids[c].is_none() {
            return Err(to_owned(MISSING_RELATION_TRACK_ERROR));
        }
        c += 1;
    }
    let (placed, mut out) = placed_last_indices(relation_track_ids, ordered_track_ids);
    let ghost placed_view = crate::text::texts(placed@);
    let ghost head = out@.map_values(|k: usize| k as int);
    let mut j: usize = 0;
    while j < relation_track_ids.len()
        invariant
            j <= relation_track_ids@.len(),
            ids == opt_texts(relation_track_ids@),
            crate::text::texts(placed@) == placed_view,
            head.len() <= out@.len(),
            out@.map_values(|k: usize| k as int) == head + unplaced_indices(ids.take(j as int), placed_view),
        decreases relation_track_ids@.len() - j,
    {
        assert(ids.take(j + 1).drop_last() =~= ids.take(j as int));
        assert(ids.take(j + 1).last() == opt_text(relation_track_ids@[j as int]));
        let is_placed = match &relation_track_ids[j] {
            Some(t) => crate::text::contains_text(&placed, t.as_str()),
            None => false,
        };
        if !is_placed {
            let ghost before_out = out@;
            out.push(j);
            assert(out@.map_values(|k: usize| k as int) =~= before_out.map_values(|k: usize| k as int).push(
                j as int,
            ));
            assert(head + unplaced_indices(ids.take(j + 1), placed_view) =~= (head + unplaced_indices(
                ids.take(j as int),
                placed_view,
            )).push(j as int));
        }
        j += 1;
    }
    assert(ids.take(relation_track_ids@.len() as int) =~= ids);
    Ok(out)
}

/// A track added to a playlist that did not hold it is found at the place
/// it was inserted, and only there.
pub proof fn law_added_track_is_found_where_inserted(ids: Seq<Option<Seq<char>>>, track: Seq<char>, at: int)
    requires
        first_index(ids, track) is None,
        0 <= at <= ids.len(),
    ensures
        first_index(ids.insert(at, Some(track)), track) == Some(at),
        last_index(ids.insert(at, Some(track)), track) == Some(at),
{
    lemma_first_index(ids, track);
    let grown = ids.insert(at, Some(track));
    lemma_first_index(grown, track);
    lemma_last_index(grown, track);
    assert forall|k: int| 0 <= k < grown.len() && k != at implies grown[k] != Some(track) by {
        if k < at {
            assert(grown[k] == ids[k]);
        } else {
            assert(grown[k] == ids[k - 1]);
        }
    }
    assert(grown[at] == Some(track));
}

/// A removal keeps no relation with the deleted id, and keeps every other
/// relation, in order.
pub proof fn law_removal_drops_exactly_the_deleted_relation(ids: Seq<Option<Seq<char>>>, deleted: Seq<char>)
    ensures
        forall|k: int| 0 <= k < kept_indices(ids, deleted).len() ==> {
            let i = #[trigger] kept_indices(ids, deleted)[k];
            0 <= i < ids.len() && ids[i] != Some(deleted)
        },
        forall|i: int, j: int|
            0 <= i < j < kept_indices(ids, deleted).len() ==> kept_indices(ids, deleted)[i] < kept_indices(ids, deleted)[j],
        kept_indices(ids, deleted).len() + count_of(ids, deleted) == ids.len(),
    decreases ids.len(),
{
    if ids.len() > 0 {
        law_removal_drops_exactly_the_deleted_relation(ids.drop_last(), deleted);
        let before = kept_indices(ids.drop_last(), deleted);
        assert forall|k: int| 0 <= k < kept_indices(ids, deleted).len() implies {
            let i = #[trigger] kept_indices(ids, deleted)[k];
            0 <= i < ids.len() && ids[i] != Some(deleted)
        } by {
            if k < before.len() {
                assert(kept_indices(ids, deleted)[k] == before[k]);
                assert(ids[before[k]] == ids.drop_last()[before[k]]);
            }
        }
    }
}

/// How many relations have id `id`.
pub open spec fn count_of(ids: Seq<Option<Seq<char>>>, id: Seq<char>) -> nat
    decreases ids.len(),
{
    if ids.len() == 0 {
        0
    } else {
        count_of(ids.drop_last(), id) + if ids.last() == Some(id) {
            1nat
        } else {
            0nat
        }
    }
}

/// Every placed track has a relation.
pub(crate) proof fn lemma_placed_have_relations(ids: Seq<Option<Seq<char>>>, ordered: Seq<Seq<char>>)
    ensures
        forall|k: int| 0 <= k < placed_tracks(ids, ordered).len() ==> last_index(ids, #[trigger] placed_tracks(ids, ordered)[k]) is Some,
    decreases ordered.len(),
{
    if ordered.len() > 0 {
        lemma_placed_have_relations(ids, ordered.drop_last());
        let before = placed_tracks(ids, ordered.drop_last());
        assert forall|k: int| 0 <= k < placed_tracks(ids, ordered).len() implies last_index(ids, #[trigger] placed_tracks(ids, ordered)[k]) is Some by {
            if k < before.len() {
                assert(placed_tracks(ids, ordered)[k] == before[k]);
            }
        }
    }
}

} // verus!
