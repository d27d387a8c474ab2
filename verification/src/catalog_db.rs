//! The catalog's records: text normalisation, and the repairs that keep
//! every library with its all-tracks playlist and every track in a library.
//! The records are read and written outside the library.
use vstd::prelude::*;
use crate::text::{concat, opt_text, present_seq, str_eq, to_owned, trim, trim_seq};

verus! {

/// The value trimmed, `None` when nothing is left of it or there is none.
pub fn normalized_optional_text(value: Option<&str>) -> (r: Option<String>)
    ensures
        opt_text(r) == present_seq(
            match value {
                Some(v) => Some(v@),
                None => None,
            },
        ),
{
    match value {
        Some(v) => {
            let t = trim(v);
            if t.as_str().is_empty() {
                None
            } else {
                Some(t)
            }
        },
        None => None,
    }
}

/// The value trimmed, `None` when nothing is left of it.
pub fn normalized_non_empty_text(value: &str) -> (r: Option<String>)
    ensures
        opt_text(r) == present_seq(Some(value@)),
{
    normalized_optional_text(Some(value))
}

pub const DEFAULT_LIBRARY_ID: &'static str = "library-default";
pub const DEFAULT_ALL_TRACKS_PLAYLIST_ID: &'static str = "playlist-default-all-tracks";
pub const SYSTEM_PLAYLIST_ALL_TRACKS_KEY: &'static str = "all-tracks";
pub const MISSING_LIBRARY_ID_ERROR: &'static str = "Missing string field 'id' on desktop library.";

/// The fields of a stored playlist that the repairs read (`libraryId` and
/// `systemKey`, as stored).
#[derive(Debug, Clone, Default)]
pub struct PlaylistShape {
    pub library_id: Option<String>,
    pub system_key: Option<String>,
}

/// The fields of a stored track that the repairs read.
#[derive(Debug, Clone, Default)]
pub struct TrackShape {
    pub library_id: Option<String>,
    pub library_order: Option<u64>,
    pub is_favorite: Option<bool>,
    pub imported_at: Option<String>,
}

/// An all-tracks playlist to create.
#[derive(Debug, Clone)]
pub struct DefaultPlaylistPlan {
    pub library_id: String,
    pub order: usize,
    pub id: Option<String>,
}

/// How a track is put into a library: its new library and order, its
/// favourite flag made explicit, and whether it needs an import date.
#[derive(Debug, Clone)]
pub struct TrackRepair {
    pub track_index: usize,
    pub library_id: String,
    pub library_order: u64,
    pub is_favorite: bool,
    pub needs_imported_at: bool,
}

/// The repairs a catalog needs.
#[derive(Debug, Clone)]
pub struct CatalogRepairPlan {
    pub seed_default_library: bool,
    pub default_playlists: Vec<DefaultPlaylistPlan>,
    pub track_repairs: Vec<TrackRepair>,
}

impl CatalogRepairPlan {
    /// Whether nothing needs repair.
    pub open spec fn is_empty_spec(&self) -> bool {
        !self.seed_default_library && self.default_playlists@.len() == 0 && self.track_repairs@.len() == 0
    }

    /// Whether nothing needs repair.
    pub fn is_empty(&self) -> (r: bool)
        ensures
            r == self.is_empty_spec(),
    {
        !self.seed_default_library && self.default_playlists.len() == 0 && self.track_repairs.len() == 0
    }
}

/// A playlist of library `library` (by its stored id).
pub open spec fn in_library(p: PlaylistShape, library: Seq<char>) -> bool {
    opt_text(p.library_id) == Some(library)
}

/// The all-tracks playlist of library `library`.
pub open spec fn is_all_tracks_of(p: PlaylistShape, library: Seq<char>) -> bool {
    in_library(p, library) && opt_text(p.system_key) == Some(SYSTEM_PLAYLIST_ALL_TRACKS_KEY@)
}

/// How many playlists library `library` has.
pub open spec fn playlist_count(playlists: Seq<PlaylistShape>, library: Seq<char>) -> nat
    decreases playlists.len(),
{
    if playlists.len() == 0 {
        0
    } else {
        playlist_count(playlists.drop_last(), library) + if in_library(playlists.last(), library) {
            1nat
        } else {
            0nat
        }
    }
}

/// The all-tracks playlists to create for `libraries` (by id, in order):
/// one for each library without one, placed after the library's playlists,
/// with the well-known id for the default library.
pub open spec fn missing_default_playlists(libraries: Seq<Seq<char>>, playlists: Seq<PlaylistShape>) -> Seq<
    (Seq<char>, nat, Option<Seq<char>>),
>
    decreases libraries.len(),
{
    if libraries.len() == 0 {
        seq![]
    } else {
        let before = missing_default_playlists(libraries.drop_last(), playlists);
        let l = libraries.last();
        if exists|i: int| 0 <= i < playlists.len() && is_all_tracks_of(#[trigger] playlists[i], l) {
            before
        } else {
            before.push(
                (
                    l,
                    playlist_count(playlists, l),
                    if l == DEFAULT_LIBRARY_ID@ {
                        Some(DEFAULT_ALL_TRACKS_PLAYLIST_ID@)
                    } else {
                        None
                    },
                ),
            )
        }
    }
}

/// The plan of a playlist to create, as text.
pub open spec fn playlist_plan_view(p: DefaultPlaylistPlan) -> (Seq<char>, nat, Option<Seq<char>>) {
    (p.library_id@, p.order as nat, opt_text(p.id))
}

/// The ids of the libraries, when every library has one.
pub open spec fn library_ids(libraries: Seq<Option<String>>) -> Option<Seq<Seq<char>>>
    decreases libraries.len(),
{
    if libraries.len() == 0 {
        Some(seq![])
    } else {
        match (library_ids(libraries.drop_last()), libraries.last()) {
            (Some(ids), Some(id)) => Some(ids.push(id@)),
            _ => None,
        }
    }
}

fn count_library_playlists(playlists: &Vec<PlaylistShape>, library: &str) -> (r: usize)
    ensures
        r == playlist_count(playlists@, library@),
{
    let mut n: usize = 0;
    let mut i: usize = 0;
    while i < playlists.len()
        invariant
            i <= playlists@.len(),
            n == playlist_count(playlists@.take(i as int), library@),
            n <= i,
        decreases playlists@.len() - i,
    {
        assert(playlists@.take(i + 1).drop_last() =~= playlists@.take(i as int));
        let member = match &playlists[i].library_id {
            Some(l) => str_eq(l.as_str(), library),
            None => false,
        };
        if member {
            n += 1;
        }
        i += 1;
    }
    assert(playlists@.take(playlists@.len() as int) =~= playlists@);
    n
}

fn has_all_tracks_playlist(playlists: &Vec<PlaylistShape>, library: &str) -> (r: bool)
    ensures
        r == exists|i: int| 0 <= i < playlists@.len() && is_all_tracks_of(#[trigger] playlists@[i], library@),
{
    proof {
        reveal_strlit("all-tracks");
    }
    let mut i: usize = 0;
    while i < playlists.len()
        invariant
            i <= playlists@.len(),
            forall|k: int| 0 <= k < i ==> !is_all_tracks_of(#[trigger] playlists@[k], library@),
        decreases playlists@.len() - i,
    {
        let p = &playlists[i];
        let member = match &p.library_id {
            Some(l) => str_eq(l.as_str(), library),
            None => false,
        };
        let all_tracks = match &p.system_key {
            Some(k) => str_eq(k.as_str(), SYSTEM_PLAYLIST_ALL_TRACKS_KEY),
            None => false,
        };
        if member && all_tracks {
            assert(is_all_tracks_of(playlists@[i as int], library@));
            return true;
        }
        i += 1;
    }
    false
}

/// The library ids, or the error of the first library without one.
pub fn collect_library_ids(libraries: &Vec<Option<String>>) -> (r: Result<Vec<String>, String>)
    ensures
        match library_ids(libraries@) {
            Some(ids) => r matches Ok(v) && crate::text::texts(v@) == ids,
            None => r matches Err(e) && e@ == MISSING_LIBRARY_ID_ERROR@,
        },
{
    let mut out: Vec<String> = Vec::new();
    let mut i: usize = 0;
    while i < libraries.len()
        invariant
            i <= libraries@.len(),
            library_ids(libraries@.take(i as int)) == Some(crate::text::texts(out@)),
        decreases libraries@.len() - i,
    {
        assert(libraries@.take(i + 1).drop_last() =~= libraries@.take(i as int));
        match &libraries[i] {
            Some(id) => {
                let ghost before = out@;
                out.push(id.clone());
                assert(crate::text::texts(out@) =~= crate::text::texts(before).push(id@));
            },
            None => {
                proof {
                    lemma_library_ids_none(libraries@, i as int);
                }
                return Err(to_owned(MISSING_LIBRARY_ID_ERROR));
            },
        }
        i += 1;
    }
    assert(libraries@.take(libraries@.len() as int) =~= libraries@);
    Ok(out)
}

proof fn lemma_library_ids_none(libraries: Seq<Option<String>>, i: int)
    requires
        0 <= i < libraries.len(),
        libraries[i] is None,
    ensures
        library_ids(libraries) is None,
    decreases libraries.len(),
{
    if i < libraries.len() - 1 {
        assert(libraries.drop_last()[i] == libraries[i]);
        lemma_library_ids_none(libraries.drop_last(), i);
    }
}

/// The all-tracks playlists missing for `library_ids`.
pub fn plan_missing_default_playlists(library_ids: &Vec<String>, playlists: &Vec<PlaylistShape>) -> (r: Vec<
    DefaultPlaylistPlan,
>)
    ensures
        r@.map_values(|p: DefaultPlaylistPlan| playlist_plan_view(p)) == missing_default_playlists(
            crate::text::texts(library_ids@),
            playlists@,
        ),
{
    proof {
        reveal_strlit("library-default");
        reveal_strlit("playlist-default-all-tracks");
    }
    let ghost ids = crate::text::texts(library_ids@);
    let mut out: Vec<DefaultPlaylistPlan> = Vec::new();
    let mut i: usize = 0;
    while i < library_ids.len()
        invariant
            i <= library_ids@.len(),
            ids == crate::text::texts(library_ids@),
            out@.map_values(|p: DefaultPlaylistPlan| playlist_plan_view(p)) == missing_default_playlists(
                ids.take(i as int),
                playlists@,
            ),
        decreases library_ids@.len() - i,
    {
        assert(ids.take(i + 1).drop_last() =~= ids.take(i as int));
        assert(ids.take(i + 1).last() == library_ids@[i as int]@);
        let l = library_ids[i].as_str();
        if !has_all_tracks_playlist(playlists, l) {
            let order = count_library_playlists(playlists, l);
            let id = if str_eq(l, DEFAULT_LIBRARY_ID) {
                Some(to_owned(DEFAULT_ALL_TRACKS_PLAYLIST_ID))
            } else {
                None
            };
            let ghost before = out@;
            out.push(DefaultPlaylistPlan { library_id: library_ids[i].clone(), order, id });
            assert(out@.map_values(|p: DefaultPlaylistPlan| playlist_plan_view(p)) =~= before.map_values(
                |p: DefaultPlaylistPlan| playlist_plan_view(p),
            ).push(playlist_plan_view(out@.last())));
        }
        i += 1;
    }
    assert(ids.take(library_ids@.len() as int) =~= ids);
    out
}

/// The repairs of the catalog's shell: without libraries, the default
/// library is seeded with its all-tracks playlist; otherwise each library
/// without an all-tracks playlist gets one. A library without an id fails
/// the check.
pub fn plan_catalog_shell_repairs(libraries: &Vec<Option<String>>, playlists: &Vec<PlaylistShape>) -> (r:
    Result<CatalogRepairPlan, String>)
    ensures
        libraries@.len() == 0 ==> (r matches Ok(plan) && plan.seed_default_library
            && plan.default_playlists@.map_values(|p: DefaultPlaylistPlan| playlist_plan_view(p))
            == seq![(DEFAULT_LIBRARY_ID@, 0nat, Some(DEFAULT_ALL_TRACKS_PLAYLIST_ID@))]
            && plan.track_repairs@.len() == 0),
        libraries@.len() > 0 ==> match library_ids(libraries@) {
            Some(ids) => r matches Ok(plan) && !plan.seed_default_library
                && plan.default_playlists@.map_values(|p: DefaultPlaylistPlan| playlist_plan_view(p))
                == missing_default_playlists(ids, playlists@) && plan.track_repairs@.len() == 0,
            None => r matches Err(e) && e@ == MISSING_LIBRARY_ID_ERROR@,
        },
{
    if libraries.len() == 0 {
        let mut seeded: Vec<DefaultPlaylistPlan> = Vec::new();
        seeded.push(
            DefaultPlaylistPlan {
                library_id: to_owned(DEFAULT_LIBRARY_ID),
                order: 0,
                id: Some(to_owned(DEFAULT_ALL_TRACKS_PLAYLIST_ID)),
            },
        );
        assert(seeded@.map_values(|p: DefaultPlaylistPlan| playlist_plan_view(p)) =~= seq![
            (DEFAULT_LIBRARY_ID@, 0nat, Some(DEFAULT_ALL_TRACKS_PLAYLIST_ID@)),
        ]);
        return Ok(
            CatalogRepairPlan {
                seed_default_library: true,
                default_playlists: seeded,
                track_repairs: Vec::new(),
            },
        );
    }
    let ids = match collect_library_ids(libraries) {
        Ok(ids) => ids,
        Err(e) => return Err(e),
    };
    let default_playlists = plan_missing_default_playlists(&ids, playlists);
    Ok(CatalogRepairPlan { seed_default_library: false, default_playlists, track_repairs: Vec::new() })
}

/// The indices of the tracks without a library, in order.
pub open spec fn unassigned_tracks(tracks: Seq<TrackShape>) -> Seq<int>
    decreases tracks.len(),
{
    if tracks.len() == 0 {
        seq![]
    } else {
        let before = unassigned_tracks(tracks.drop_last());
        if present_seq(opt_text(tracks.last().library_id)) is None {
            before.push(tracks.len() - 1)
        } else {
            before
        }
    }
}

/// `rep` puts track `index` into `library`: its stored order is kept when
/// it fits a `usize`, else `fallback` is used; its favourite flag becomes
/// explicit; a track without an import date gets one.
pub open spec fn is_track_repair(rep: TrackRepair, track: TrackShape, index: int, library: Seq<char>, fallback: int) -> bool {
    &&& rep.track_index == index
    &&& rep.library_id@ == library
    &&& rep.library_order == match track.library_order {
        Some(o) => if o <= usize::MAX {
            o as int
        } else {
            fallback
        },
        None => fallback,
    }
    &&& rep.is_favorite == (track.is_favorite == Some(true))
    &&& rep.needs_imported_at == (present_seq(opt_text(track.imported_at)) is None)
}

/// The repair that puts track `index` into `library`.
pub fn plan_track_repair(track: &TrackShape, index: usize, library: &str, fallback_order: usize) -> (r:
    TrackRepair)
    ensures
        is_track_repair(r, *track, index as int, library@, fallback_order as int),
{
    let library_order: u64 = match track.library_order {
        Some(o) => if o <= usize::MAX as u64 {
            o
        } else {
            fallback_order as u64
        },
        None => fallback_order as u64,
    };
    let imported = normalized_optional_text(
        match &track.imported_at {
            Some(t) => Some(t.as_str()),
            None => None,
        },
    );
    TrackRepair {
        track_index: index,
        library_id: to_owned(library),
        library_order,
        is_favorite: match track.is_favorite {
            Some(b) => b,
            None => false,
        },
        needs_imported_at: imported.is_none(),
    }
}

/// The repairs of the whole catalog: those of its shell, and each track
/// without a library put into the first library (into the seeded default
/// library when there was none), ordered after its place among such tracks.
pub fn plan_catalog_repairs(
    libraries: &Vec<Option<String>>,
    playlists: &Vec<PlaylistShape>,
    tracks: &Vec<TrackShape>,
) -> (r: Result<CatalogRepairPlan, String>)
    ensures
        libraries@.len() == 0 ==> (r matches Ok(plan) && plan.seed_default_library
            && plan.default_playlists@.map_values(|p: DefaultPlaylistPlan| playlist_plan_view(p))
            == seq![(DEFAULT_LIBRARY_ID@, 0nat, Some(DEFAULT_ALL_TRACKS_PLAYLIST_ID@))]
            && plan.track_repairs@.len() == tracks@.len() && forall|i: int|
            0 <= i < tracks@.len() ==> is_track_repair(
                #[trigger] plan.track_repairs@[i],
                tracks@[i],
                i,
                DEFAULT_LIBRARY_ID@,
                i,
            )),
        libraries@.len() > 0 ==> match library_ids(libraries@) {
            Some(ids) => (r matches Ok(plan) && !plan.seed_default_library
                && plan.default_playlists@.map_values(|p: DefaultPlaylistPlan| playlist_plan_view(p))
                == missing_default_playlists(ids, playlists@) && plan.track_repairs@.len()
                == unassigned_tracks(tracks@).len() && forall|k: int|
                0 <= k < unassigned_tracks(tracks@).len() ==> is_track_repair(
                    #[trigger] plan.track_repairs@[k],
                    tracks@[unassigned_tracks(tracks@)[k]],
                    unassigned_tracks(tracks@)[k],
                    ids[0],
                    k,
                )),
            None => r matches Err(e) && e@ == MISSING_LIBRARY_ID_ERROR@,
        },
{
    let shell = match plan_catalog_shell_repairs(libraries, playlists) {
        Ok(plan) => plan,
        Err(e) => return Err(e),
    };
    let mut repairs: Vec<TrackRepair> = Vec::new();
    if libraries.len() == 0 {
        let mut i: usize = 0;
        while i < tracks.len()
            invariant
                i <= tracks@.len(),
                repairs@.len() == i,
                forall|k: int|
                    0 <= k < i ==> is_track_repair(#[trigger] repairs@[k], tracks@[k], k, DEFAULT_LIBRARY_ID@, k),
            decreases tracks@.len() - i,
        {
            repairs.push(plan_track_repair(&tracks[i], i, DEFAULT_LIBRARY_ID, i));
            i += 1;
        }
    } else {
        let ids = match collect_library_ids(libraries) {
            Ok(ids) => ids,
            Err(e) => return Err(e),
        };
        let ghost id_texts = crate::text::texts(ids@);
        assert(id_texts[0] == ids@[0]@);
        let default_library = ids[0].as_str();
        let mut i: usize = 0;
        while i < tracks.len()
            invariant
                i <= tracks@.len(),
                ids@.len() > 0,
                default_library@ == ids@[0]@,
                repairs@.len() == unassigned_tracks(tracks@.take(i as int)).len(),
                repairs@.len() <= i,
                forall|k: int|
                    0 <= k < repairs@.len() ==> is_track_repair(
                        #[trigger] repairs@[k],
                        tracks@[unassigned_tracks(tracks@.take(i as int))[k]],
                        unassigned_tracks(tracks@.take(i as int))[k],
                        default_library@,
                        k,
                    ),
                forall|k: int|
                    0 <= k < unassigned_tracks(tracks@.take(i as int)).len() ==> 0
                        <= #[trigger] unassigned_tracks(tracks@.take(i as int))[k] < i,
            decreases tracks@.len() - i,
        {
            let ghost before = unassigned_tracks(tracks@.take(i as int));
            assert(tracks@.take(i + 1).drop_last() =~= tracks@.take(i as int));
            assert(tracks@.take(i + 1).last() == tracks@[i as int]);
            let library = normalized_optional_text(
                match &tracks[i].library_id {
                    Some(l) => Some(l.as_str()),
                    None => None,
                },
            );
            if library.is_none() {
                let k = repairs.len();
                repairs.push(plan_track_repair(&tracks[i], i, default_library, k));
            }
            i += 1;
        }
        assert(tracks@.take(tracks@.len() as int) =~= tracks@);
    }
    Ok(
        CatalogRepairPlan {
            seed_default_library: shell.seed_default_library,
            default_playlists: shell.default_playlists,
            track_repairs: repairs,
        },
    )
}

/// Library `l` has an all-tracks playlist among `playlists`.
pub open spec fn has_all_tracks_playlist_spec(playlists: Seq<PlaylistShape>, l: Seq<char>) -> bool {
    exists|j: int| 0 <= j < playlists.len() && is_all_tracks_of(#[trigger] playlists[j], l)
}

/// The plan creates an all-tracks playlist for library `l`.
pub open spec fn plans_playlist_for(plan: Seq<(Seq<char>, nat, Option<Seq<char>>)>, l: Seq<char>) -> bool {
    exists|k: int| 0 <= k < plan.len() && (#[trigger] plan[k]).0 == l
}

/// After the shell repairs every library has an all-tracks playlist: one it
/// had, or one the plan creates for it.
pub proof fn law_every_library_gets_an_all_tracks_playlist(ids: Seq<Seq<char>>, playlists: Seq<PlaylistShape>)
    ensures
        forall|i: int|
            0 <= i < ids.len() ==> has_all_tracks_playlist_spec(playlists, #[trigger] ids[i])
                || plans_playlist_for(missing_default_playlists(ids, playlists), ids[i]),
    decreases ids.len(),
{
    if ids.len() > 0 {
        let rest = ids.drop_last();
        law_every_library_gets_an_all_tracks_playlist(rest, playlists);
        let before = missing_default_playlists(rest, playlists);
        let after = missing_default_playlists(ids, playlists);
        assert forall|i: int| 0 <= i < ids.len() implies has_all_tracks_playlist_spec(playlists, #[trigger] ids[i])
            || plans_playlist_for(after, ids[i]) by {
            if i < ids.len() - 1 {
                assert(rest[i] == ids[i]);
                if plans_playlist_for(before, rest[i]) {
                    let k = choose|k: int| 0 <= k < before.len() && (#[trigger] before[k]).0 == rest[i];
                    assert(after[k] == before[k]);
                }
            } else {
                if !has_all_tracks_playlist_spec(playlists, ids[i]) {
                    assert(after[before.len() as int].0 == ids[i]);
                }
            }
        }
    }
}

/// The fields of a track record that its row stores, as read (`None` when
/// absent or of another type).
#[derive(Debug, Clone, Default)]
pub struct TrackRowFields {
    pub id: Option<String>,
    pub library_id: Option<String>,
    pub library_order: Option<i64>,
    pub imported_at: Option<String>,
    pub is_favorite: Option<bool>,
    pub title: Option<String>,
    pub display_title: Option<String>,
    pub file_name: Option<String>,
    pub format: Option<String>,
}

/// The checked columns of a track row.
#[derive(Debug, Clone)]
pub struct TrackRow {
    pub id: String,
    pub library_id: String,
    pub library_order: i64,
    pub imported_at: String,
    pub is_favorite: bool,
    pub title: String,
    pub display_title: String,
    pub file_name: String,
    pub format: String,
}

/// The error of a missing text field of a track.
pub open spec fn missing_text_error(field: Seq<char>) -> Seq<char> {
    "Missing string field '"@ + field + "' on desktop track."@
}

fn missing_text(field: &str) -> (r: String)
    ensures
        r@ == missing_text_error(field@),
{
    let a = concat("Missing string field '", field);
    concat(a.as_str(), "' on desktop track.")
}

fn required_text(value: &Option<String>, field: &str) -> (r: Result<String, String>)
    ensures
        match value {
            Some(v) => r matches Ok(t) && t@ == v@,
            None => r matches Err(e) && e@ == missing_text_error(field@),
        },
{
    match value {
        Some(v) => Ok(v.clone()),
        None => Err(missing_text(field)),
    }
}

/// The error of the first missing field of a track row, in the order id,
/// library id, library order, import date, favourite flag, title, display
/// title, file name and format.
pub open spec fn track_row_error(fields: TrackRowFields) -> Option<Seq<char>> {
    if fields.id is None {
        Some(missing_text_error("id"@))
    } else if fields.library_id is None {
        Some(missing_text_error("libraryId"@))
    } else if fields.library_order is None {
        Some("Missing integer field 'libraryOrder' on desktop track."@)
    } else if fields.imported_at is None {
        Some(missing_text_error("importedAt"@))
    } else if fields.is_favorite is None {
        Some("Missing boolean field 'isFavorite' on desktop track."@)
    } else if fields.title is None {
        Some(missing_text_error("title"@))
    } else if fields.display_title is None {
        Some(missing_text_error("displayTitle"@))
    } else if fields.file_name is None {
        Some(missing_text_error("fileName"@))
    } else if fields.format is None {
        Some(missing_text_error("format"@))
    } else {
        None
    }
}

/// The row of a track record, or the error of its first missing field.
pub fn validate_track_row(fields: &TrackRowFields) -> (r: Result<TrackRow, String>)
    ensures
        match track_row_error(*fields) {
            Some(error) => r matches Err(e) && e@ == error,
            None => r matches Ok(row) && {
                &&& opt_text(fields.id) == Some(row.id@) && opt_text(fields.library_id) == Some(row.library_id@)
                &&& fields.library_order == Some(row.library_order)
                &&& opt_text(fields.imported_at) == Some(row.imported_at@)
                &&& fields.is_favorite == Some(row.is_favorite) && opt_text(fields.title) == Some(row.title@)
                &&& opt_text(fields.display_title) == Some(row.display_title@)
                &&& opt_text(fields.file_name) == Some(row.file_name@) && opt_text(fields.format) == Some(row.format@)
            },
        },
{
    let id = match required_text(&fields.id, "id") {
        Ok(v) => v,
        Err(e) => return Err(e),
    };
    let library_id = match required_text(&fields.library_id, "libraryId") {
        Ok(v) => v,
        Err(e) => return Err(e),
    };
    let library_order = match fields.library_order {
        Some(n) => n,
        None => return Err(to_owned("Missing integer field 'libraryOrder' on desktop track.")),
    };
    let imported_at = match required_text(&fields.imported_at, "importedAt") {
        Ok(v) => v,
        Err(e) => return Err(e),
    };
    let is_favorite = match fields.is_favorite {
        Some(b) => b,
        None => return Err(to_owned("Missing boolean field 'isFavorite' on desktop track.")),
    };
    let title = match required_text(&fields.title, "title") {
        Ok(v) => v,
        Err(e) => return Err(e),
    };
    let display_title = match required_text(&fields.display_title, "displayTitle") {
        Ok(v) => v,
        Err(e) => return Err(e),
    };
    let file_name = match required_text(&fields.file_name, "fileName") {
        Ok(v) => v,
        Err(e) => return Err(e),
    };
    let format = match required_text(&fields.format, "format") {
        Ok(v) => v,
        Err(e) => return Err(e),
    };
    Ok(TrackRow { id, library_id, library_order, imported_at, is_favorite, title, display_title, file_name, format })
}

/// Whether a track's stored artwork is to be deleted: the record has an
/// `artwork` field that is blank (or not text), and the track comes from a
/// WebDAV source.
pub fn should_delete_empty_track_artwork(
    has_artwork_field: bool,
    artwork: Option<&str>,
    source_provider: Option<&str>,
) -> (r: bool)
    ensures
        r == (has_artwork_field && present_seq(
            match artwork {
                Some(a) => Some(a@),
                None => None,
            },
        ) is None && match present_seq(
            match source_provider {
                Some(p) => Some(p@),
                None => None,
            },
        ) {
            Some(p) => crate::text::lower_seq(p) == "webdav"@,
            None => false,
        }),
{
    let text = normalized_optional_text(artwork);
    let provider = normalized_optional_text(source_provider);
    has_artwork_field && text.is_none() && match provider {
        Some(p) => {
            let lower = crate::text::to_ascii_lowercase(p.as_str());
            str_eq(lower.as_str(), "webdav")
        },
        None => false,
    }
}

/// The fields of a stored library or playlist that its ordering reads.
#[derive(Debug, Clone, Default)]
pub struct OrderedEntity {
    pub id: Option<String>,
    pub order: Option<i64>,
    pub created_at: Option<String>,
}

/// What an ordering reads of an entity: its id, order and creation date.
pub type EntityView = (Option<Seq<char>>, Option<i64>, Option<Seq<char>>);

/// What an ordering reads of an entity.
pub open spec fn entity_view(e: OrderedEntity) -> EntityView {
    (opt_text(e.id), e.order, opt_text(e.created_at))
}

/// What an ordering reads of each entity.
pub open spec fn entity_views(entities: Seq<OrderedEntity>) -> Seq<EntityView> {
    entities.map_values(|e: OrderedEntity| entity_view(e))
}

/// A text, empty when absent.
pub open spec fn seq_or_empty(value: Option<Seq<char>>) -> Seq<char> {
    match value {
        Some(v) => v,
        None => seq![],
    }
}

/// `a` sorts before `b`: by order (zero when absent), then creation date,
/// then id.
pub open spec fn entity_lt(a: EntityView, b: EntityView) -> bool {
    let oa = match a.1 {
        Some(o) => o as int,
        None => 0,
    };
    let ob = match b.1 {
        Some(o) => o as int,
        None => 0,
    };
    oa < ob || (oa == ob && (crate::text::text_lt(seq_or_empty(a.2), seq_or_empty(b.2)) || (seq_or_empty(a.2)
        == seq_or_empty(b.2) && crate::text::text_lt(seq_or_empty(a.0), seq_or_empty(b.0)))))
}

proof fn lemma_entity_order(a: EntityView, b: EntityView, c: EntityView)
    ensures
        !entity_lt(a, a),
        entity_lt(a, b) ==> !entity_lt(b, a),
        seq_or_empty(a.0) != seq_or_empty(b.0) ==> entity_lt(a, b) || entity_lt(b, a),
        entity_lt(a, b) && entity_lt(b, c) ==> entity_lt(a, c),
{
    let (ca, cb, cc) = (seq_or_empty(a.2), seq_or_empty(b.2), seq_or_empty(c.2));
    let (ia, ib, ic) = (seq_or_empty(a.0), seq_or_empty(b.0), seq_or_empty(c.0));
    crate::text::lemma_text_lt_order(ca, cb, cc);
    crate::text::lemma_text_lt_order(ia, ib, ic);
    crate::text::lemma_text_lt_order(cb, ca, cc);
    crate::text::lemma_text_lt_order(ib, ia, ic);
}

fn entity_less(a: &OrderedEntity, b: &OrderedEntity) -> (r: bool)
    ensures
        r == entity_lt(entity_view(*a), entity_view(*b)),
{
    let oa: i64 = match a.order {
        Some(o) => o,
        None => 0,
    };
    let ob: i64 = match b.order {
        Some(o) => o,
        None => 0,
    };
    if oa != ob {
        return oa < ob;
    }
    let ca = match &a.created_at {
        Some(c) => c.as_str(),
        None => "",
    };
    let cb = match &b.created_at {
        Some(c) => c.as_str(),
        None => "",
    };
    proof {
        reveal_strlit("");
    }
    assert(ca@ == seq_or_empty(opt_text(a.created_at)));
    assert(cb@ == seq_or_empty(opt_text(b.created_at)));
    if crate::text::text_less(ca, cb) {
        return true;
    }
    if !str_eq(ca, cb) {
        return false;
    }
    let ia = match &a.id {
        Some(i) => i.as_str(),
        None => "",
    };
    let ib = match &b.id {
        Some(i) => i.as_str(),
        None => "",
    };
    assert(ia@ == seq_or_empty(opt_text(a.id)));
    assert(ib@ == seq_or_empty(opt_text(b.id)));
    crate::text::text_less(ia, ib)
}

/// The ids as stored.
pub open spec fn entity_ids(entities: Seq<EntityView>) -> Seq<Option<Seq<char>>> {
    entities.map_values(|e: EntityView| e.0)
}

/// The entities a reorder places first: the requested ids, each once, that
/// some entity has.
pub open spec fn placed_entities(entities: Seq<EntityView>, ordered: Seq<Seq<char>>) -> Seq<Seq<char>> {
    crate::playlist_ops::placed_tracks(entity_ids(entities), ordered)
}

/// Entity `i` is the one kept for its id (the last with that id), and its
/// id was not placed: it goes among the rest.
pub open spec fn in_rest(entities: Seq<EntityView>, placed: Seq<Seq<char>>, i: int) -> bool {
    &&& 0 <= i < entities.len()
    &&& crate::playlist_ops::last_index(entity_ids(entities), seq_or_empty(entities[i].0)) == Some(i)
    &&& !placed.contains(seq_or_empty(entities[i].0))
}

/// The new order of entities, by index: the requested ones first, then the
/// rest by order, creation date and id.
pub open spec fn is_entity_reorder(result: Seq<int>, entities: Seq<EntityView>, ordered: Seq<Seq<char>>) -> bool {
    let placed = placed_entities(entities, ordered);
    let head = placed.map_values(|t: Seq<char>| crate::playlist_ops::last_index(entity_ids(entities), t)->Some_0);
    &&& result.len() >= head.len()
    &&& result.take(head.len() as int) == head
    &&& forall|k: int| 0 <= k < result.len() ==> 0 <= #[trigger] result[k] < entities.len()
    &&& forall|a: int, b: int|
        head.len() <= a < b < result.len() ==> entity_lt(entities[#[trigger] result[a]], entities[#[trigger] result[b]])
    &&& forall|i: int| in_rest(entities, placed, i) <==> exists|k: int| head.len() <= k < result.len() && #[trigger] result[k] == i
}

/// Every entity has an id.
pub open spec fn all_ids_present(entities: Seq<EntityView>) -> bool {
    forall|i: int| 0 <= i < entities.len() ==> (#[trigger] entities[i]).0 is Some
}

/// The error of an entity without an id.
pub open spec fn missing_id_error(label: Seq<char>) -> Seq<char> {
    "Missing string field 'id' on "@ + label + "."@
}

/// The new order of libraries (or of a library's user playlists), by
/// index, after a reorder to `ordered_ids` (see `is_entity_reorder`). An
/// entity without an id fails the reorder; `label` names it.
pub fn reorder_entities(entities: &Vec<OrderedEntity>, ordered_ids: &Vec<String>, label: &str) -> (r: Result<
    Vec<usize>,
    String,
>)
    ensures
        all_ids_present(entity_views(entities@)) ==> (r matches Ok(v)
            && is_entity_reorder(v@.map_values(|k: usize| k as int), entity_views(entities@), crate::text::texts(ordered_ids@))),
        !all_ids_present(entity_views(entities@)) ==> (r matches Err(e) && e@ == missing_id_error(label@)),
{
    let mut c: usize = 0;
    while c < entities.len()
        invariant
            c <= entities@.len(),
            forall|k: int| 0 <= k < c ==> (#[trigger] entities@[k]).id is Some,
        decreases entities@.len() - c,
    {
        if entities[c].id.is_none() {
            assert(entity_views(entities@)[c as int].0 is None);
            let a = concat("Missing string field 'id' on ", label);
            return Err(concat(a.as_str(), "."));
        }
        c += 1;
    }
    assert forall|k: int| 0 <= k < entities@.len() implies (#[trigger] entity_views(entities@)[k]).0 is Some by {
        assert(entities@[k].id is Some);
    }
    let ghost ev = entity_views(entities@);
    let ghost ids = entity_ids(ev);
    let mut id_list: Vec<Option<String>> = Vec::new();
    let mut m: usize = 0;
    while m < entities.len()
        invariant
            m <= entities@.len(),
            ids == entity_ids(ev),
            ev == entity_views(entities@),
            crate::playlist_ops::opt_texts(id_list@) == ids.take(m as int),
        decreases entities@.len() - m,
    {
        let ghost before = id_list@;
        id_list.push(entities[m].id.clone());
        assert(crate::playlist_ops::opt_texts(id_list@) =~= crate::playlist_ops::opt_texts(before).push(
            opt_text(entities@[m as int].id),
        ));
        assert(ids.take(m + 1) =~= ids.take(m as int).push(ids[m as int]));
        m += 1;
    }
    assert(ids.take(entities@.len() as int) =~= ids);
    let (placed, head_vec) = crate::playlist_ops::placed_last_indices(&id_list, ordered_ids);
    let ghost placed_view = crate::text::texts(placed@);
    let ghost head = head_vec@.map_values(|k: usize| k as int);
    let mut rest: Vec<usize> = Vec::new();
    let mut i: usize = 0;
    while i < entities.len()
        invariant
            i <= entities@.len(),
            ids == entity_ids(ev),
            ev == entity_views(entities@),
            crate::playlist_ops::opt_texts(id_list@) == ids,
            placed_view == crate::text::texts(placed@),
            forall|k: int| 0 <= k < entities@.len() ==> (#[trigger] entities@[k]).id is Some,
            forall|k: int| 0 <= k < rest@.len() ==> 0 <= #[trigger] rest@[k] < i,
            forall|k: int| 0 <= k < rest@.len() ==> in_rest(ev, placed_view, #[trigger] rest@[k] as int),
            forall|a: int, b: int|
                0 <= a < b < rest@.len() ==> entity_lt(ev[#[trigger] rest@[a] as int], ev[#[trigger] rest@[b] as int]),
            forall|x: int|
                (in_rest(ev, placed_view, x) && x < i) ==> exists|k: int| 0 <= k < rest@.len() && #[trigger] rest@[k] == x,
        decreases entities@.len() - i,
    {
        let id = match &entities[i].id {
            Some(t) => t.as_str(),
            None => "",
        };
        assert(id@ == seq_or_empty(ev[i as int].0));
        assert(ids[i as int] == opt_text(entities@[i as int].id));
        let last = crate::playlist_ops::find_last(&id_list, id);
        let keep = match last {
            Some(k) => k == i && !crate::text::contains_text(&placed, id),
            None => false,
        };
        assert(keep == in_rest(ev, placed_view, i as int));
        if keep {
            let ghost before = rest@;
            assert forall|k: int| 0 <= k < before.len() implies seq_or_empty(ev[#[trigger] before[k] as int].0)
                != seq_or_empty(ev[i as int].0) by {
                assert(in_rest(ev, placed_view, before[k] as int));
            }
            let mut p: usize = 0;
            while p < rest.len() && !entity_less(&entities[i], &entities[rest[p]])
                invariant
                    p <= rest@.len(),
                    i < entities@.len(),
                    ev == entity_views(entities@),
                    rest@ == before,
                    forall|k: int| 0 <= k < rest@.len() ==> 0 <= #[trigger] rest@[k] < entities@.len(),
                    forall|k: int| 0 <= k < p ==> !entity_lt(ev[i as int], ev[#[trigger] rest@[k] as int]),
                decreases rest@.len() - p,
            {
                p += 1;
            }
            rest.insert(p, i);
            let ghost after = rest@;
            assert(after =~= before.insert(p as int, i));
            assert forall|a: int, b: int| 0 <= a < b < after.len() implies entity_lt(
                ev[#[trigger] after[a] as int],
                ev[#[trigger] after[b] as int],
            ) by {
                let ei = ev[i as int];
                if b < p {
                    assert(after[a] == before[a] && after[b] == before[b]);
                } else if b == p {
                    assert(after[a] == before[a]);
                    lemma_entity_order(ev[before[a] as int], ei, ei);
                    lemma_entity_order(ei, ev[before[a] as int], ei);
                } else if a < p {
                    assert(after[a] == before[a] && after[b] == before[b - 1]);
                } else if a == p {
                    assert(after[b] == before[b - 1]);
                    let ep = ev[before[p as int] as int];
                    let eb = ev[before[b - 1] as int];
                    lemma_entity_order(ei, ep, eb);
                } else {
                    assert(after[a] == before[a - 1] && after[b] == before[b - 1]);
                }
            }
            assert forall|k: int| 0 <= k < after.len() implies 0 <= #[trigger] after[k] < i + 1 by {
                if k < p {
                    assert(after[k] == before[k]);
                } else if k > p {
                    assert(after[k] == before[k - 1]);
                }
            }
            assert forall|k: int| 0 <= k < after.len() implies in_rest(ev, placed_view, #[trigger] after[k] as int) by {
                if k < p {
                    assert(after[k] == before[k]);
                } else if k > p {
                    assert(after[k] == before[k - 1]);
                }
            }
            assert forall|x: int| (in_rest(ev, placed_view, x) && x < i + 1) implies exists|k: int|
                0 <= k < after.len() && #[trigger] after[k] == x by {
                if x == i {
                    assert(after[p as int] == x);
                } else {
                    let k = choose|k: int| 0 <= k < before.len() && #[trigger] before[k] == x;
                    if k < p {
                        assert(after[k] == x);
                    } else {
                        assert(after[k + 1] == x);
                    }
                }
            }
        }
        i += 1;
    }
    let ghost rest_view = rest@;
    let mut result = head_vec;
    let ghost head_exec = result@;
    let mut q: usize = 0;
    while q < rest.len()
        invariant
            q <= rest@.len(),
            rest@ == rest_view,
            result@ == head_exec + rest_view.take(q as int),
        decreases rest@.len() - q,
    {
        result.push(rest[q]);
        assert(rest_view.take(q + 1) =~= rest_view.take(q as int).push(rest_view[q as int]));
        q += 1;
    }
    assert(rest_view.take(rest_view.len() as int) =~= rest_view);
    let ghost rv = result@.map_values(|k: usize| k as int);
    assert(head_exec.map_values(|k: usize| k as int) == head);
    proof {
        crate::playlist_ops::lemma_placed_have_relations(ids, crate::text::texts(ordered_ids@));
    }
    assert forall|k: int| 0 <= k < rv.len() implies 0 <= #[trigger] rv[k] < entities@.len() by {
        if k < head.len() {
            let t = placed_view[k];
            assert(head[k] == crate::playlist_ops::last_index(ids, t)->Some_0);
            crate::playlist_ops::lemma_last_index(ids, t);
            assert(rv[k] == head[k]);
        } else {
            assert(rv[k] == rest_view[k - head.len()] as int);
            assert(in_rest(ev, placed_view, rest_view[k - head.len()] as int));
        }
    }
    assert(rv.take(head.len() as int) =~= head);
    assert forall|a: int, b: int| head.len() <= a < b < rv.len() implies entity_lt(
        ev[#[trigger] rv[a]],
        ev[#[trigger] rv[b]],
    ) by {
        assert(rv[a] == rest_view[a - head.len()] as int);
        assert(rv[b] == rest_view[b - head.len()] as int);
    }
    assert forall|x: int| in_rest(ev, placed_view, x) <==> exists|k: int|
        head.len() <= k < rv.len() && #[trigger] rv[k] == x by {
        if in_rest(ev, placed_view, x) {
            let k = choose|k: int| 0 <= k < rest_view.len() && #[trigger] rest_view[k] == x;
            assert(rv[k + head.len()] == x);
        }
        if exists|k: int| head.len() <= k < rv.len() && #[trigger] rv[k] == x {
            let k = choose|k: int| head.len() <= k < rv.len() && #[trigger] rv[k] == x;
            assert(rest_view[k - head.len()] == x);
        }
    }
    Ok(result)
}

fn copy_text(value: &Option<String>) -> (r: Option<String>)
    ensures
        opt_text(r) == opt_text(*value),
{
    match value {
        Some(v) => Some(v.clone()),
        None => None,
    }
}

fn copy_entity(e: &OrderedEntity) -> (r: OrderedEntity)
    ensures
        entity_view(r) == entity_view(*e),
{
    OrderedEntity { id: copy_text(&e.id), order: e.order, created_at: copy_text(&e.created_at) }
}

/// The indices of the playlists of kind `system` (`system` is true) or of
/// any other kind, in order.
pub open spec fn kind_indices(kinds: Seq<Option<String>>, system: bool) -> Seq<int>
    decreases kinds.len(),
{
    if kinds.len() == 0 {
        seq![]
    } else {
        let before = kind_indices(kinds.drop_last(), system);
        if (opt_text(kinds.last()) == Some("system"@)) == system {
            before.push(kinds.len() - 1)
        } else {
            before
        }
    }
}

proof fn lemma_kind_indices_bounded(kinds: Seq<Option<String>>, system: bool)
    ensures
        forall|k: int| 0 <= k < kind_indices(kinds, system).len() ==> 0 <= #[trigger] kind_indices(kinds, system)[k] < kinds.len(),
    decreases kinds.len(),
{
    if kinds.len() > 0 {
        lemma_kind_indices_bounded(kinds.drop_last(), system);
        let b = kind_indices(kinds.drop_last(), system);
        assert forall|k: int| 0 <= k < kind_indices(kinds, system).len() implies 0 <= #[trigger] kind_indices(kinds, system)[k] < kinds.len() by {
            if k < b.len() {
                assert(kind_indices(kinds, system)[k] == b[k]);
            }
        }
    }
}

/// The new order of a library's playlists, by index: its system playlists
/// as they are, then its user playlists reordered to `ordered_ids` (see
/// `reorder_entities`). A user playlist without an id fails the reorder.
pub fn reorder_library_playlists(
    kinds: &Vec<Option<String>>,
    entities: &Vec<OrderedEntity>,
    ordered_ids: &Vec<String>,
) -> (r: Result<Vec<usize>, String>)
    requires
        kinds@.len() == entities@.len(),
    ensures
        ({
            let users = kind_indices(kinds@, false);
            let user_entities = users.map_values(|i: int| entity_view(entities@[i]));
            if all_ids_present(user_entities) {
                r matches Ok(v) && exists|w: Seq<int>|
                    is_entity_reorder(w, user_entities, crate::text::texts(ordered_ids@)) && v@.map_values(
                        |k: usize| k as int,
                    ) == kind_indices(kinds@, true) + w.map_values(|k: int| users[k])
            } else {
                r matches Err(e) && e@ == missing_id_error("desktop playlist"@)
            }
        }),
{
    proof {
        reveal_strlit("system");
        lemma_kind_indices_bounded(kinds@, false);
    }
    let mut system: Vec<usize> = Vec::new();
    let mut users: Vec<usize> = Vec::new();
    let mut user_entities: Vec<OrderedEntity> = Vec::new();
    let mut i: usize = 0;
    while i < kinds.len()
        invariant
            i <= kinds@.len(),
            kinds@.len() == entities@.len(),
            system@.map_values(|k: usize| k as int) == kind_indices(kinds@.take(i as int), true),
            users@.map_values(|k: usize| k as int) == kind_indices(kinds@.take(i as int), false),
            user_entities@.len() == users@.len(),
            forall|k: int| 0 <= k < users@.len() ==> entity_view(#[trigger] user_entities@[k]) == entity_view(entities@[users@[k] as int]),
        decreases kinds@.len() - i,
    {
        assert(kinds@.take(i + 1).drop_last() =~= kinds@.take(i as int));
        assert(kinds@.take(i + 1).last() == kinds@[i as int]);
        let is_system = match &kinds[i] {
            Some(k) => str_eq(k.as_str(), "system"),
            None => false,
        };
        if is_system {
            let ghost before = system@;
            system.push(i);
            assert(system@.map_values(|k: usize| k as int) =~= before.map_values(|k: usize| k as int).push(i as int));
        } else {
            let ghost before = users@;
            users.push(i);
            user_entities.push(copy_entity(&entities[i]));
            assert(users@.map_values(|k: usize| k as int) =~= before.map_values(|k: usize| k as int).push(i as int));
        }
        i += 1;
    }
    assert(kinds@.take(kinds@.len() as int) =~= kinds@);
    let ghost uv = kind_indices(kinds@, false);
    let ghost ue = uv.map_values(|i: int| entity_view(entities@[i]));
    assert(users@.map_values(|k: usize| k as int) == uv);
    assert forall|k: int| 0 <= k < ue.len() implies entity_views(user_entities@)[k] == #[trigger] ue[k] by {
        assert(users@[k] as int == uv[k]);
    }
    assert(entity_views(user_entities@) =~= ue);
    let order = match reorder_entities(&user_entities, ordered_ids, "desktop playlist") {
        Ok(v) => v,
        Err(e) => {
            proof {
                reveal_strlit("desktop playlist");
            }
            return Err(e);
        },
    };
    let ghost w = order@.map_values(|k: usize| k as int);
    assert(is_entity_reorder(w, ue, crate::text::texts(ordered_ids@)));
    assert forall|k: int| 0 <= k < order@.len() implies #[trigger] order@[k] < users@.len() by {
        assert(w[k] == order@[k] as int);
        assert(0 <= w[k] < ue.len());
    }
    let mut result = system;
    let ghost sys = result@;
    let mut q: usize = 0;
    while q < order.len()
        invariant
            q <= order@.len(),
            users@.map_values(|k: usize| k as int) == uv,
            w == order@.map_values(|k: usize| k as int),
            forall|k: int| 0 <= k < order@.len() ==> #[trigger] order@[k] < users@.len(),
            result@.map_values(|k: usize| k as int) == sys.map_values(|k: usize| k as int) + w.take(q as int).map_values(
                |k: int| uv[k],
            ),
        decreases order@.len() - q,
    {
        let ghost before = result@;
        result.push(users[order[q]]);
        assert(w.take(q + 1) =~= w.take(q as int).push(w[q as int]));
        assert(result@.map_values(|k: usize| k as int) =~= before.map_values(|k: usize| k as int).push(uv[w[q as int]]));
        q += 1;
    }
    assert(w.take(w.len() as int) =~= w);
    Ok(result)
}

/// The new order of the libraries, by index, after a reorder to
/// `ordered_library_ids`.
pub fn reorder_libraries(entities: &Vec<OrderedEntity>, ordered_library_ids: &Vec<String>) -> (r: Result<
    Vec<usize>,
    String,
>)
    ensures
        all_ids_present(entity_views(entities@)) ==> (r matches Ok(v) && is_entity_reorder(
            v@.map_values(|k: usize| k as int),
            entity_views(entities@),
            crate::text::texts(ordered_library_ids@),
        )),
        !all_ids_present(entity_views(entities@)) ==> (r matches Err(e) && e@ == missing_id_error("desktop library"@)),
{
    proof {
        reveal_strlit("desktop library");
    }
    reorder_entities(entities, ordered_library_ids, "desktop library")
}

pub const DEFAULT_LIBRARY_DELETE_ERROR: &'static str = "Default library cannot be deleted.";

/// The default library (by flag or by id) cannot be deleted; a library
/// without an id fails the check.
pub fn assert_library_can_be_deleted(library_id: Option<&str>, is_default: Option<bool>) -> (r: Result<(), String>)
    ensures
        match library_id {
            None => r matches Err(e) && e@ == MISSING_LIBRARY_ID_ERROR@,
            Some(id) => if is_default == Some(true) || id@ == DEFAULT_LIBRARY_ID@ {
                r matches Err(e) && e@ == DEFAULT_LIBRARY_DELETE_ERROR@
            } else {
                r is Ok
            },
        },
{
    let id = match library_id {
        Some(id) => id,
        None => return Err(to_owned(MISSING_LIBRARY_ID_ERROR)),
    };
    let flagged = match is_default {
        Some(b) => b,
        None => false,
    };
    if flagged || str_eq(id, DEFAULT_LIBRARY_ID) {
        Err(to_owned(DEFAULT_LIBRARY_DELETE_ERROR))
    } else {
        Ok(())
    }
}

/// `count` placeholders, separated by commas.
pub open spec fn placeholders(count: nat) -> Seq<char>
    decreases count,
{
    if count == 0 {
        seq![]
    } else if count == 1 {
        "?"@
    } else {
        placeholders((count - 1) as nat) + ", ?"@
    }
}

fn placeholder_list(count: usize) -> (r: String)
    ensures
        r@ == placeholders(count as nat),
{
    proof {
        reveal_strlit("?");
        reveal_strlit(", ?");
    }
    let mut out = String::new();
    let mut i: usize = 0;
    while i < count
        invariant
            i <= count,
            out@ == placeholders(i as nat),
        decreases count - i,
    {
        out = if i == 0 {
            to_owned("?")
        } else {
            concat(out.as_str(), ", ?")
        };
        i += 1;
    }
    out
}

/// The query for the relations of a library's playlists and tracks:
/// `playlist_id IN (..)` and `track_id IN (..)` with one placeholder per id,
/// joined by `OR`; none when there are no ids.
pub open spec fn library_relation_query(playlist_count: nat, track_count: nat) -> Option<Seq<char>> {
    let playlists = "playlist_id IN ("@ + placeholders(playlist_count) + ")"@;
    let tracks = "track_id IN ("@ + placeholders(track_count) + ")"@;
    let prefix = "SELECT id FROM playlist_track_relations WHERE "@;
    if playlist_count == 0 && track_count == 0 {
        None
    } else if track_count == 0 {
        Some(prefix + playlists)
    } else if playlist_count == 0 {
        Some(prefix + tracks)
    } else {
        Some(prefix + playlists + " OR "@ + tracks)
    }
}

/// The query for the relations of a library being deleted (its parameters
/// are the playlist ids, then the track ids).
pub fn relation_query_for_library_delete(playlist_count: usize, track_count: usize) -> (r: Option<String>)
    ensures
        opt_text(r) == library_relation_query(playlist_count as nat, track_count as nat),
{
    if playlist_count == 0 && track_count == 0 {
        return None;
    }
    let a = concat("playlist_id IN (", placeholder_list(playlist_count).as_str());
    let playlists = concat(a.as_str(), ")");
    let b = concat("track_id IN (", placeholder_list(track_count).as_str());
    let tracks = concat(b.as_str(), ")");
    let prefix = "SELECT id FROM playlist_track_relations WHERE ";
    let sql = if track_count == 0 {
        concat(prefix, playlists.as_str())
    } else if playlist_count == 0 {
        concat(prefix, tracks.as_str())
    } else {
        let c = concat(prefix, playlists.as_str());
        let d = concat(c.as_str(), " OR ");
        concat(d.as_str(), tracks.as_str())
    };
    Some(sql)
}

} // verus!
