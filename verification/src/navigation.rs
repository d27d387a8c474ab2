//! Navigation between libraries and collections: which library and
//! collection are active, and the counts shown beside each of them.
use vstd::prelude::*;
use crate::desktop_types::{NavigationQueryDiagnostics, NavigationQueryRequest, NavigationQueryResult};
use crate::text::{
    concat, contains_text, has_prefix, push_char, str_eq, starts_with, texts, to_owned, trim,
    trim_seq, chars_of, string_from_range,
};

verus! {

pub const PLAYLIST_COLLECTION_PREFIX: &'static str = "playlist:";
pub const VIEW_COLLECTION_PREFIX: &'static str = "view:";
pub const SYSTEM_PLAYLIST_ALL_TRACKS_KEY: &'static str = "all-tracks";
pub const SMART_VIEW_RECENT_IMPORTS: &'static str = "recent-imports";
pub const SMART_VIEW_RECENTLY_PLAYED: &'static str = "all-plays";
pub const SMART_VIEW_FAVORITES: &'static str = "all-favorites";
pub const SMART_VIEW_CURRENT_QUEUE: &'static str = "current-queue";
pub const SMART_VIEW_ALBUMS: &'static str = "albums";
pub const SMART_VIEW_ARTISTS: &'static str = "artists";

/// A playlist of the active library: its id and, for system playlists,
/// their key.
#[derive(Debug, Clone)]
pub struct PlaylistHeader {
    pub id: String,
    pub system_key: Option<String>,
}

/// What a collection reference names.
#[derive(Debug, Clone)]
pub enum CollectionRefKind {
    Playlist(String),
    View(String),
    Invalid,
}

/// The smart views.
pub open spec fn smart_view_keys() -> Seq<Seq<char>> {
    seq![
        SMART_VIEW_RECENT_IMPORTS@,
        SMART_VIEW_RECENTLY_PLAYED@,
        SMART_VIEW_FAVORITES@,
        SMART_VIEW_CURRENT_QUEUE@,
        SMART_VIEW_ALBUMS@,
        SMART_VIEW_ARTISTS@,
    ]
}

/// What `collection_ref` names: `playlist:<id>` or `view:<key>` with a
/// non-blank rest, else nothing valid.
pub open spec fn collection_ref_kind(collection_ref: Seq<char>) -> (int, Seq<char>) {
    if has_prefix(collection_ref, PLAYLIST_COLLECTION_PREFIX@) && trim_seq(
        collection_ref.skip(9),
    ).len() > 0 {
        (0, collection_ref.skip(9))
    } else if has_prefix(collection_ref, VIEW_COLLECTION_PREFIX@) && trim_seq(
        collection_ref.skip(5),
    ).len() > 0 {
        (1, collection_ref.skip(5))
    } else {
        (2, seq![])
    }
}

/// The kind in the shape of `collection_ref_kind`.
pub open spec fn kind_matches(kind: CollectionRefKind, expected: (int, Seq<char>)) -> bool {
    match kind {
        CollectionRefKind::Playlist(id) => expected.0 == 0 && id@ == expected.1,
        CollectionRefKind::View(key) => expected.0 == 1 && key@ == expected.1,
        CollectionRefKind::Invalid => expected.0 == 2,
    }
}

/// What a collection reference names.
pub fn parse_collection_ref(collection_ref: &str) -> (r: CollectionRefKind)
    ensures
        kind_matches(r, collection_ref_kind(collection_ref@)),
{
    proof {
        reveal_strlit("playlist:");
        reveal_strlit("view:");
    }
    let v = chars_of(collection_ref);
    if starts_with(collection_ref, PLAYLIST_COLLECTION_PREFIX) {
        let rest = string_from_range(&v, 9, v.len());
        assert(rest@ == collection_ref@.skip(9));
        let t = trim(rest.as_str());
        if !t.as_str().is_empty() {
            return CollectionRefKind::Playlist(rest);
        }
    }
    if starts_with(collection_ref, VIEW_COLLECTION_PREFIX) {
        let rest = string_from_range(&v, 5, v.len());
        assert(rest@ == collection_ref@.skip(5));
        let t = trim(rest.as_str());
        if !t.as_str().is_empty() {
            return CollectionRefKind::View(rest);
        }
    }
    CollectionRefKind::Invalid
}

/// Whether `view_key` names one of the smart views.
pub fn is_known_smart_view_key(view_key: &str) -> (r: bool)
    ensures
        r == smart_view_keys().contains(view_key@),
{
    let keys: [&str; 6] = [
        SMART_VIEW_RECENT_IMPORTS,
        SMART_VIEW_RECENTLY_PLAYED,
        SMART_VIEW_FAVORITES,
        SMART_VIEW_CURRENT_QUEUE,
        SMART_VIEW_ALBUMS,
        SMART_VIEW_ARTISTS,
    ];
    let r = crate::text::str_in(view_key, &keys);
    proof {
        assert(keys@.map_values(|k: &str| k@) =~= smart_view_keys());
        if r {
            let i = choose|i: int| 0 <= i < keys@.len() && keys@[i]@ == view_key@;
            assert(smart_view_keys()[i] == view_key@);
        }
        if smart_view_keys().contains(view_key@) {
            let i = choose|i: int| 0 <= i < smart_view_keys().len() && smart_view_keys()[i] == view_key@;
            assert(keys@[i]@ == view_key@);
        }
    }
    r
}

/// The active library: the preferred one when it exists, else the first.
pub open spec fn active_library_id(libraries: Seq<Seq<char>>, preferred: Option<Seq<char>>) -> Option<
    Seq<char>,
> {
    match preferred {
        Some(p) if libraries.contains(p) => Some(p),
        _ => if libraries.len() > 0 {
            Some(libraries[0])
        } else {
            None
        },
    }
}

/// The active library among `libraries` (in their order).
pub fn resolve_active_library_id(libraries: &Vec<String>, preferred_library_id: Option<&str>) -> (r:
    Option<String>)
    ensures
        crate::text::opt_text(r) == active_library_id(
            texts(libraries@),
            match preferred_library_id {
                Some(p) => Some(p@),
                None => None,
            },
        ),
{
    if let Some(p) = preferred_library_id {
        if contains_text(libraries, p) {
            return Some(to_owned(p));
        }
    }
    if libraries.len() > 0 {
        assert(texts(libraries@)[0] == libraries@[0]@);
        Some(libraries[0].clone())
    } else {
        None
    }
}

/// The index of the first playlist that is the library's all-tracks
/// playlist.
pub open spec fn all_tracks_playlist(playlists: Seq<PlaylistHeader>) -> Option<int> {
    if exists|i: int|
        0 <= i < playlists.len() && crate::text::opt_text(playlists[i].system_key) == Some(
            SYSTEM_PLAYLIST_ALL_TRACKS_KEY@,
        ) && forall|j: int|
            0 <= j < i ==> crate::text::opt_text(playlists[j].system_key) != Some(
                SYSTEM_PLAYLIST_ALL_TRACKS_KEY@,
            ) {
        Some(
            choose|i: int|
                0 <= i < playlists.len() && crate::text::opt_text(playlists[i].system_key) == Some(
                    SYSTEM_PLAYLIST_ALL_TRACKS_KEY@,
                ) && forall|j: int|
                    0 <= j < i ==> crate::text::opt_text(playlists[j].system_key) != Some(
                        SYSTEM_PLAYLIST_ALL_TRACKS_KEY@,
                    ),
        )
    } else {
        None
    }
}

/// The collection opened by default: the all-tracks playlist, else the first
/// playlist, else the recent imports view.
pub open spec fn default_collection_key(playlists: Seq<PlaylistHeader>) -> Seq<char> {
    match all_tracks_playlist(playlists) {
        Some(i) => PLAYLIST_COLLECTION_PREFIX@ + playlists[i].id@,
        None => if playlists.len() > 0 {
            PLAYLIST_COLLECTION_PREFIX@ + playlists[0].id@
        } else {
            VIEW_COLLECTION_PREFIX@ + SMART_VIEW_RECENT_IMPORTS@
        },
    }
}

fn is_all_tracks(p: &PlaylistHeader) -> (r: bool)
    ensures
        r == (crate::text::opt_text(p.system_key) == Some(SYSTEM_PLAYLIST_ALL_TRACKS_KEY@)),
{
    match &p.system_key {
        Some(k) => str_eq(k.as_str(), SYSTEM_PLAYLIST_ALL_TRACKS_KEY),
        None => false,
    }
}

/// The collection opened by default (always present).
pub fn resolve_default_collection_key(playlists: &Vec<PlaylistHeader>) -> (r: Option<String>)
    ensures
        r is Some,
        r->0@ == default_collection_key(playlists@),
{
    let mut i: usize = 0;
    while i < playlists.len()
        invariant
            i <= playlists@.len(),
            forall|j: int|
                0 <= j < i ==> crate::text::opt_text(playlists@[j].system_key) != Some(
                    SYSTEM_PLAYLIST_ALL_TRACKS_KEY@,
                ),
        decreases playlists@.len() - i,
    {
        if is_all_tracks(&playlists[i]) {
            proof {
                let c = choose|c: int|
                    0 <= c < playlists@.len() && crate::text::opt_text(playlists@[c].system_key)
                        == Some(SYSTEM_PLAYLIST_ALL_TRACKS_KEY@) && forall|j: int|
                        0 <= j < c ==> crate::text::opt_text(playlists@[j].system_key) != Some(
                            SYSTEM_PLAYLIST_ALL_TRACKS_KEY@,
                        );
                if c < i {
                } else if c > i {
                    assert(crate::text::opt_text(playlists@[i as int].system_key) != Some(
                        SYSTEM_PLAYLIST_ALL_TRACKS_KEY@,
                    ));
                }
            }
            return Some(concat(PLAYLIST_COLLECTION_PREFIX, playlists[i].id.as_str()));
        }
        i += 1;
    }
    if playlists.len() > 0 {
        Some(concat(PLAYLIST_COLLECTION_PREFIX, playlists[0].id.as_str()))
    } else {
        Some(concat(VIEW_COLLECTION_PREFIX, SMART_VIEW_RECENT_IMPORTS))
    }
}

/// Whether one of `playlists` has id `id`.
pub open spec fn has_playlist(playlists: Seq<PlaylistHeader>, id: Seq<char>) -> bool {
    exists|i: int| 0 <= i < playlists.len() && playlists[i].id@ == id
}

/// The active collection: the preferred reference when it names a playlist
/// of the library or a smart view, else the default.
pub open spec fn active_collection_key(
    preferred: Option<Seq<char>>,
    playlists: Seq<PlaylistHeader>,
    default_key: Option<Seq<char>>,
) -> Option<Seq<char>> {
    match preferred {
        Some(p) => {
            let k = collection_ref_kind(p);
            if (k.0 == 0 && has_playlist(playlists, k.1)) || (k.0 == 1
                && smart_view_keys().contains(k.1)) {
                Some(p)
            } else {
                default_key
            }
        },
        None => default_key,
    }
}

fn playlist_exists(playlists: &Vec<PlaylistHeader>, id: &str) -> (r: bool)
    ensures
        r == has_playlist(playlists@, id@),
{
    let mut i: usize = 0;
    while i < playlists.len()
        invariant
            i <= playlists@.len(),
            forall|j: int| 0 <= j < i ==> playlists@[j].id@ != id@,
        decreases playlists@.len() - i,
    {
        if str_eq(playlists[i].id.as_str(), id) {
            return true;
        }
        i += 1;
    }
    false
}

/// The active collection.
pub fn resolve_active_collection_key(
    preferred_collection_ref: Option<&str>,
    playlists: &Vec<PlaylistHeader>,
    default_collection_key: Option<&str>,
) -> (r: Option<String>)
    ensures
        crate::text::opt_text(r) == active_collection_key(
            match preferred_collection_ref {
                Some(p) => Some(p@),
                None => None,
            },
            playlists@,
            match default_collection_key {
                Some(d) => Some(d@),
                None => None,
            },
        ),
{
    if let Some(p) = preferred_collection_ref {
        let accepted = match parse_collection_ref(p) {
            CollectionRefKind::Playlist(id) => playlist_exists(playlists, id.as_str()),
            CollectionRefKind::View(key) => is_known_smart_view_key(key.as_str()),
            CollectionRefKind::Invalid => false,
        };
        if accepted {
            return Some(to_owned(p));
        }
    }
    match default_collection_key {
        Some(d) => Some(to_owned(d)),
        None => None,
    }
}

/// The ids of `track_ids` that are valid, each once, in order.
pub open spec fn unique_existing(track_ids: Seq<Seq<char>>, valid: Seq<Seq<char>>) -> Seq<Seq<char>>
    decreases track_ids.len(),
{
    if track_ids.len() == 0 {
        seq![]
    } else {
        let before = unique_existing(track_ids.drop_last(), valid);
        let t = track_ids.last();
        if !valid.contains(t) || before.contains(t) {
            before
        } else {
            before.push(t)
        }
    }
}

/// The ids of `track_ids` that are among `valid_track_ids`, each once, in
/// their first order.
pub fn unique_existing_track_ids(track_ids: &[String], valid_track_ids: &Vec<String>) -> (r: Vec<
    String,
>)
    ensures
        texts(r@) == unique_existing(texts(track_ids@), texts(valid_track_ids@)),
{
    let mut out: Vec<String> = Vec::new();
    let mut i: usize = 0;
    while i < track_ids.len()
        invariant
            i <= track_ids@.len(),
            texts(out@) == unique_existing(texts(track_ids@.take(i as int)), texts(valid_track_ids@)),
        decreases track_ids@.len() - i,
    {
        let t = track_ids[i].as_str();
        assert(texts(track_ids@.take(i + 1)).drop_last() =~= texts(track_ids@.take(i as int)));
        assert(texts(track_ids@.take(i + 1)).last() == track_ids@[i as int]@);
        if contains_text(valid_track_ids, t) && !contains_text(&out, t) {
            let ghost before = out@;
            out.push(to_owned(t));
            assert(texts(out@) =~= texts(before).push(t@));
        }
        i += 1;
    }
    assert(track_ids@.take(track_ids@.len() as int) =~= track_ids@);
    out
}

/// `value` with `\`, `%` and `_` escaped by a backslash, for a SQL `LIKE`
/// pattern.
pub open spec fn sql_like_escaped(value: Seq<char>) -> Seq<char>
    decreases value.len(),
{
    if value.len() == 0 {
        seq![]
    } else {
        let c = value.last();
        let before = sql_like_escaped(value.drop_last());
        if c == '\\' || c == '%' || c == '_' {
            before.push('\\').push(c)
        } else {
            before.push(c)
        }
    }
}

/// `value` escaped for a SQL `LIKE` pattern.
pub fn escape_sql_like(value: &str) -> (r: String)
    ensures
        r@ == sql_like_escaped(value@),
{
    let v = chars_of(value);
    let mut out = String::new();
    let mut i: usize = 0;
    while i < v.len()
        invariant
            i <= v.len(),
            v@ == value@,
            out@ == sql_like_escaped(v@.take(i as int)),
        decreases v.len() - i,
    {
        let c = v[i];
        assert(v@.take(i + 1).drop_last() =~= v@.take(i as int));
        if c == '\\' || c == '%' || c == '_' {
            push_char(&mut out, '\\');
        }
        push_char(&mut out, c);
        i += 1;
    }
    assert(v@.take(v.len() as int) =~= v@);
    out
}

/// What the navigation summary needs to know of the active library.
#[derive(Debug, Clone)]
pub struct ActiveLibraryNavigationData {
    pub library_track_ids: Vec<String>,
    pub recent_import_count: usize,
    pub favorite_count: usize,
    pub recently_played_count: usize,
    pub queue_track_ids: Vec<String>,
    pub album_group_count: usize,
    pub artist_group_count: usize,
    pub playlists: Vec<PlaylistHeader>,
    pub playlist_track_ids: Vec<Vec<String>>,
}

/// The count shown beside playlist `i`: every library track for the
/// all-tracks playlist, else its distinct tracks that are in the library.
pub open spec fn playlist_count(data: ActiveLibraryNavigationData, i: int) -> nat {
    if crate::text::opt_text(data.playlists@[i].system_key) == Some(SYSTEM_PLAYLIST_ALL_TRACKS_KEY@) {
        data.library_track_ids@.len()
    } else if 0 <= i < data.playlist_track_ids@.len() {
        unique_existing(texts(data.playlist_track_ids@[i]@), texts(data.library_track_ids@)).len()
    } else {
        0
    }
}

/// The smart collection counts, in the order of `smart_view_keys`.
pub open spec fn smart_counts(data: ActiveLibraryNavigationData) -> Seq<nat> {
    seq![
        data.recent_import_count as nat,
        data.recently_played_count as nat,
        data.favorite_count as nat,
        unique_existing(texts(data.queue_track_ids@), texts(data.library_track_ids@)).len(),
        data.album_group_count as nat,
        data.artist_group_count as nat,
    ]
}

fn pair(key: &str, count: usize) -> (r: (String, usize))
    ensures
        r.0@ == key@,
        r.1 == count,
{
    (to_owned(key), count)
}

/// The navigation summary from the loaded library data: with no active
/// library only the library counts; otherwise the counts of each playlist
/// and smart view, and the active collection (the preferred one when it is
/// valid, else the default).
pub fn summarize_navigation(
    request: &NavigationQueryRequest,
    library_track_counts: Vec<(String, usize)>,
    active_library: Option<String>,
    data: &ActiveLibraryNavigationData,
    diagnostics: NavigationQueryDiagnostics,
) -> (r: NavigationQueryResult)
    ensures
        r.active_library == active_library,
        r.library_track_counts == library_track_counts,
        r.diagnostics == diagnostics,
        active_library is None ==> r.active_collection_key is None && r.playlist_track_counts@.len()
            == 0 && r.smart_collection_counts@.len() == 0,
        active_library is Some ==> {
            &&& crate::text::opt_text(r.active_collection_key) == active_collection_key(
                crate::text::opt_text(request.active_collection_ref),
                data.playlists@,
                Some(default_collection_key(data.playlists@)),
            )
            &&& r.playlist_track_counts@.len() == data.playlists@.len()
            &&& forall|i: int|
                0 <= i < data.playlists@.len() ==> (#[trigger] r.playlist_track_counts@[i]).0@
                    == data.playlists@[i].id@ && r.playlist_track_counts@[i].1 == playlist_count(
                    *data,
                    i,
                )
            &&& r.smart_collection_counts@.len() == 6
            &&& forall|i: int|
                0 <= i < 6 ==> (#[trigger] r.smart_collection_counts@[i]).0@ == smart_view_keys()[i]
                    && r.smart_collection_counts@[i].1 == smart_counts(*data)[i]
        },
{
    if active_library.is_none() {
        return NavigationQueryResult {
            active_library,
            active_collection_key: None,
            library_track_counts,
            playlist_track_counts: Vec::new(),
            smart_collection_counts: Vec::new(),
            diagnostics,
        };
    }
    let mut playlist_counts: Vec<(String, usize)> = Vec::new();
    let mut i: usize = 0;
    while i < data.playlists.len()
        invariant
            i <= data.playlists@.len(),
            playlist_counts@.len() == i,
            forall|k: int|
                0 <= k < i ==> (#[trigger] playlist_counts@[k]).0@ == data.playlists@[k].id@
                    && playlist_counts@[k].1 == playlist_count(*data, k),
        decreases data.playlists@.len() - i,
    {
        let p = &data.playlists[i];
        let count = if is_all_tracks(p) {
            data.library_track_ids.len()
        } else if i < data.playlist_track_ids.len() {
            unique_existing_track_ids(
                data.playlist_track_ids[i].as_slice(),
                &data.library_track_ids,
            ).len()
        } else {
            0
        };
        playlist_counts.push((p.id.clone(), count));
        i += 1;
    }
    let queue = unique_existing_track_ids(data.queue_track_ids.as_slice(), &data.library_track_ids);
    let mut smart: Vec<(String, usize)> = Vec::new();
    smart.push(pair(SMART_VIEW_RECENT_IMPORTS, data.recent_import_count));
    smart.push(pair(SMART_VIEW_RECENTLY_PLAYED, data.recently_played_count));
    smart.push(pair(SMART_VIEW_FAVORITES, data.favorite_count));
    smart.push(pair(SMART_VIEW_CURRENT_QUEUE, queue.len()));
    smart.push(pair(SMART_VIEW_ALBUMS, data.album_group_count));
    smart.push(pair(SMART_VIEW_ARTISTS, data.artist_group_count));
    let default_key = resolve_default_collection_key(&data.playlists);
    let preferred = match &request.active_collection_ref {
        Some(p) => Some(p.as_str()),
        None => None,
    };
    let default_ref = match &default_key {
        Some(d) => Some(d.as_str()),
        None => None,
    };
    let active_key = resolve_active_collection_key(preferred, &data.playlists, default_ref);
    NavigationQueryResult {
        active_library,
        active_collection_key: active_key,
        library_track_counts,
        playlist_track_counts: playlist_counts,
        smart_collection_counts: smart,
        diagnostics,
    }
}

/// The active library is always one of the libraries, and there is one
/// whenever there are libraries.
pub proof fn law_active_library_is_known(libraries: Seq<Seq<char>>, preferred: Option<Seq<char>>)
    ensures
        active_library_id(libraries, preferred) matches Some(id) ==> libraries.contains(id),
        libraries.len() > 0 ==> active_library_id(libraries, preferred) is Some,
{
    if libraries.len() > 0 {
        assert(libraries[0] == libraries[0]);
    }
}

/// The active collection is the preferred one only when it names a playlist
/// of the library or a smart view; otherwise it is the default.
pub proof fn law_active_collection_is_valid_or_default(
    preferred: Option<Seq<char>>,
    playlists: Seq<PlaylistHeader>,
)
    ensures
        ({
            let d = Some(default_collection_key(playlists));
            let k = active_collection_key(preferred, playlists, d);
            k == d || (preferred == k && ({
                let kind = collection_ref_kind(preferred->0);
                (kind.0 == 0 && has_playlist(playlists, kind.1)) || (kind.0 == 1
                    && smart_view_keys().contains(kind.1))
            }))
        }),
{
}


/// What `str::to_uppercase` gives for `s` (Unicode upper-casing).
pub uninterp spec fn uppercase_text(s: Seq<char>) -> Seq<char>;

/// Unicode upper-casing (`str::to_uppercase`). The contract names the
/// result by `uppercase_text`.
#[verifier::external_body]
fn to_uppercase(s: &str) -> (r: String)
    ensures
        r@ == uppercase_text(s@),
{
    s.to_uppercase()
}

/// What `str::to_lowercase` gives for `s` (Unicode lower-casing).
pub uninterp spec fn lowercase_text(s: Seq<char>) -> Seq<char>;

/// Unicode lower-casing (`str::to_lowercase`). The contract names the
/// result by `lowercase_text`.
#[verifier::external_body]
fn to_lowercase(s: &str) -> (r: String)
    ensures
        r@ == lowercase_text(s@),
{
    s.to_lowercase()
}

/// A search of the recently played tracks, trimmed and lower-cased.
pub fn normalize_recent_query(value: &str) -> (r: String)
    ensures
        r@ == lowercase_text(trim_seq(value@)),
{
    to_lowercase(trim(value).as_str())
}

/// A type filter of the recently played tracks, trimmed and upper-cased.
pub fn normalize_recent_type_filter(value: &str) -> (r: String)
    ensures
        r@ == uppercase_text(trim_seq(value@)),
{
    to_uppercase(trim(value).as_str())
}

/// The format shown for a track: its format, trimmed and upper-cased, when
/// not empty; else what follows the last `.` of its file name (all of it
/// without a dot), trimmed and upper-cased, when not empty; else `AUDIO`.
pub open spec fn projection_format(format: Option<Seq<char>>, file_name: Option<Seq<char>>) -> Seq<char> {
    let f = uppercase_text(
        trim_seq(
            match format {
                Some(v) => v,
                None => Seq::<char>::empty(),
            },
        ),
    );
    let e = uppercase_text(
        trim_seq(
            crate::text::after_last(
                match file_name {
                    Some(v) => v,
                    None => Seq::<char>::empty(),
                },
                '.',
            ),
        ),
    );
    if f.len() > 0 {
        f
    } else if e.len() > 0 {
        e
    } else {
        "AUDIO"@
    }
}

/// The format shown for a track (see `projection_format`).
pub fn resolve_projection_format(format: Option<&str>, file_name: Option<&str>) -> (r: String)
    ensures
        r@ == projection_format(
            match format {
                Some(v) => Some(v@),
                None => None,
            },
            match file_name {
                Some(v) => Some(v@),
                None => None,
            },
        ),
{
    let trimmed_format = match format {
        Some(v) => trim(v),
        None => String::new(),
    };
    let f = to_uppercase(trimmed_format.as_str());
    if !f.as_str().is_empty() {
        return f;
    }
    let tail = match file_name {
        Some(v) => crate::text::split_last(v, '.'),
        None => String::new(),
    };
    proof {
        crate::text::lemma_trim_idempotent(Seq::<char>::empty());
        assert(crate::text::after_last(Seq::<char>::empty(), '.') =~= Seq::<char>::empty());
    }
    let e = to_uppercase(trim(tail.as_str()).as_str());
    if !e.as_str().is_empty() {
        return e;
    }
    to_owned("AUDIO")
}

/// Where the tracks of a collection come from.
#[derive(Debug, Clone, PartialEq, Eq)]
pub enum CollectionTrackSource {
    /// The library's tracks in their order.
    LibraryOrder,
    /// The tracks of the playlist with this id.
    Playlist(String),
    /// The library's tracks, newest import first.
    ImportDate,
    /// The recently played tracks, which have a query of their own.
    RecentlyPlayed,
    /// The library's favorite tracks.
    Favorites,
    /// The tracks of the playback queue.
    CurrentQueue,
    /// No tracks.
    Nothing,
}

/// Whether the first playlist from position `i` on with id `id` is the
/// all-tracks system playlist.
pub open spec fn first_playlist_is_all_tracks(playlists: Seq<PlaylistHeader>, id: Seq<char>, i: int) -> bool
    decreases playlists.len() - i,
{
    if i < 0 || i >= playlists.len() {
        false
    } else if playlists[i].id@ == id {
        crate::text::opt_text(playlists[i].system_key) == Some(SYSTEM_PLAYLIST_ALL_TRACKS_KEY@)
    } else {
        first_playlist_is_all_tracks(playlists, id, i + 1)
    }
}

/// The source of the tracks of the active collection `key` among the
/// playlists of the active library: a playlist reference names the playlist,
/// or the library order when the first playlist with that id is the
/// all-tracks playlist; a view reference names its smart view (albums and
/// artists list the library in its order, an unknown view nothing); no key,
/// or one that is no valid reference, gives the library order.
pub open spec fn track_source(key: Option<Seq<char>>, playlists: Seq<PlaylistHeader>) -> (int, Seq<char>) {
    match key {
        None => (0, seq![]),
        Some(k) => {
            let kind = collection_ref_kind(k);
            if kind.0 == 0 {
                if first_playlist_is_all_tracks(playlists, kind.1, 0) {
                    (0, seq![])
                } else {
                    (1, kind.1)
                }
            } else if kind.0 == 1 {
                if kind.1 == SMART_VIEW_RECENT_IMPORTS@ {
                    (2, seq![])
                } else if kind.1 == SMART_VIEW_RECENTLY_PLAYED@ {
                    (3, seq![])
                } else if kind.1 == SMART_VIEW_FAVORITES@ {
                    (4, seq![])
                } else if kind.1 == SMART_VIEW_CURRENT_QUEUE@ {
                    (5, seq![])
                } else if kind.1 == SMART_VIEW_ALBUMS@ || kind.1 == SMART_VIEW_ARTISTS@ {
                    (0, seq![])
                } else {
                    (6, seq![])
                }
            } else {
                (0, seq![])
            }
        },
    }
}

/// A source in the shape of `track_source`.
pub open spec fn source_code(source: CollectionTrackSource) -> (int, Seq<char>) {
    match source {
        CollectionTrackSource::LibraryOrder => (0, seq![]),
        CollectionTrackSource::Playlist(id) => (1, id@),
        CollectionTrackSource::ImportDate => (2, seq![]),
        CollectionTrackSource::RecentlyPlayed => (3, seq![]),
        CollectionTrackSource::Favorites => (4, seq![]),
        CollectionTrackSource::CurrentQueue => (5, seq![]),
        CollectionTrackSource::Nothing => (6, seq![]),
    }
}

fn playlist_is_all_tracks(playlists: &Vec<PlaylistHeader>, id: &str) -> (r: bool)
    ensures
        r == first_playlist_is_all_tracks(playlists@, id@, 0),
{
    let mut i: usize = 0;
    while i < playlists.len()
        invariant
            i <= playlists@.len(),
            first_playlist_is_all_tracks(playlists@, id@, 0) == first_playlist_is_all_tracks(
                playlists@,
                id@,
                i as int,
            ),
        decreases playlists@.len() - i,
    {
        if str_eq(playlists[i].id.as_str(), id) {
            return match &playlists[i].system_key {
                Some(k) => str_eq(k.as_str(), SYSTEM_PLAYLIST_ALL_TRACKS_KEY),
                None => false,
            };
        }
        i += 1;
    }
    false
}

/// The source of the tracks of the active collection (see `track_source`).
pub fn collection_track_source(active_collection_key: Option<&str>, playlists: &Vec<PlaylistHeader>) -> (r:
    CollectionTrackSource)
    ensures
        source_code(r) == track_source(
            match active_collection_key {
                Some(k) => Some(k@),
                None => None,
            },
            playlists@,
        ),
{
    match active_collection_key {
        None => CollectionTrackSource::LibraryOrder,
        Some(k) => match parse_collection_ref(k) {
            CollectionRefKind::Playlist(id) => {
                if playlist_is_all_tracks(playlists, id.as_str()) {
                    CollectionTrackSource::LibraryOrder
                } else {
                    CollectionTrackSource::Playlist(id)
                }
            },
            CollectionRefKind::View(view) => {
                let v = view.as_str();
                if str_eq(v, SMART_VIEW_RECENT_IMPORTS) {
                    CollectionTrackSource::ImportDate
                } else if str_eq(v, SMART_VIEW_RECENTLY_PLAYED) {
                    CollectionTrackSource::RecentlyPlayed
                } else if str_eq(v, SMART_VIEW_FAVORITES) {
                    CollectionTrackSource::Favorites
                } else if str_eq(v, SMART_VIEW_CURRENT_QUEUE) {
                    CollectionTrackSource::CurrentQueue
                } else if str_eq(v, SMART_VIEW_ALBUMS) || str_eq(v, SMART_VIEW_ARTISTS) {
                    CollectionTrackSource::LibraryOrder
                } else {
                    CollectionTrackSource::Nothing
                }
            },
            CollectionRefKind::Invalid => CollectionTrackSource::LibraryOrder,
        },
    }
}

/// The page of the recently played tracks that a query shows: at most
/// `limit` rows (all when no limit is given), starting at `offset` (zero when
/// none is given) but no later than where the last full page starts.
pub fn recent_page_window(limit: Option<usize>, offset: Option<usize>, total_count: usize) -> (r: (
    usize,
    usize,
))
    ensures
        r.0 == match limit {
            Some(l) => if l < total_count {
                l
            } else {
                total_count
            },
            None => total_count,
        },
        r.1 == match offset {
            Some(o) => if o < total_count - r.0 {
                o as int
            } else {
                total_count - r.0
            },
            None => 0,
        },
{
    let page = match limit {
        Some(l) => if l < total_count {
            l
        } else {
            total_count
        },
        None => total_count,
    };
    let last_start = total_count - page;
    let start = match offset {
        Some(o) => if o < last_start {
            o
        } else {
            last_start
        },
        None => 0,
    };
    (page, start)
}

/// Each smart view's count is the count of that view's own tracks: recent
/// imports, recently played tracks, favorites, the queued tracks that are in
/// the library, album groups and artist groups.
pub proof fn law_smart_counts_follow_their_views(data: ActiveLibraryNavigationData, i: int)
    requires
        0 <= i < 6,
    ensures
        smart_view_keys()[i] == SMART_VIEW_RECENT_IMPORTS@ ==> smart_counts(data)[i] == data.recent_import_count,
        smart_view_keys()[i] == SMART_VIEW_RECENTLY_PLAYED@ ==> smart_counts(data)[i]
            == data.recently_played_count,
        smart_view_keys()[i] == SMART_VIEW_FAVORITES@ ==> smart_counts(data)[i] == data.favorite_count,
        smart_view_keys()[i] == SMART_VIEW_CURRENT_QUEUE@ ==> smart_counts(data)[i] == unique_existing(
            texts(data.queue_track_ids@),
            texts(data.library_track_ids@),
        ).len(),
        smart_view_keys()[i] == SMART_VIEW_ALBUMS@ ==> smart_counts(data)[i] == data.album_group_count,
        smart_view_keys()[i] == SMART_VIEW_ARTISTS@ ==> smart_counts(data)[i] == data.artist_group_count,
{
    reveal_strlit("recent-imports");
    reveal_strlit("all-plays");
    reveal_strlit("all-favorites");
    reveal_strlit("current-queue");
    reveal_strlit("albums");
    reveal_strlit("artists");
    let k = smart_view_keys();
    assert(k[0][0] == 'r' && k[1][0] == 'a' && k[2][0] == 'a' && k[3][0] == 'c' && k[4][0] == 'a' && k[5][0] == 'a');
    assert(k[1][1] == 'l' && k[2][1] == 'l' && k[4][1] == 'l' && k[5][1] == 'r');
    assert(k[1][4] == 'p' && k[2][4] == 'f');
    assert(k[1].len() == 9 && k[4].len() == 6);
    assert(k[2].len() == 13);
}

} // verus!
