//! The desktop state store: which database it works on, whether the catalog
//! has been checked since it last changed, and the decisions of its
//! commands (what to delete, which revisions to bump, which import
//! candidates are new). The SQL itself runs outside the library.
use vstd::prelude::*;
use crate::catalog_db::normalized_optional_text;
use crate::desktop_types::{
    DesktopBootstrapDiagnostics, DesktopBootstrapManifest, DesktopBootstrapRequest,
    DesktopStateResetResult, DesktopStateRevisions, LibraryImportCandidatesRequest, LibraryImportFileInput,
    NavigationQueryDiagnostics, NavigationQueryRequest, NavigationQueryResult,
};
use crate::diagnostics::{DiagnosticStepProfile, ProcessResourceDiagnostics};
use crate::navigation::{resolve_active_library_id, summarize_navigation, ActiveLibraryNavigationData};
use crate::text::{
    contains_text, lower_seq, opt_text, present_seq, push_char, strip_trailing, texts, to_owned,
    trim, trim_end_matches, trim_seq, chars_of, str_eq, has_prefix, starts_with, clone_strings,
};

verus! {

pub const DATABASE_FILE_NAME: &'static str = "ofplayer-desktop.sqlite3";
pub const PREFERENCES_STATE_KEY: &'static str = "preferences";
pub const REVISION_CATALOG_STATE_KEY: &'static str = "revision.catalog";
pub const REVISION_NAVIGATION_STATE_KEY: &'static str = "revision.navigation";
pub const REVISION_HISTORY_STATE_KEY: &'static str = "revision.history";
pub const REVISION_PREFERENCES_STATE_KEY: &'static str = "revision.preferences";
pub const REVISION_SESSION_STATE_KEY: &'static str = "revision.session";
pub const LEGACY_SNAPSHOT_CATALOG_STATE_KEY: &'static str = "snapshot.catalog";
pub const EXTERNAL_LIBRARY_CONNECTIONS_STATE_KEY: &'static str = "externalLibraries.connections";
pub const DELETED_IMPORT_PATHS_STATE_KEY: &'static str = "deletedImportPaths";
pub const DESKTOP_BOOTSTRAP_MANIFEST_VERSION: &'static str = "desktop-bootstrap-v1";
pub const UNINITIALIZED_DATABASE_ERROR: &'static str =
    "Desktop state database was accessed before initialization completed.";
pub const MISSING_SOURCE_PATH_ERROR: &'static str = "Import candidate is missing a source path.";

/// `s` with every `/` turned into `\`.
pub open spec fn backslashed(s: Seq<char>) -> Seq<char> {
    s.map_values(|c: char| if c == '/' { '\\' } else { c })
}

/// The key under which an import path is remembered: trimmed, with
/// backslash separators, ASCII lower-cased.
pub open spec fn normalized_import_path(s: Seq<char>) -> Seq<char> {
    lower_seq(backslashed(trim_seq(s)))
}

/// The key of a scanned directory: its import path key without trailing
/// separators.
pub open spec fn normalized_import_directory(s: Seq<char>) -> Seq<char> {
    strip_trailing(normalized_import_path(s), '\\')
}

/// The import path key of `value`.
pub fn normalize_import_path(value: &str) -> (r: String)
    ensures
        r@ == normalized_import_path(value@),
{
    let t = trim(value);
    let v = chars_of(t.as_str());
    let mut out = String::new();
    let mut i: usize = 0;
    while i < v.len()
        invariant
            i <= v.len(),
            v@ == trim_seq(value@),
            out@ == lower_seq(backslashed(v@.take(i as int))),
        decreases v.len() - i,
    {
        let c = if v[i] == '/' {
            '\\'
        } else {
            v[i]
        };
        let lc = if 'A' <= c && c <= 'Z' {
            ((c as u8) + 32) as char
        } else {
            c
        };
        assert(lc == crate::text::ascii_lower(c)) by {
            if 'A' <= c && c <= 'Z' {
                assert(((c as u8) + 32) as char == ((c as u32) + 32) as char);
            }
        }
        push_char(&mut out, lc);
        assert(lower_seq(backslashed(v@.take(i + 1))) =~= lower_seq(
            backslashed(v@.take(i as int)),
        ).push(lc));
        i += 1;
    }
    assert(v@.take(v.len() as int) =~= v@);
    out
}

/// The key of a scanned directory.
pub fn normalize_import_directory(value: &str) -> (r: String)
    ensures
        r@ == normalized_import_directory(value@),
{
    let n = normalize_import_path(value);
    trim_end_matches(n.as_str(), '\\')
}

/// The directory keys of `directories` in order, each once, without empty
/// ones.
pub open spec fn scan_directory_keys(directories: Seq<Seq<char>>) -> Seq<Seq<char>>
    decreases directories.len(),
{
    if directories.len() == 0 {
        seq![]
    } else {
        let before = scan_directory_keys(directories.drop_last());
        let d = normalized_import_directory(directories.last());
        if d.len() == 0 || before.contains(d) {
            before
        } else {
            before.push(d)
        }
    }
}

/// The keys of the scanned directories, each once, empty ones left out.
pub fn collect_normalized_scan_directories(directories: &[String]) -> (r: Vec<String>)
    ensures
        texts(r@) == scan_directory_keys(texts(directories@)),
{
    let mut out: Vec<String> = Vec::new();
    let mut i: usize = 0;
    while i < directories.len()
        invariant
            i <= directories@.len(),
            texts(out@) == scan_directory_keys(texts(directories@.take(i as int))),
        decreases directories@.len() - i,
    {
        let d = normalize_import_directory(directories[i].as_str());
        assert(texts(directories@.take(i + 1)).drop_last() =~= texts(directories@.take(i as int)));
        assert(texts(directories@.take(i + 1)).last() == directories@[i as int]@);
        if !d.as_str().is_empty() && !contains_text(&out, d.as_str()) {
            let ghost before = out@;
            out.push(d);
            assert(texts(out@) =~= texts(before).push(out@.last()@));
        }
        i += 1;
    }
    assert(directories@.take(directories@.len() as int) =~= directories@);
    out
}

/// A path key lies in one of the directory keys (or there are none).
pub open spec fn path_in_scan_directories(path: Seq<char>, directories: Seq<Seq<char>>) -> bool {
    directories.len() == 0 || exists|i: int|
        0 <= i < directories.len() && (path == directories[i] || (has_prefix(path, directories[i])
            && path.len() > directories[i].len() && path[directories[i].len() as int] == '\\'))
}

/// Whether the path key lies in one of the directory keys (any path does
/// when there are none).
pub fn path_matches_scan_directories(normalized_path: &str, normalized_directories: &[String]) -> (r:
    bool)
    ensures
        r == path_in_scan_directories(normalized_path@, texts(normalized_directories@)),
{
    if normalized_directories.len() == 0 {
        return true;
    }
    let p = chars_of(normalized_path);
    let mut i: usize = 0;
    while i < normalized_directories.len()
        invariant
            i <= normalized_directories@.len(),
            p@ == normalized_path@,
            forall|k: int|
                0 <= k < i ==> !(normalized_path@ == normalized_directories@[k]@ || (has_prefix(
                    normalized_path@,
                    normalized_directories@[k]@,
                ) && normalized_path@.len() > normalized_directories@[k]@.len()
                    && normalized_path@[normalized_directories@[k]@.len() as int] == '\\')),
        decreases normalized_directories@.len() - i,
    {
        let d = normalized_directories[i].as_str();
        let dl = chars_of(d);
        let hit = if str_eq(normalized_path, d) {
            true
        } else if starts_with(normalized_path, d) && p.len() > dl.len() {
            p[dl.len()] == '\\'
        } else {
            false
        };
        if hit {
            assert(texts(normalized_directories@)[i as int] == normalized_directories@[i as int]@);
            return true;
        }
        i += 1;
    }
    assert forall|k: int| 0 <= k < texts(normalized_directories@).len() implies !(
    normalized_path@ == texts(normalized_directories@)[k] || (has_prefix(
        normalized_path@,
        texts(normalized_directories@)[k],
    ) && normalized_path@.len() > texts(normalized_directories@)[k].len()
        && normalized_path@[texts(normalized_directories@)[k].len() as int] == '\\')) by {
        assert(texts(normalized_directories@)[k] == normalized_directories@[k]@);
    }
    false
}

/// Whether a non-empty source or original key is already known.
pub open spec fn import_key_known(known: Seq<Seq<char>>, source: Seq<char>, original: Seq<char>) -> bool {
    (source.len() > 0 && known.contains(source)) || (original.len() > 0 && known.contains(original))
}

/// `known` with the non-empty keys added.
pub open spec fn with_import_keys(known: Seq<Seq<char>>, source: Seq<char>, original: Seq<char>) -> Seq<
    Seq<char>,
> {
    let k = if source.len() > 0 {
        known.push(source)
    } else {
        known
    };
    if original.len() > 0 {
        k.push(original)
    } else {
        k
    }
}

/// Whether a non-empty source or original key is in `known_paths`.
pub fn matches_existing_import_path(
    known_paths: &Vec<String>,
    normalized_source_path: &str,
    normalized_original_path: &str,
) -> (r: bool)
    ensures
        r == import_key_known(texts(known_paths@), normalized_source_path@, normalized_original_path@),
{
    (!normalized_source_path.is_empty() && contains_text(known_paths, normalized_source_path)) || (
    !normalized_original_path.is_empty() && contains_text(known_paths, normalized_original_path))
}

/// Adds the non-empty keys to `keys`.
pub fn register_import_path_keys_for_values(
    keys: &mut Vec<String>,
    normalized_source_path: &str,
    normalized_original_path: &str,
)
    ensures
        texts(final(keys)@) == with_import_keys(
            texts(old(keys)@),
            normalized_source_path@,
            normalized_original_path@,
        ),
{
    let ghost k0 = keys@;
    if !normalized_source_path.is_empty() {
        keys.push(to_owned(normalized_source_path));
        assert(texts(keys@) =~= texts(k0).push(normalized_source_path@));
    }
    let ghost k1 = keys@;
    if !normalized_original_path.is_empty() {
        keys.push(to_owned(normalized_original_path));
        assert(texts(keys@) =~= texts(k1).push(normalized_original_path@));
    }
}

/// The source paths of a stored track (`source.path` and
/// `source.originPath`, as stored).
#[derive(Debug, Clone)]
pub struct TrackSourcePaths {
    pub path: Option<String>,
    pub origin_path: Option<String>,
}

/// The import keys of a track's present source paths.
pub open spec fn track_import_keys(track: TrackSourcePaths) -> (Seq<char>, Seq<char>) {
    (
        match present_seq(opt_text(track.path)) {
            Some(p) => normalized_import_path(p),
            None => seq![],
        },
        match present_seq(opt_text(track.origin_path)) {
            Some(p) => normalized_import_path(p),
            None => seq![],
        },
    )
}

fn present_key(value: &Option<String>) -> (r: String)
    ensures
        r@ == match present_seq(opt_text(*value)) {
            Some(p) => normalized_import_path(p),
            None => seq![],
        },
{
    match value {
        Some(v) => {
            let t = trim(v.as_str());
            if t.as_str().is_empty() {
                String::new()
            } else {
                proof {
                    crate::text::lemma_trim_idempotent(v@);
                }
                normalize_import_path(t.as_str())
            }
        },
        None => String::new(),
    }
}

/// Adds the import keys of a track's source paths to `keys`.
pub fn register_import_path_keys(keys: &mut Vec<String>, track: &TrackSourcePaths)
    ensures
        texts(final(keys)@) == with_import_keys(
            texts(old(keys)@),
            track_import_keys(*track).0,
            track_import_keys(*track).1,
        ),
{
    let s = present_key(&track.path);
    let o = present_key(&track.origin_path);
    register_import_path_keys_for_values(keys, s.as_str(), o.as_str());
}

/// The import keys of a sequence of tracks.
pub open spec fn collected_import_keys(tracks: Seq<TrackSourcePaths>) -> Seq<Seq<char>>
    decreases tracks.len(),
{
    if tracks.len() == 0 {
        seq![]
    } else {
        let k = track_import_keys(tracks.last());
        with_import_keys(collected_import_keys(tracks.drop_last()), k.0, k.1)
    }
}

/// The import keys of all `records`.
pub fn collect_import_path_keys(records: &[TrackSourcePaths]) -> (r: Vec<String>)
    ensures
        texts(r@) == collected_import_keys(records@),
{
    let mut keys: Vec<String> = Vec::new();
    let mut i: usize = 0;
    while i < records.len()
        invariant
            i <= records@.len(),
            texts(keys@) == collected_import_keys(records@.take(i as int)),
        decreases records@.len() - i,
    {
        register_import_path_keys(&mut keys, &records[i]);
        assert(records@.take(i + 1).drop_last() =~= records@.take(i as int));
        i += 1;
    }
    assert(records@.take(records@.len() as int) =~= records@);
    keys
}

/// What an accepted import candidate becomes: its trimmed source path, its
/// trimmed file name if any, and its original path.
pub open spec fn candidate_view(f: LibraryImportFileInput) -> (
    Seq<char>,
    Option<Seq<char>>,
    Option<Seq<char>>,
) {
    (f.source_path@, opt_text(f.file_name), opt_text(f.original_path))
}

/// The trimmed source path of a candidate.
pub open spec fn candidate_source(f: LibraryImportFileInput) -> Seq<char> {
    trim_seq(f.source_path@)
}

/// The original path of a candidate: its own, trimmed, when it has a
/// non-blank one, else its source path.
pub open spec fn candidate_original(f: LibraryImportFileInput) -> Seq<char> {
    let raw = match f.original_path {
        Some(o) => o@,
        None => candidate_source(f),
    };
    if trim_seq(raw).len() > 0 {
        trim_seq(raw)
    } else {
        candidate_source(f)
    }
}

/// `prefix` in front of `rest`, when there is a rest.
pub open spec fn prepend_candidates(
    prefix: Seq<(Seq<char>, Option<Seq<char>>, Option<Seq<char>>)>,
    rest: Option<Seq<(Seq<char>, Option<Seq<char>>, Option<Seq<char>>)>>,
) -> Option<Seq<(Seq<char>, Option<Seq<char>>, Option<Seq<char>>)>> {
    match rest {
        Some(r) => Some(prefix + r),
        None => None,
    }
}

/// The candidates from `files[i..]` that are new, given the keys already
/// `known` and the `deleted` keys; `None` when one of them has a blank
/// source path. Each accepted candidate's keys count as known for the
/// candidates after it.
pub open spec fn new_candidates_from(
    files: Seq<LibraryImportFileInput>,
    i: int,
    known: Seq<Seq<char>>,
    deleted: Seq<Seq<char>>,
) -> Option<Seq<(Seq<char>, Option<Seq<char>>, Option<Seq<char>>)>>
    decreases files.len() - i,
{
    if i < 0 || i >= files.len() {
        Some(seq![])
    } else {
        let f = files[i];
        let src = candidate_source(f);
        if src.len() == 0 {
            None
        } else {
            let orig = candidate_original(f);
            let ns = normalized_import_path(src);
            let no = normalized_import_path(orig);
            if import_key_known(known, ns, no) || import_key_known(deleted, ns, no) {
                new_candidates_from(files, i + 1, known, deleted)
            } else {
                prepend_candidates(
                    seq![(src, present_seq(opt_text(f.file_name)), Some(orig))],
                    new_candidates_from(files, i + 1, with_import_keys(known, ns, no), deleted),
                )
            }
        }
    }
}

/// The state of the desktop state store.
#[derive(Debug)]
pub struct DesktopStateStore {
    database_path: Option<String>,
    catalog_consistency_checked: bool,
    track_query_cache_ready: bool,
}

/// A deletion of records by id from one table, and the revision counters to
/// bump once it has run (each once, even when no id is given).
#[derive(Debug, Clone)]
pub struct DeleteRecordsPlan {
    pub table_name: String,
    pub ids: Vec<String>,
    pub entity_label: String,
    pub revisions_to_bump: Vec<&'static str>,
}

/// The revision keys that a change of the catalog's structure bumps.
pub open spec fn structure_revision_keys(keys: Seq<&'static str>) -> bool {
    &&& keys.len() == 2
    &&& keys[0]@ == REVISION_CATALOG_STATE_KEY@
    &&& keys[1]@ == REVISION_NAVIGATION_STATE_KEY@
}

/// The value of a revision counter after one bump: one more than the stored
/// count (zero when none is stored), saturated at `u64::MAX`.
pub fn next_revision(current: Option<u64>) -> (r: u64)
    ensures
        r == match current {
            Some(n) => if n == u64::MAX {
                u64::MAX
            } else {
                (n + 1) as u64
            },
            None => 1u64,
        },
{
    match current {
        Some(n) => n.saturating_add(1),
        None => 1,
    }
}

/// The tables that a full reset empties, in the order they are emptied.
pub open spec fn reset_tables() -> Seq<Seq<char>> {
    seq![
        "playlist_track_relations"@,
        "tracks"@,
        "playlists"@,
        "libraries"@,
        "playback_history"@,
        "playback_history_latest"@,
        "app_state"@,
    ]
}

impl DesktopStateStore {
    /// The database the store works on, once initialized.
    pub closed spec fn database(&self) -> Option<String> {
        self.database_path
    }

    /// Whether the catalog has been checked since it last changed.
    pub closed spec fn consistency_checked(&self) -> bool {
        self.catalog_consistency_checked
    }

    /// Whether the sortable track cache is loaded.
    pub closed spec fn cache_ready(&self) -> bool {
        self.track_query_cache_ready
    }

    /// A store that is not initialized yet.
    pub fn new() -> (r: Self)
        ensures
            r.database() is None,
            !r.consistency_checked(),
            !r.cache_ready(),
    {
        DesktopStateStore {
            database_path: None,
            catalog_consistency_checked: false,
            track_query_cache_ready: false,
        }
    }

    /// Points the store at `database_path` unless it already has a database;
    /// returns whether it did (the schema is then to be set up). A fresh
    /// database starts unchecked and without a track cache.
    pub fn initialize_with(&mut self, database_path: String) -> (r: bool)
        ensures
            r == old(self).database() is None,
            r ==> final(self).database() == Some(database_path) && !final(self).consistency_checked() && !final(self).cache_ready(),
            !r ==> *final(self) == *old(self),
    {
        if self.database_path.is_some() {
            return false;
        }
        self.database_path = Some(database_path);
        self.catalog_consistency_checked = false;
        self.track_query_cache_ready = false;
        true
    }

    /// The database path; an error before initialization.
    pub fn connection_path(&self) -> (r: Result<String, String>)
        ensures
            match r {
                Ok(p) => self.database() == Some(p),
                Err(e) => self.database() is None && e@ == UNINITIALIZED_DATABASE_ERROR@,
            },
    {
        match &self.database_path {
            Some(p) => Ok(p.clone()),
            None => Err(to_owned(UNINITIALIZED_DATABASE_ERROR)),
        }
    }

    fn delete_plan(&mut self, table_name: &str, ids: &[String], entity_label: &str) -> (r: Result<
        DeleteRecordsPlan,
        String,
    >)
        ensures
            match r {
                Ok(plan) => {
                    &&& old(self).database() is Some
                    &&& plan.table_name@ == table_name@
                    &&& plan.ids@ == ids@
                    &&& plan.entity_label@ == entity_label@
                    &&& structure_revision_keys(plan.revisions_to_bump@)
                    &&& final(self).database() == old(self).database()
                    &&& !final(self).consistency_checked()
                    &&& !final(self).cache_ready()
                },
                Err(e) => old(self).database() is None && e@ == UNINITIALIZED_DATABASE_ERROR@
                    && *final(self) == *old(self),
            },
    {
        match self.connection_path() {
            Ok(_) => {
                let revisions_to_bump = self.mark_catalog_structure_changed();
                Ok(
                    DeleteRecordsPlan {
                        table_name: to_owned(table_name),
                        ids: clone_strings(ids),
                        entity_label: to_owned(entity_label),
                        revisions_to_bump,
                    },
                )
            },
            Err(e) => Err(e),
        }
    }

    /// The deletion of the libraries `ids`. The catalog's structure changes
    /// (see `mark_catalog_structure_changed`): the catalog and navigation
    /// revisions are to be bumped, even for an empty list.
    pub fn delete_libraries(&mut self, ids: &[String]) -> (r: Result<DeleteRecordsPlan, String>)
        ensures
            match r {
                Ok(plan) => {
                    &&& old(self).database() is Some
                    &&& plan.table_name@ == "libraries"@
                    &&& plan.ids@ == ids@
                    &&& plan.entity_label@ == "desktop libraries"@
                    &&& structure_revision_keys(plan.revisions_to_bump@)
                    &&& final(self).database() == old(self).database()
                    &&& !final(self).consistency_checked()
                    &&& !final(self).cache_ready()
                },
                Err(e) => old(self).database() is None && e@ == UNINITIALIZED_DATABASE_ERROR@
                    && *final(self) == *old(self),
            },
    {
        self.delete_plan("libraries", ids, "desktop libraries")
    }

    /// The deletion of the playlists `ids`; the catalog's structure changes as for
    /// `delete_libraries`.
    pub fn delete_playlists(&mut self, ids: &[String]) -> (r: Result<DeleteRecordsPlan, String>)
        ensures
            match r {
                Ok(plan) => {
                    &&& old(self).database() is Some
                    &&& plan.table_name@ == "playlists"@
                    &&& plan.ids@ == ids@
                    &&& plan.entity_label@ == "desktop playlists"@
                    &&& structure_revision_keys(plan.revisions_to_bump@)
                    &&& final(self).database() == old(self).database()
                    &&& !final(self).consistency_checked()
                    &&& !final(self).cache_ready()
                },
                Err(e) => old(self).database() is None && e@ == UNINITIALIZED_DATABASE_ERROR@
                    && *final(self) == *old(self),
            },
    {
        self.delete_plan("playlists", ids, "desktop playlists")
    }

    /// The deletion of the playlist-track relations `ids`; the catalog's structure changes as for
    /// `delete_libraries`.
    pub fn delete_playlist_track_relations(&mut self, ids: &[String]) -> (r: Result<DeleteRecordsPlan, String>)
        ensures
            match r {
                Ok(plan) => {
                    &&& old(self).database() is Some
                    &&& plan.table_name@ == "playlist_track_relations"@
                    &&& plan.ids@ == ids@
                    &&& plan.entity_label@ == "desktop playlist-track relations"@
                    &&& structure_revision_keys(plan.revisions_to_bump@)
                    &&& final(self).database() == old(self).database()
                    &&& !final(self).consistency_checked()
                    &&& !final(self).cache_ready()
                },
                Err(e) => old(self).database() is None && e@ == UNINITIALIZED_DATABASE_ERROR@
                    && *final(self) == *old(self),
            },
    {
        self.delete_plan("playlist_track_relations", ids, "desktop playlist-track relations")
    }

    /// The deletion of the tracks `ids`; the catalog's structure changes as for
    /// `delete_libraries`.
    pub fn delete_tracks(&mut self, ids: &[String]) -> (r: Result<DeleteRecordsPlan, String>)
        ensures
            match r {
                Ok(plan) => {
                    &&& old(self).database() is Some
                    &&& plan.table_name@ == "tracks"@
                    &&& plan.ids@ == ids@
                    &&& plan.entity_label@ == "desktop tracks"@
                    &&& structure_revision_keys(plan.revisions_to_bump@)
                    &&& final(self).database() == old(self).database()
                    &&& !final(self).consistency_checked()
                    &&& !final(self).cache_ready()
                },
                Err(e) => old(self).database() is None && e@ == UNINITIALIZED_DATABASE_ERROR@
                    && *final(self) == *old(self),
            },
    {
        self.delete_plan("tracks", ids, "desktop tracks")
    }

    /// The catalog's structure changed: it must be checked again and the
    /// track cache is dropped. Returns the revisions to bump.
    pub fn mark_catalog_structure_changed(&mut self) -> (r: Vec<&'static str>)
        ensures
            final(self).database() == old(self).database(),
            !final(self).consistency_checked(),
            !final(self).cache_ready(),
            r@.len() == 2,
            r@[0]@ == REVISION_CATALOG_STATE_KEY@,
            r@[1]@ == REVISION_NAVIGATION_STATE_KEY@,
    {
        self.catalog_consistency_checked = false;
        self.track_query_cache_ready = false;
        let mut keys: Vec<&'static str> = Vec::new();
        keys.push(REVISION_CATALOG_STATE_KEY);
        keys.push(REVISION_NAVIGATION_STATE_KEY);
        keys
    }

    /// Track projections changed: the track cache is dropped, the catalog
    /// stays checked. Returns the revisions to bump.
    pub fn mark_catalog_projection_changed(&mut self) -> (r: Vec<&'static str>)
        ensures
            final(self).database() == old(self).database(),
            final(self).consistency_checked() == old(self).consistency_checked(),
            !final(self).cache_ready(),
            r@.len() == 2,
            r@[0]@ == REVISION_CATALOG_STATE_KEY@,
            r@[1]@ == REVISION_NAVIGATION_STATE_KEY@,
    {
        self.track_query_cache_ready = false;
        let mut keys: Vec<&'static str> = Vec::new();
        keys.push(REVISION_CATALOG_STATE_KEY);
        keys.push(REVISION_NAVIGATION_STATE_KEY);
        keys
    }

    /// Whether the catalog must be checked (and the track cache loaded)
    /// before a query may run.
    pub fn needs_catalog_consistency_check(&self) -> (r: bool)
        ensures
            r == !self.consistency_checked(),
    {
        !self.catalog_consistency_checked
    }

    /// The catalog was checked and the track cache loaded.
    pub fn mark_catalog_consistency_checked(&mut self)
        ensures
            final(self).database() == old(self).database(),
            final(self).consistency_checked(),
            final(self).cache_ready(),
    {
        self.catalog_consistency_checked = true;
        self.track_query_cache_ready = true;
    }

    /// The new import candidates of `request`, given the import keys of the
    /// library's tracks and the keys of deleted imports (which count only
    /// when the request asks to respect them). A candidate is dropped when
    /// its source or original path is already known or was deleted; an
    /// accepted one is known to those after it. A candidate with a blank
    /// source path fails the whole request.
    pub fn filter_library_import_candidates(
        &self,
        request: &LibraryImportCandidatesRequest,
        existing_path_keys: &Vec<String>,
        deleted_path_keys: &Vec<String>,
    ) -> (r: Result<Vec<LibraryImportFileInput>, String>)
        ensures
            ({
                let deleted = if request.respect_deleted_import_paths == Some(true) {
                    texts(deleted_path_keys@)
                } else {
                    Seq::<Seq<char>>::empty()
                };
                let expected = new_candidates_from(
                    request.files@,
                    0,
                    texts(existing_path_keys@),
                    deleted,
                );
                match r {
                    Ok(v) => expected == Some(v@.map_values(|f: LibraryImportFileInput| candidate_view(f))),
                    Err(e) => expected is None && e@ == MISSING_SOURCE_PATH_ERROR@,
                }
            }),
    {
        let respect = match request.respect_deleted_import_paths {
            Some(b) => b,
            None => false,
        };
        let empty: Vec<String> = Vec::new();
        let deleted: &Vec<String> = if respect {
            deleted_path_keys
        } else {
            &empty
        };
        let ghost deleted_texts = texts(deleted@);
        assert(deleted_texts =~= if request.respect_deleted_import_paths == Some(true) {
            texts(deleted_path_keys@)
        } else {
            Seq::<Seq<char>>::empty()
        });
        let mut known: Vec<String> = clone_strings(existing_path_keys.as_slice());
        let mut out: Vec<LibraryImportFileInput> = Vec::new();
        let files = &request.files;
        let mut i: usize = 0;
        while i < files.len()
            invariant
                i <= files@.len(),
                files@ == request.files@,
                deleted_texts == texts(deleted@),
                deleted_texts == if request.respect_deleted_import_paths == Some(true) {
                    texts(deleted_path_keys@)
                } else {
                    Seq::<Seq<char>>::empty()
                },
                new_candidates_from(files@, 0, texts(existing_path_keys@), deleted_texts)
                    == prepend_candidates(
                    out@.map_values(|f: LibraryImportFileInput| candidate_view(f)),
                    new_candidates_from(files@, i as int, texts(known@), deleted_texts),
                ),
            decreases files@.len() - i,
        {
            let f = &files[i];
            let ghost before = out@.map_values(|f: LibraryImportFileInput| candidate_view(f));
            let source = trim(f.source_path.as_str());
            if source.as_str().is_empty() {
                assert(candidate_source(files@[i as int]).len() == 0);
                assert(new_candidates_from(files@, i as int, texts(known@), deleted_texts) is None);
                return Err(to_owned(MISSING_SOURCE_PATH_ERROR));
            }
            let raw = match &f.original_path {
                Some(o) => trim(o.as_str()),
                None => source.clone(),
            };
            proof {
                crate::text::lemma_trim_idempotent(f.source_path@);
            }
            let original = if raw.as_str().is_empty() {
                source.clone()
            } else {
                raw
            };
            let ns = normalize_import_path(source.as_str());
            let no = normalize_import_path(original.as_str());
            if matches_existing_import_path(&known, ns.as_str(), no.as_str())
                || matches_existing_import_path(deleted, ns.as_str(), no.as_str()) {
                i += 1;
                continue;
            }
            register_import_path_keys_for_values(&mut known, ns.as_str(), no.as_str());
            let accepted = LibraryImportFileInput {
                source_path: source,
                file_name: match &f.file_name {
                    Some(n) => normalized_optional_text(Some(n.as_str())),
                    None => None,
                },
                original_path: Some(original),
            };
            out.push(accepted);
            assert(out@.map_values(|f: LibraryImportFileInput| candidate_view(f)) =~= before.push(
                candidate_view(out@.last()),
            ));
            i += 1;
        }
        Ok(out)
    }

    /// The navigation summary for `request`, from the loaded libraries (in
    /// their order), their track counts and the data of the library that
    /// `crate::navigation::resolve_active_library_id` picks for the request.
    /// Without libraries the summary is empty. An error before
    /// initialization.
    pub fn resolve_navigation_summary(
        &self,
        request: &NavigationQueryRequest,
        library_ids: &Vec<String>,
        library_track_counts: Vec<(String, usize)>,
        active_library_data: &ActiveLibraryNavigationData,
        diagnostics: NavigationQueryDiagnostics,
    ) -> (r: Result<NavigationQueryResult, String>)
        ensures
            match r {
                Ok(res) => {
                    &&& self.database() is Some
                    &&& library_ids@.len() == 0 ==> {
                        &&& res.active_library is None
                        &&& res.active_collection_key is None
                        &&& res.library_track_counts@.len() == 0
                        &&& res.playlist_track_counts@.len() == 0
                        &&& res.smart_collection_counts@.len() == 0
                        &&& res.diagnostics.total_ms == 0
                        &&& res.diagnostics.step_profiles@.len() == 0
                    }
                    &&& library_ids@.len() > 0 ==> {
                        &&& opt_text(res.active_library) == crate::navigation::active_library_id(
                            texts(library_ids@),
                            opt_text(request.active_library),
                        )
                        &&& res.library_track_counts == library_track_counts
                        &&& res.diagnostics == diagnostics
                        &&& opt_text(res.active_collection_key)
                            == crate::navigation::active_collection_key(
                            opt_text(request.active_collection_ref),
                            active_library_data.playlists@,
                            Some(crate::navigation::default_collection_key(active_library_data.playlists@)),
                        )
                        &&& res.playlist_track_counts@.len() == active_library_data.playlists@.len()
                        &&& forall|i: int|
                            0 <= i < active_library_data.playlists@.len()
                                ==> (#[trigger] res.playlist_track_counts@[i]).0@
                                == active_library_data.playlists@[i].id@
                                && res.playlist_track_counts@[i].1
                                == crate::navigation::playlist_count(*active_library_data, i)
                        &&& res.smart_collection_counts@.len() == 6
                        &&& forall|i: int|
                            0 <= i < 6 ==> (#[trigger] res.smart_collection_counts@[i]).0@
                                == crate::navigation::smart_view_keys()[i]
                                && res.smart_collection_counts@[i].1
                                == crate::navigation::smart_counts(*active_library_data)[i]
                    }
                },
                Err(e) => self.database() is None && e@ == UNINITIALIZED_DATABASE_ERROR@,
            },
    {
        if self.database_path.is_none() {
            return Err(to_owned(UNINITIALIZED_DATABASE_ERROR));
        }
        if library_ids.len() == 0 {
            return Ok(
                NavigationQueryResult {
                    active_library: None,
                    active_collection_key: None,
                    library_track_counts: Vec::new(),
                    playlist_track_counts: Vec::new(),
                    smart_collection_counts: Vec::new(),
                    diagnostics: NavigationQueryDiagnostics {
                        command_lock_wait_ms: 0,
                        library_counts_ms: 0,
                        collection_ids_ms: 0,
                        playlist_counts_ms: 0,
                        smart_counts_ms: 0,
                        total_ms: 0,
                        process: ProcessResourceDiagnostics {
                            sampled: false,
                            start: None,
                            end: None,
                            delta: None,
                        },
                        step_profiles: Vec::new(),
                    },
                },
            );
        }
        let preferred = match &request.active_library {
            Some(p) => Some(p.as_str()),
            None => None,
        };
        let active = resolve_active_library_id(library_ids, preferred);
        proof {
            assert(texts(library_ids@).len() > 0);
        }
        Ok(summarize_navigation(request, library_track_counts, active, active_library_data, diagnostics))
    }

    /// A full reset ran (the tables of `reset_tables` were emptied and the
    /// managed storage at `cleared_managed_storage`, if any, removed): the
    /// catalog is unchecked and the track cache dropped.
    pub fn reset_all_data(&mut self, cleared_managed_storage: Option<String>) -> (r: Result<
        DesktopStateResetResult,
        String,
    >)
        ensures
            match r {
                Ok(res) => {
                    &&& old(self).database() is Some
                    &&& res.managed_storage_deleted == cleared_managed_storage is Some
                    &&& res.managed_storage_path == cleared_managed_storage
                    &&& final(self).database() == old(self).database()
                    &&& !final(self).consistency_checked()
                    &&& !final(self).cache_ready()
                },
                Err(e) => old(self).database() is None && e@ == UNINITIALIZED_DATABASE_ERROR@
                    && *final(self) == *old(self),
            },
    {
        if self.database_path.is_none() {
            return Err(to_owned(UNINITIALIZED_DATABASE_ERROR));
        }
        self.catalog_consistency_checked = false;
        self.track_query_cache_ready = false;
        let deleted = cleared_managed_storage.is_some();
        Ok(
            DesktopStateResetResult {
                managed_storage_deleted: deleted,
                managed_storage_path: cleared_managed_storage,
            },
        )
    }
}

impl Default for DesktopStateStore {
    fn default() -> (r: Self)
        ensures
            r.database() is None,
            !r.consistency_checked(),
            !r.cache_ready(),
    {
        DesktopStateStore::new()
    }
}

/// The tables that a full reset empties, in order.
pub fn reset_table_names() -> (r: Vec<&'static str>)
    ensures
        r@.len() == 7,
        forall|i: int| 0 <= i < 7 ==> #[trigger] r@[i]@ == reset_tables()[i],
{
    let mut v: Vec<&'static str> = Vec::new();
    v.push("playlist_track_relations");
    v.push("tracks");
    v.push("playlists");
    v.push("libraries");
    v.push("playback_history");
    v.push("playback_history_latest");
    v.push("app_state");
    v
}

/// The managed storage root named in the preferences, when it is not blank.
pub fn managed_storage_root(storage_root: Option<String>) -> (r: Option<String>)
    ensures
        match r {
            Some(v) => storage_root == Some(v) && trim_seq(v@).len() > 0,
            None => storage_root is None || trim_seq(storage_root->0@).len() == 0,
        },
{
    match storage_root {
        Some(v) => {
            let t = trim(v.as_str());
            if t.as_str().is_empty() {
                None
            } else {
                Some(v)
            }
        },
        None => None,
    }
}

/// The keys of an accepted candidate.
pub open spec fn accepted_keys(c: (Seq<char>, Option<Seq<char>>, Option<Seq<char>>)) -> (
    Seq<char>,
    Seq<char>,
) {
    (
        normalized_import_path(c.0),
        match c.2 {
            Some(o) => normalized_import_path(o),
            None => seq![],
        },
    )
}

/// Import filtering never accepts a file that is already in the library or
/// (when deletions are respected) was deleted from it, and never accepts two
/// files with a path in common.
pub proof fn law_accepted_candidates_are_new(
    files: Seq<LibraryImportFileInput>,
    i: int,
    known: Seq<Seq<char>>,
    deleted: Seq<Seq<char>>,
)
    requires
        0 <= i,
        new_candidates_from(files, i, known, deleted) is Some,
    ensures
        ({
            let out = new_candidates_from(files, i, known, deleted)->0;
            &&& forall|k: int|
                0 <= k < out.len() ==> !import_key_known(
                    known,
                    accepted_keys(#[trigger] out[k]).0,
                    accepted_keys(out[k]).1,
                ) && !import_key_known(deleted, accepted_keys(out[k]).0, accepted_keys(out[k]).1)
            &&& forall|j: int, k: int|
                #![trigger out[j], out[k]]
                0 <= j < k < out.len() ==> !import_key_known(
                    seq![accepted_keys(out[j]).0, accepted_keys(out[j]).1],
                    accepted_keys(out[k]).0,
                    accepted_keys(out[k]).1,
                )
        }),
    decreases files.len() - i,
{
    if i >= files.len() {
    } else {
        let f = files[i];
        let src = candidate_source(f);
        let orig = candidate_original(f);
        let ns = normalized_import_path(src);
        let no = normalized_import_path(orig);
        if import_key_known(known, ns, no) || import_key_known(deleted, ns, no) {
            law_accepted_candidates_are_new(files, i + 1, known, deleted);
        } else {
            let known2 = with_import_keys(known, ns, no);
            law_accepted_candidates_are_new(files, i + 1, known2, deleted);
            let rest = new_candidates_from(files, i + 1, known2, deleted)->0;
            let head = (src, present_seq(opt_text(f.file_name)), Some(orig));
            let out = seq![head] + rest;
            assert(new_candidates_from(files, i, known, deleted)->0 == out);
            assert(accepted_keys(head) == (ns, no));
            assert forall|k: int| 0 <= k < out.len() implies !import_key_known(
                known,
                accepted_keys(#[trigger] out[k]).0,
                accepted_keys(out[k]).1,
            ) && !import_key_known(deleted, accepted_keys(out[k]).0, accepted_keys(out[k]).1) by {
                if k > 0 {
                    assert(out[k] == rest[k - 1]);
                    let ks = accepted_keys(rest[k - 1]);
                    if ks.0.len() > 0 && known.contains(ks.0) {
                        let w = choose|w: int| 0 <= w < known.len() && known[w] == ks.0;
                        assert(known2.contains(ks.0)) by {
                            let k1 = if ns.len() > 0 { known.push(ns) } else { known };
                            assert(k1[w] == ks.0);
                            if no.len() > 0 {
                                assert(k1.push(no)[w] == ks.0);
                            }
                        }
                    }
                    if ks.1.len() > 0 && known.contains(ks.1) {
                        let w = choose|w: int| 0 <= w < known.len() && known[w] == ks.1;
                        assert(known2.contains(ks.1)) by {
                            let k1 = if ns.len() > 0 { known.push(ns) } else { known };
                            assert(k1[w] == ks.1);
                            if no.len() > 0 {
                                assert(k1.push(no)[w] == ks.1);
                            }
                        }
                    }
                }
            }
            assert forall|j: int, k: int|
                #![trigger out[j], out[k]]
                0 <= j < k < out.len() implies !import_key_known(
                seq![accepted_keys(out[j]).0, accepted_keys(out[j]).1],
                accepted_keys(out[k]).0,
                accepted_keys(out[k]).1,
            ) by {
                assert(out[k] == rest[k - 1]);
                if j > 0 {
                    assert(out[j] == rest[j - 1]);
                } else {
                    let ks = accepted_keys(rest[k - 1]);
                    let k1 = if ns.len() > 0 { known.push(ns) } else { known };
                    if ns.len() > 0 {
                        assert(k1[known.len() as int] == ns);
                        if no.len() > 0 {
                            assert(known2[known.len() as int] == ns);
                        }
                        assert(known2.contains(ns));
                    }
                    if no.len() > 0 {
                        assert(known2[known2.len() - 1] == no);
                        assert(known2.contains(no));
                    }
                    let pair = seq![ns, no];
                    if ks.0.len() > 0 && pair.contains(ks.0) {
                        let w = choose|w: int| 0 <= w < pair.len() && pair[w] == ks.0;
                        assert(known2.contains(ks.0));
                    }
                    if ks.1.len() > 0 && pair.contains(ks.1) {
                        let w = choose|w: int| 0 <= w < pair.len() && pair[w] == ks.1;
                        assert(known2.contains(ks.1));
                    }
                }
            }
        }
    }
}

/// Normalizing an import key again changes nothing, so keys stored once
/// keep matching.
pub proof fn law_import_key_is_stable(s: Seq<char>)
    ensures
        normalized_import_path(normalized_import_path(s)) == normalized_import_path(s),
{
    let t = trim_seq(s);
    let n = normalized_import_path(s);
    crate::text::lemma_trim_start_clean(s);
    crate::text::lemma_trim_end_clean(crate::text::trim_start_seq(s));
    crate::text::lemma_trim_idempotent(s);
    assert(n.len() == t.len());
    assert forall|i: int| 0 <= i < n.len() implies crate::text::is_ws(n[i]) == crate::text::is_ws(
        t[i],
    ) by {
        let c = t[i];
        let b = if c == '/' { '\\' } else { c };
        assert(n[i] == crate::text::ascii_lower(b));
    }
    lemma_trim_same_shape(n, t);
    assert(trim_seq(n) == n);
    assert(backslashed(n) =~= n) by {
        assert forall|i: int| 0 <= i < n.len() implies n[i] != '/' by {
            let c = t[i];
            let b = if c == '/' { '\\' } else { c };
            assert(n[i] == crate::text::ascii_lower(b));
        }
    }
    assert(lower_seq(n) =~= n) by {
        assert forall|i: int| 0 <= i < n.len() implies crate::text::ascii_lower(n[i]) == n[i] by {
            let c = t[i];
            let b = if c == '/' { '\\' } else { c };
            assert(n[i] == crate::text::ascii_lower(b));
        }
    }
}

/// Trimming treats two texts alike when they have whitespace at the same
/// places: a text shaped like a trimmed one is trimmed already.
proof fn lemma_trim_same_shape(n: Seq<char>, t: Seq<char>)
    requires
        n.len() == t.len(),
        forall|i: int| 0 <= i < n.len() ==> crate::text::is_ws(n[i]) == crate::text::is_ws(t[i]),
        trim_seq(t) == t,
    ensures
        trim_seq(n) == n,
{
    crate::text::lemma_trim_start_clean(t);
    crate::text::lemma_trim_start_clean(n);
    if n.len() > 0 {
        if crate::text::is_ws(t[0]) {
            crate::text::lemma_trim_end_clean(crate::text::trim_start_seq(t));
            assert(false) by {
                lemma_trimmed_first_not_ws(t);
            }
        }
        assert(crate::text::trim_start_seq(n) == n);
        crate::text::lemma_trim_end_clean(n);
        if crate::text::is_ws(n.last()) {
            assert(false) by {
                lemma_trimmed_last_not_ws(t);
            }
        }
    }
}

proof fn lemma_trimmed_first_not_ws(t: Seq<char>)
    requires
        trim_seq(t) == t,
        t.len() > 0,
    ensures
        !crate::text::is_ws(t[0]),
{
    let a = crate::text::trim_start_seq(t);
    crate::text::lemma_trim_start_clean(t);
    crate::text::lemma_trim_end_clean(a);
    let b = crate::text::trim_end_seq(a);
    assert(b == t);
    assert(a.take(b.len() as int)[0] == a[0]);
}

proof fn lemma_trimmed_last_not_ws(t: Seq<char>)
    requires
        trim_seq(t) == t,
        t.len() > 0,
    ensures
        !crate::text::is_ws(t.last()),
{
    let a = crate::text::trim_start_seq(t);
    crate::text::lemma_trim_end_clean(a);
}

/// How much track artwork a catalog snapshot carries.
#[derive(Debug, Clone, Copy, PartialEq, Eq, Structural)]
pub enum TrackArtworkSnapshotMode {
    All,
    AlbumCovers,
    NoArtwork,
}

/// The artwork mode a request names: `none` and `album-covers` (trimmed,
/// any ASCII case), everything else meaning all artwork.
pub open spec fn artwork_mode_for(value: Option<Seq<char>>) -> TrackArtworkSnapshotMode {
    match value {
        Some(v) => if lower_seq(trim_seq(v)) == "none"@ {
            TrackArtworkSnapshotMode::NoArtwork
        } else if lower_seq(trim_seq(v)) == "album-covers"@ {
            TrackArtworkSnapshotMode::AlbumCovers
        } else {
            TrackArtworkSnapshotMode::All
        },
        None => TrackArtworkSnapshotMode::All,
    }
}

/// The artwork mode a request names.
pub fn parse_track_artwork_snapshot_mode(value: Option<&str>) -> (r: TrackArtworkSnapshotMode)
    ensures
        r == artwork_mode_for(
            match value {
                Some(v) => Some(v@),
                None => None,
            },
        ),
{
    match value {
        Some(v) => {
            let t = trim(v);
            let l = crate::text::to_ascii_lowercase(t.as_str());
            if str_eq(l.as_str(), "none") {
                TrackArtworkSnapshotMode::NoArtwork
            } else if str_eq(l.as_str(), "album-covers") {
                TrackArtworkSnapshotMode::AlbumCovers
            } else {
                TrackArtworkSnapshotMode::All
            }
        },
        None => TrackArtworkSnapshotMode::All,
    }
}

/// The album fields of a stored track, as stored.
#[derive(Debug, Clone)]
pub struct TrackAlbumFields {
    pub library_id: Option<String>,
    pub album: Option<String>,
    pub album_artist: Option<String>,
    pub artist: Option<String>,
}

/// The key under which tracks share album artwork: library, album and
/// album artist (else artist), ASCII lower-cased, with placeholders for
/// missing fields, separated by the unit separator.
pub open spec fn album_artwork_key(track: TrackAlbumFields) -> Seq<char> {
    let library = match opt_text(track.library_id) {
        Some(v) => lower_seq(v),
        None => "<unknown-library>"@,
    };
    let album = match opt_text(track.album) {
        Some(v) => lower_seq(v),
        None => "<unknown-album>"@,
    };
    let artist = match opt_text(track.album_artist) {
        Some(v) => lower_seq(v),
        None => match opt_text(track.artist) {
            Some(v) => lower_seq(v),
            None => "<unknown-artist>"@,
        },
    };
    library + seq!['\u{1f}'] + album + seq!['\u{1f}'] + artist
}

fn lowered_or(value: &Option<String>, fallback: &str) -> (r: String)
    ensures
        r@ == match opt_text(*value) {
            Some(v) => lower_seq(v),
            None => fallback@,
        },
{
    match value {
        Some(v) => crate::text::to_ascii_lowercase(v.as_str()),
        None => to_owned(fallback),
    }
}

/// The key under which tracks share album artwork.
pub fn track_album_artwork_key(track: &TrackAlbumFields) -> (r: String)
    ensures
        r@ == album_artwork_key(*track),
{
    proof {
        reveal_strlit("\u{1f}");
    }
    let library = lowered_or(&track.library_id, "<unknown-library>");
    let album = lowered_or(&track.album, "<unknown-album>");
    let artist = match &track.album_artist {
        Some(v) => crate::text::to_ascii_lowercase(v.as_str()),
        None => lowered_or(&track.artist, "<unknown-artist>"),
    };
    let a = crate::text::concat(library.as_str(), "\u{1f}");
    let b = crate::text::concat(a.as_str(), album.as_str());
    let c = crate::text::concat(b.as_str(), "\u{1f}");
    crate::text::concat(c.as_str(), artist.as_str())
}

/// Which tracks of a snapshot keep their artwork: all, none, or in the
/// album-covers mode the first track of each album key.
pub open spec fn keeps_artwork(mode: TrackArtworkSnapshotMode, keys: Seq<Seq<char>>, i: int) -> bool {
    match mode {
        TrackArtworkSnapshotMode::All => true,
        TrackArtworkSnapshotMode::NoArtwork => false,
        TrackArtworkSnapshotMode::AlbumCovers => !keys.take(i).contains(keys[i]),
    }
}

/// For each track (by album key, in snapshot order), whether it keeps its
/// artwork.
pub fn artwork_retention(mode: TrackArtworkSnapshotMode, album_keys: &Vec<String>) -> (r: Vec<bool>)
    ensures
        r@.len() == album_keys@.len(),
        forall|i: int| 0 <= i < r@.len() ==> #[trigger] r@[i] == keeps_artwork(mode, texts(album_keys@), i),
{
    let mut out: Vec<bool> = Vec::new();
    let mut seen: Vec<String> = Vec::new();
    let mut i: usize = 0;
    while i < album_keys.len()
        invariant
            i <= album_keys@.len(),
            out@.len() == i,
            texts(seen@) =~= texts(album_keys@).take(i as int),
            forall|k: int| 0 <= k < i ==> #[trigger] out@[k] == keeps_artwork(mode, texts(album_keys@), k),
        decreases album_keys@.len() - i,
    {
        let keep = match mode {
            TrackArtworkSnapshotMode::All => true,
            TrackArtworkSnapshotMode::NoArtwork => false,
            TrackArtworkSnapshotMode::AlbumCovers => !contains_text(&seen, album_keys[i].as_str()),
        };
        assert(texts(album_keys@)[i as int] == album_keys@[i as int]@);
        out.push(keep);
        let ghost before = seen@;
        seen.push(album_keys[i].clone());
        assert(texts(seen@) =~= texts(before).push(album_keys@[i as int]@));
        assert(texts(album_keys@).take(i + 1) =~= texts(album_keys@).take(i as int).push(
            texts(album_keys@)[i as int],
        ));
        i += 1;
    }
    out
}

/// The ids of a batch deletion: trimmed, blank ones dropped, each once in
/// first order.
pub open spec fn batch_track_ids(ids: Seq<Seq<char>>) -> Seq<Seq<char>>
    decreases ids.len(),
{
    if ids.len() == 0 {
        seq![]
    } else {
        let before = batch_track_ids(ids.drop_last());
        let t = trim_seq(ids.last());
        if t.len() == 0 || before.contains(t) {
            before
        } else {
            before.push(t)
        }
    }
}

/// The ids of a batch deletion, normalized.
pub fn normalize_batch_track_ids(track_ids: &[String]) -> (r: Vec<String>)
    ensures
        texts(r@) == batch_track_ids(texts(track_ids@)),
{
    let mut out: Vec<String> = Vec::new();
    let mut i: usize = 0;
    while i < track_ids.len()
        invariant
            i <= track_ids@.len(),
            texts(out@) == batch_track_ids(texts(track_ids@.take(i as int))),
        decreases track_ids@.len() - i,
    {
        let t = trim(track_ids[i].as_str());
        assert(texts(track_ids@.take(i + 1)).drop_last() =~= texts(track_ids@.take(i as int)));
        assert(texts(track_ids@.take(i + 1)).last() == track_ids@[i as int]@);
        if !t.as_str().is_empty() && !contains_text(&out, t.as_str()) {
            let ghost before = out@;
            out.push(t);
            assert(texts(out@) =~= texts(before).push(out@.last()@));
        }
        i += 1;
    }
    assert(track_ids@.take(track_ids@.len() as int) =~= track_ids@);
    out
}

/// A required entity name: trimmed; an error naming the entity when blank.
pub fn normalize_entity_name(value: &str, fallback_label: &str) -> (r: Result<String, String>)
    ensures
        match r {
            Ok(name) => trim_seq(value@).len() > 0 && name@ == trim_seq(value@),
            Err(e) => trim_seq(value@).len() == 0 && e@ == fallback_label@ + " name is required."@,
        },
{
    let t = trim(value);
    if t.as_str().is_empty() {
        Err(crate::text::concat(fallback_label, " name is required."))
    } else {
        Ok(t)
    }
}

/// A stored track is a locally indexed file: its source kind is
/// `native-file` (trimmed) and it is marked indexed.
pub fn is_local_indexed_track(source_kind: Option<&str>, indexed: Option<bool>) -> (r: bool)
    ensures
        r == (present_seq(
            match source_kind {
                Some(k) => Some(k@),
                None => None,
            },
        ) == Some("native-file"@) && indexed == Some(true)),
{
    proof {
        reveal_strlit("native-file");
    }
    let kind = normalized_optional_text(source_kind);
    let native = match &kind {
        Some(k) => str_eq(k.as_str(), "native-file"),
        None => false,
    };
    native && match indexed {
        Some(b) => b,
        None => false,
    }
}

/// Adds `key` to the key set unless it is blank or already there.
pub fn insert_import_key(keys: &mut Vec<String>, key: &str)
    requires
        texts(old(keys)@).no_duplicates(),
    ensures
        texts(final(keys)@).no_duplicates(),
        forall|x: Seq<char>|
            #[trigger] texts(final(keys)@).contains(x) <==> (texts(old(keys)@).contains(x) || (x
                == key@ && key@.len() > 0)),
        texts(old(keys)@).is_prefix_of(texts(final(keys)@)),
{
    if key.is_empty() || contains_text(keys, key) {
        assert(texts(keys@).take(texts(keys@).len() as int) =~= texts(keys@));
        return;
    }
    let ghost before = texts(keys@);
    keys.push(to_owned(key));
    assert(texts(keys@) =~= before.push(key@));
    assert forall|x: Seq<char>| #[trigger] texts(keys@).contains(x) <==> (before.contains(x) || (x
        == key@ && key@.len() > 0)) by {
        if texts(keys@).contains(x) {
            let k = choose|k: int| 0 <= k < texts(keys@).len() && texts(keys@)[k] == x;
            if k < before.len() {
                assert(before[k] == x);
            }
        }
        if before.contains(x) {
            let k = choose|k: int| 0 <= k < before.len() && before[k] == x;
            assert(texts(keys@)[k] == x);
        }
        if x == key@ {
            assert(texts(keys@)[before.len() as int] == x);
        }
    }
    assert(texts(keys@).take(before.len() as int) =~= before);
}

/// Removes `key` from the key set.
pub fn remove_import_key(keys: &mut Vec<String>, key: &str)
    requires
        texts(old(keys)@).no_duplicates(),
    ensures
        texts(final(keys)@).no_duplicates(),
        forall|x: Seq<char>|
            #[trigger] texts(final(keys)@).contains(x) <==> (texts(old(keys)@).contains(x) && x
                != key@),
{
    let ghost start = texts(keys@);
    let mut out: Vec<String> = Vec::new();
    let mut i: usize = 0;
    while i < keys.len()
        invariant
            i <= keys@.len(),
            start == texts(keys@),
            start.no_duplicates(),
            texts(out@).no_duplicates(),
            forall|x: Seq<char>|
                #[trigger] texts(out@).contains(x) <==> (start.take(i as int).contains(x) && x
                    != key@),
        decreases keys@.len() - i,
    {
        let ghost before = texts(out@);
        assert(forall|x: Seq<char>| #[trigger] before.contains(x) <==> (start.take(i as int).contains(x) && x != key@));
        let ghost item = start[i as int];
        assert(start.take(i + 1) =~= start.take(i as int).push(item));
        assert(!start.take(i as int).contains(item)) by {
            if start.take(i as int).contains(item) {
                let k = choose|k: int| 0 <= k < i && #[trigger] start.take(i as int)[k] == item;
                assert(start[k] == start[i as int]);
            }
        }
        if !str_eq(keys[i].as_str(), key) {
            out.push(keys[i].clone());
            assert(texts(out@) =~= before.push(item));
            assert(!before.contains(item));
            assert forall|x: Seq<char>| #[trigger] texts(out@).contains(x) <==> (start.take(
                i + 1,
            ).contains(x) && x != key@) by {
                if texts(out@).contains(x) {
                    let k = choose|k: int| 0 <= k < texts(out@).len() && texts(out@)[k] == x;
                    if k < before.len() {
                        assert(before[k] == x);
                        assert(before.contains(x));
                        assert(start.take(i as int).contains(x));
                        let w = choose|w: int| 0 <= w < i && #[trigger] start.take(i as int)[w] == x;
                        assert(start.take(i + 1)[w] == x);
                    } else {
                        assert(start.take(i + 1)[i as int] == x);
                    }
                }
                if start.take(i + 1).contains(x) && x != key@ {
                    let w = choose|w: int| 0 <= w <= i && #[trigger] start.take(i + 1)[w] == x;
                    if w < i {
                        assert(start.take(i as int)[w] == x);
                        assert(before.contains(x));
                        let k = choose|k: int| 0 <= k < before.len() && before[k] == x;
                        assert(texts(out@)[k] == x);
                    } else {
                        assert(texts(out@)[before.len() as int] == x);
                    }
                }
            }
        } else {
            assert forall|x: Seq<char>| #[trigger] texts(out@).contains(x) <==> (start.take(
                i + 1,
            ).contains(x) && x != key@) by {
                if texts(out@).contains(x) {
                    let w = choose|w: int| 0 <= w < i && #[trigger] start.take(i as int)[w] == x;
                    assert(start.take(i + 1)[w] == x);
                }
                if start.take(i + 1).contains(x) && x != key@ {
                    let w = choose|w: int| 0 <= w <= i && #[trigger] start.take(i + 1)[w] == x;
                    assert(w < i);
                    assert(start.take(i as int)[w] == x);
                }
            }
        }
        i += 1;
    }
    assert(start.take(keys@.len() as int) =~= start);
    *keys = out;
}

/// The deleted-import keys after `tracks` were deleted: their import keys
/// are added. Returns whether the set grew (and so must be saved).
pub fn remember_deleted_import_paths_for_tracks(keys: &mut Vec<String>, tracks: &[TrackSourcePaths]) -> (changed: bool)
    requires
        texts(old(keys)@).no_duplicates(),
    ensures
        texts(final(keys)@).no_duplicates(),
        forall|x: Seq<char>|
            #[trigger] texts(final(keys)@).contains(x) <==> (texts(old(keys)@).contains(x) || (
            x.len() > 0 && collected_import_keys(tracks@).contains(x))),
        changed == (texts(final(keys)@).len() != texts(old(keys)@).len()),
{
    let ghost start = texts(keys@);
    let start_len = keys.len();
    let mut i: usize = 0;
    while i < tracks.len()
        invariant
            i <= tracks@.len(),
            texts(keys@).no_duplicates(),
            forall|x: Seq<char>|
                #[trigger] texts(keys@).contains(x) <==> (start.contains(x) || (x.len() > 0
                    && collected_import_keys(tracks@.take(i as int)).contains(x))),
            start_len == start.len(),
        decreases tracks@.len() - i,
    {
        let s = present_key(&tracks[i].path);
        let o = present_key(&tracks[i].origin_path);
        insert_import_key(keys, s.as_str());
        insert_import_key(keys, o.as_str());
        proof {
            assert(tracks@.take(i + 1).drop_last() =~= tracks@.take(i as int));
            let prev = collected_import_keys(tracks@.take(i as int));
            let next = collected_import_keys(tracks@.take(i + 1));
            assert(next == with_import_keys(prev, s@, o@));
            assert forall|x: Seq<char>| #[trigger] next.contains(x) <==> (prev.contains(x) || (x
                == s@ && s@.len() > 0) || (x == o@ && o@.len() > 0)) by {
                let k1 = if s@.len() > 0 {
                    prev.push(s@)
                } else {
                    prev
                };
                if next.contains(x) {
                    let w = choose|w: int| 0 <= w < next.len() && next[w] == x;
                    if w < prev.len() {
                        assert(prev[w] == x);
                    } else if s@.len() > 0 && w == prev.len() {
                    } else {
                    }
                }
                if prev.contains(x) {
                    let w = choose|w: int| 0 <= w < prev.len() && prev[w] == x;
                    assert(k1[w] == x);
                    assert(next[w] == x);
                }
                if x == s@ && s@.len() > 0 {
                    assert(k1[prev.len() as int] == x);
                    assert(next[prev.len() as int] == x);
                }
                if x == o@ && o@.len() > 0 {
                    assert(next[next.len() - 1] == x);
                }
            }
        }
        i += 1;
    }
    assert(tracks@.take(tracks@.len() as int) =~= tracks@);
    keys.len() != start_len
}

/// The deleted-import keys after `tracks` were imported again: their import
/// keys are removed. Returns whether the set shrank (and so must be saved).
pub fn clear_deleted_import_paths_for_tracks(keys: &mut Vec<String>, tracks: &[TrackSourcePaths]) -> (changed: bool)
    requires
        texts(old(keys)@).no_duplicates(),
    ensures
        texts(final(keys)@).no_duplicates(),
        forall|x: Seq<char>|
            #[trigger] texts(final(keys)@).contains(x) <==> (texts(old(keys)@).contains(x) && !(
            x.len() > 0 && collected_import_keys(tracks@).contains(x))),
        changed == (texts(final(keys)@).len() != texts(old(keys)@).len()),
{
    let ghost start = texts(keys@);
    let start_len = keys.len();
    let mut i: usize = 0;
    while i < tracks.len()
        invariant
            i <= tracks@.len(),
            texts(keys@).no_duplicates(),
            forall|x: Seq<char>|
                #[trigger] texts(keys@).contains(x) <==> (start.contains(x) && !(x.len() > 0
                    && collected_import_keys(tracks@.take(i as int)).contains(x))),
            start_len == start.len(),
        decreases tracks@.len() - i,
    {
        let s = present_key(&tracks[i].path);
        let o = present_key(&tracks[i].origin_path);
        if !s.as_str().is_empty() {
            remove_import_key(keys, s.as_str());
        }
        if !o.as_str().is_empty() {
            remove_import_key(keys, o.as_str());
        }
        proof {
            assert(tracks@.take(i + 1).drop_last() =~= tracks@.take(i as int));
            let prev = collected_import_keys(tracks@.take(i as int));
            let next = collected_import_keys(tracks@.take(i + 1));
            assert(next == with_import_keys(prev, s@, o@));
            assert forall|x: Seq<char>| #[trigger] next.contains(x) <==> (prev.contains(x) || (x
                == s@ && s@.len() > 0) || (x == o@ && o@.len() > 0)) by {
                let k1 = if s@.len() > 0 {
                    prev.push(s@)
                } else {
                    prev
                };
                if next.contains(x) {
                    let w = choose|w: int| 0 <= w < next.len() && next[w] == x;
                    if w < prev.len() {
                        assert(prev[w] == x);
                    }
                }
                if prev.contains(x) {
                    let w = choose|w: int| 0 <= w < prev.len() && prev[w] == x;
                    assert(k1[w] == x);
                    assert(next[w] == x);
                }
                if x == s@ && s@.len() > 0 {
                    assert(k1[prev.len() as int] == x);
                    assert(next[prev.len() as int] == x);
                }
                if x == o@ && o@.len() > 0 {
                    assert(next[next.len() - 1] == x);
                }
            }
        }
        i += 1;
    }
    assert(tracks@.take(tracks@.len() as int) =~= tracks@);
    keys.len() != start_len
}

/// How many history entries a start-up snapshot loads unless asked.
pub const DEFAULT_BOOTSTRAP_HISTORY_LIMIT: usize = 100;

/// What a start-up snapshot loads, with the request's gaps filled in.
#[derive(Debug, Clone, Copy, PartialEq, Eq, Structural)]
pub struct BootstrapOptions {
    pub include_catalog_tracks: bool,
    pub include_playlist_track_relations: bool,
    pub warm_track_query_cache: bool,
    pub history_limit: usize,
}

/// The options of a start-up snapshot: catalog tracks only when asked,
/// playlist relations and a warm track cache unless declined, and the last
/// hundred history entries unless another, non-zero limit is given.
pub fn bootstrap_options(request: &DesktopBootstrapRequest) -> (r: BootstrapOptions)
    ensures
        r.include_catalog_tracks == (request.include_catalog_tracks == Some(true)),
        r.include_playlist_track_relations == (request.include_playlist_track_relations != Some(false)),
        r.warm_track_query_cache == (request.warm_track_query_cache != Some(false)),
        r.history_limit == match request.history_limit {
            Some(n) if n > 0 => n,
            _ => DEFAULT_BOOTSTRAP_HISTORY_LIMIT,
        },
{
    BootstrapOptions {
        include_catalog_tracks: match request.include_catalog_tracks {
            Some(b) => b,
            None => false,
        },
        include_playlist_track_relations: match request.include_playlist_track_relations {
            Some(b) => b,
            None => true,
        },
        warm_track_query_cache: match request.warm_track_query_cache {
            Some(b) => b,
            None => true,
        },
        history_limit: match request.history_limit {
            Some(n) => if n > 0 {
                n
            } else {
                DEFAULT_BOOTSTRAP_HISTORY_LIMIT
            },
            None => DEFAULT_BOOTSTRAP_HISTORY_LIMIT,
        },
    }
}

/// The row limit of the query that loads the most recent history entries:
/// `limit`, capped at `i64::MAX`, with zero standing for the default hundred.
pub fn history_query_limit(limit: usize) -> (r: i64)
    ensures
        r == if limit == 0 {
            DEFAULT_BOOTSTRAP_HISTORY_LIMIT as int
        } else if limit <= i64::MAX {
            limit as int
        } else {
            i64::MAX as int
        },
{
    if limit == 0 {
        DEFAULT_BOOTSTRAP_HISTORY_LIMIT as i64
    } else if limit as u128 <= i64::MAX as u128 {
        limit as i64
    } else {
        i64::MAX
    }
}

/// How long each step of a start-up snapshot took.
#[derive(Debug, Clone, Copy, Default)]
pub struct BootstrapStepTimes {
    pub connection_ms: u64,
    pub revisions_ms: u64,
    pub preferences_ms: u64,
    pub session_ms: u64,
    pub catalog_consistency_ms: u64,
    pub catalog_load_ms: u64,
    pub history_ms: u64,
    pub navigation_ms: u64,
    pub total_ms: u64,
}

/// The diagnostics of a start-up snapshot: the step times, the catalog
/// time as consistency plus load, the warm-up time as the consistency time
/// when the cache was warmed (else zero), and the sizes loaded. No catalog
/// cache is consulted, so it never hits and takes no time.
pub fn bootstrap_diagnostics(
    options: BootstrapOptions,
    times: BootstrapStepTimes,
    catalog_track_count: usize,
    catalog_relation_count: usize,
    track_cache_entries: usize,
    process: ProcessResourceDiagnostics,
    step_profiles: Vec<DiagnosticStepProfile>,
) -> (r: DesktopBootstrapDiagnostics)
    requires
        times.catalog_consistency_ms + times.catalog_load_ms <= u64::MAX,
    ensures
        r.connection_ms == times.connection_ms,
        r.revisions_ms == times.revisions_ms,
        r.preferences_ms == times.preferences_ms,
        r.session_ms == times.session_ms,
        !r.catalog_cache_hit,
        r.catalog_cache_ms == 0,
        r.catalog_consistency_ms == times.catalog_consistency_ms,
        r.catalog_load_ms == times.catalog_load_ms,
        r.catalog_ms == times.catalog_consistency_ms + times.catalog_load_ms,
        r.catalog_tracks_included == options.include_catalog_tracks,
        r.catalog_track_count == catalog_track_count,
        r.catalog_relation_count == catalog_relation_count,
        r.track_cache_warm_ms == (if options.warm_track_query_cache {
            times.catalog_consistency_ms
        } else {
            0
        }),
        r.track_cache_entries == track_cache_entries,
        r.history_ms == times.history_ms,
        r.navigation_ms == times.navigation_ms,
        r.total_ms == times.total_ms,
        r.process == process,
        r.step_profiles@ == step_profiles@,
{
    DesktopBootstrapDiagnostics {
        connection_ms: times.connection_ms,
        revisions_ms: times.revisions_ms,
        preferences_ms: times.preferences_ms,
        session_ms: times.session_ms,
        catalog_cache_hit: false,
        catalog_cache_ms: 0,
        catalog_consistency_ms: times.catalog_consistency_ms,
        catalog_load_ms: times.catalog_load_ms,
        catalog_ms: times.catalog_consistency_ms + times.catalog_load_ms,
        catalog_tracks_included: options.include_catalog_tracks,
        catalog_track_count,
        catalog_relation_count,
        track_cache_warm_ms: if options.warm_track_query_cache {
            times.catalog_consistency_ms
        } else {
            0
        },
        track_cache_entries,
        history_ms: times.history_ms,
        navigation_ms: times.navigation_ms,
        total_ms: times.total_ms,
        process,
        step_profiles,
    }
}

impl DesktopStateStore {
    /// The catalog was made consistent for a start-up snapshot. Returns
    /// whether the sortable track cache is to be (re)built now: always when
    /// the full catalog was loaded, else when warming was asked for and no
    /// cache is loaded. Either way the catalog counts as checked.
    pub fn complete_bootstrap_consistency(&mut self, options: BootstrapOptions) -> (rebuild: bool)
        ensures
            rebuild == (options.include_catalog_tracks || (options.warm_track_query_cache
                && !old(self).cache_ready())),
            final(self).database() == old(self).database(),
            final(self).consistency_checked(),
            final(self).cache_ready() == (old(self).cache_ready() || rebuild),
    {
        let rebuild = options.include_catalog_tracks || (options.warm_track_query_cache
            && !self.track_query_cache_ready);
        if rebuild {
            self.track_query_cache_ready = true;
        }
        self.catalog_consistency_checked = true;
        rebuild
    }

    /// The manifest of a start-up snapshot generated at `generated_at`.
    pub fn bootstrap_manifest_at(&self, revisions: &DesktopStateRevisions, generated_at: String) -> (r:
        DesktopBootstrapManifest)
        ensures
            r.version@ == DESKTOP_BOOTSTRAP_MANIFEST_VERSION@,
            r.generated_at@ == generated_at@,
            r.revisions == *revisions,
            r.catalog_consistency_checked == self.consistency_checked(),
            r.track_query_cache_ready == self.cache_ready(),
    {
        DesktopBootstrapManifest {
            version: to_owned(DESKTOP_BOOTSTRAP_MANIFEST_VERSION),
            generated_at,
            revisions: DesktopStateRevisions {
                catalog: revisions.catalog,
                navigation: revisions.navigation,
                history: revisions.history,
                preferences: revisions.preferences,
                session: revisions.session,
            },
            catalog_consistency_checked: self.catalog_consistency_checked,
            track_query_cache_ready: self.track_query_cache_ready,
        }
    }

    /// The manifest of a start-up snapshot, stamped with the current time
    /// (of which nothing is stated).
    pub fn load_bootstrap_manifest(&self, revisions: &DesktopStateRevisions) -> (r: DesktopBootstrapManifest)
        ensures
            r.version@ == DESKTOP_BOOTSTRAP_MANIFEST_VERSION@,
            r.revisions == *revisions,
            r.catalog_consistency_checked == self.consistency_checked(),
            r.track_query_cache_ready == self.cache_ready(),
    {
        self.bootstrap_manifest_at(revisions, crate::clock::current_iso_timestamp())
    }
}

/// The fields of a stored track that the local index check reads.
#[derive(Debug, Clone, Default)]
pub struct LocalTrackState {
    pub id: Option<String>,
    pub source_kind: Option<String>,
    pub indexed: Option<bool>,
    pub source_path: Option<String>,
}

/// `key` is the import key of one of `paths`.
pub open spec fn key_among(paths: Seq<Seq<char>>, key: Seq<char>) -> bool {
    exists|i: int| 0 <= i < paths.len() && normalized_import_path(#[trigger] paths[i]) == key
}

/// A track whose file a scan of `directories` should have found: an
/// indexed local file with a source path under one of the directories that
/// the scan did not discover. Whether its file is really gone is checked
/// on disk.
pub open spec fn is_invalidation_candidate(track: LocalTrackState, discovered: Seq<Seq<char>>, directories: Seq<Seq<char>>) -> bool {
    &&& present_seq(opt_text(track.source_kind)) == Some("native-file"@)
    &&& track.indexed == Some(true)
    &&& match present_seq(opt_text(track.source_path)) {
        Some(p) => {
            let key = normalized_import_path(p);
            &&& key.len() > 0
            &&& !key_among(discovered, key)
            &&& path_in_scan_directories(key, scan_directory_keys(directories))
        },
        None => false,
    }
}

/// The indices of the candidates among `tracks`, in order.
pub open spec fn invalidation_candidates_spec(tracks: Seq<LocalTrackState>, discovered: Seq<Seq<char>>, directories: Seq<Seq<char>>) -> Seq<int>
    decreases tracks.len(),
{
    if tracks.len() == 0 {
        seq![]
    } else {
        let before = invalidation_candidates_spec(tracks.drop_last(), discovered, directories);
        if is_invalidation_candidate(tracks.last(), discovered, directories) {
            before.push(tracks.len() - 1)
        } else {
            before
        }
    }
}

fn key_discovered(discovered: &Vec<String>, key: &str) -> (r: bool)
    ensures
        r == key_among(texts(discovered@), key@),
{
    let mut i: usize = 0;
    while i < discovered.len()
        invariant
            i <= discovered@.len(),
            forall|k: int| 0 <= k < i ==> normalized_import_path(#[trigger] texts(discovered@)[k]) != key@,
        decreases discovered@.len() - i,
    {
        let n = normalize_import_path(discovered[i].as_str());
        if str_eq(n.as_str(), key) {
            assert(normalized_import_path(texts(discovered@)[i as int]) == key@);
            return true;
        }
        i += 1;
    }
    false
}

/// The tracks whose files a scan should have found, by index, each with
/// the source path to look for on disk.
pub fn invalidation_candidates(
    tracks: &Vec<LocalTrackState>,
    discovered_paths: &Vec<String>,
    directories: &Vec<String>,
) -> (r: Vec<(usize, String)>)
    ensures
        r@.len() == invalidation_candidates_spec(tracks@, texts(discovered_paths@), texts(directories@)).len(),
        forall|k: int|
            0 <= k < r@.len() ==> (#[trigger] r@[k]).0 == invalidation_candidates_spec(
                tracks@,
                texts(discovered_paths@),
                texts(directories@),
            )[k] && Some(r@[k].1@) == present_seq(opt_text(tracks@[r@[k].0 as int].source_path)),
{
    proof {
        reveal_strlit("native-file");
    }
    let ghost disc = texts(discovered_paths@);
    let ghost dirs = texts(directories@);
    let keys = collect_normalized_scan_directories(directories.as_slice());
    let mut out: Vec<(usize, String)> = Vec::new();
    let mut i: usize = 0;
    while i < tracks.len()
        invariant
            i <= tracks@.len(),
            disc == texts(discovered_paths@),
            dirs == texts(directories@),
            texts(keys@) == scan_directory_keys(dirs),
            out@.len() == invalidation_candidates_spec(tracks@.take(i as int), disc, dirs).len(),
            forall|k: int|
                0 <= k < out@.len() ==> (#[trigger] out@[k]).0 == invalidation_candidates_spec(
                    tracks@.take(i as int),
                    disc,
                    dirs,
                )[k] && Some(out@[k].1@) == present_seq(opt_text(tracks@[out@[k].0 as int].source_path)),
            forall|k: int|
                0 <= k < invalidation_candidates_spec(tracks@.take(i as int), disc, dirs).len() ==> 0
                    <= #[trigger] invalidation_candidates_spec(tracks@.take(i as int), disc, dirs)[k] < i,
        decreases tracks@.len() - i,
    {
        assert(tracks@.take(i + 1).drop_last() =~= tracks@.take(i as int));
        assert(tracks@.take(i + 1).last() == tracks@[i as int]);
        let t = &tracks[i];
        let kind = normalized_optional_text(
            match &t.source_kind {
                Some(k) => Some(k.as_str()),
                None => None,
            },
        );
        let native = match &kind {
            Some(k) => str_eq(k.as_str(), "native-file"),
            None => false,
        };
        let indexed = match t.indexed {
            Some(b) => b,
            None => false,
        };
        if native && indexed {
            let path = normalized_optional_text(
                match &t.source_path {
                    Some(p) => Some(p.as_str()),
                    None => None,
                },
            );
            match path {
                Some(p) => {
                    let key = normalize_import_path(p.as_str());
                    if !key.as_str().is_empty() && !key_discovered(discovered_paths, key.as_str())
                        && path_matches_scan_directories(key.as_str(), keys.as_slice()) {
                        out.push((i, p));
                    }
                },
                None => {},
            }
        }
        i += 1;
    }
    assert(tracks@.take(tracks@.len() as int) =~= tracks@);
    out
}

pub const MISSING_TRACK_ID_ERROR: &'static str = "Missing string field 'id' on desktop track.";

/// The ids of the candidates whose files are gone (`file_exists[k]` tells
/// for candidate `k`), in order; `None` when such a track has no id.
pub open spec fn gone_track_ids(
    tracks: Seq<LocalTrackState>,
    candidates: Seq<(usize, String)>,
    file_exists: Seq<bool>,
) -> Option<Seq<Seq<char>>>
    decreases candidates.len(),
{
    if candidates.len() == 0 {
        Some(seq![])
    } else {
        let n = candidates.len() - 1;
        match gone_track_ids(tracks, candidates.drop_last(), file_exists.take(n)) {
            None => None,
            Some(ids) => if file_exists[n] {
                Some(ids)
            } else {
                match tracks[candidates[n].0 as int].id {
                    Some(id) => Some(ids.push(id@)),
                    None => None,
                }
            },
        }
    }
}

proof fn lemma_gone_track_ids_none(
    tracks: Seq<LocalTrackState>,
    candidates: Seq<(usize, String)>,
    file_exists: Seq<bool>,
    n: int,
)
    requires
        0 <= n < candidates.len(),
        candidates.len() == file_exists.len(),
        gone_track_ids(tracks, candidates.take(n + 1), file_exists.take(n + 1)) is None,
    ensures
        gone_track_ids(tracks, candidates, file_exists) is None,
    decreases candidates.len(),
{
    if n + 1 < candidates.len() {
        let m = candidates.len() - 1;
        assert(candidates.drop_last().take(n + 1) =~= candidates.take(n + 1));
        assert(file_exists.take(m).take(n + 1) =~= file_exists.take(n + 1));
        lemma_gone_track_ids_none(tracks, candidates.drop_last(), file_exists.take(m), n);
    } else {
        assert(candidates.take(n + 1) =~= candidates);
        assert(file_exists.take(n + 1) =~= file_exists);
    }
}

/// The ids of the tracks to drop from the index: the candidates whose files
/// are gone. A track without an id fails the check.
pub fn invalidated_track_ids(
    tracks: &Vec<LocalTrackState>,
    candidates: &Vec<(usize, String)>,
    file_exists: &Vec<bool>,
) -> (r: Result<Vec<String>, String>)
    requires
        candidates@.len() == file_exists@.len(),
        forall|k: int| 0 <= k < candidates@.len() ==> (#[trigger] candidates@[k]).0 < tracks@.len(),
    ensures
        match gone_track_ids(tracks@, candidates@, file_exists@) {
            Some(ids) => r matches Ok(v) && texts(v@) == ids,
            None => r matches Err(e) && e@ == MISSING_TRACK_ID_ERROR@,
        },
{
    let mut out: Vec<String> = Vec::new();
    let mut i: usize = 0;
    while i < candidates.len()
        invariant
            i <= candidates@.len(),
            candidates@.len() == file_exists@.len(),
            forall|k: int| 0 <= k < candidates@.len() ==> (#[trigger] candidates@[k]).0 < tracks@.len(),
            gone_track_ids(tracks@, candidates@.take(i as int), file_exists@.take(i as int)) == Some(texts(out@)),
        decreases candidates@.len() - i,
    {
        assert(candidates@.take(i + 1).drop_last() =~= candidates@.take(i as int));
        assert(file_exists@.take(i + 1).take(i as int) =~= file_exists@.take(i as int));
        assert(candidates@.take(i + 1).last() == candidates@[i as int]);
        assert(file_exists@.take(i + 1)[i as int] == file_exists@[i as int]);
        if !file_exists[i] {
            let index = candidates[i].0;
            match &tracks[index].id {
                Some(id) => {
                    let ghost before = out@;
                    out.push(id.clone());
                    assert(texts(out@) =~= texts(before).push(id@));
                },
                None => {
                    proof {
                        lemma_gone_track_ids_none(tracks@, candidates@, file_exists@, i as int);
                    }
                    return Err(to_owned(MISSING_TRACK_ID_ERROR));
                },
            }
        }
        i += 1;
    }
    assert(candidates@.take(candidates@.len() as int) =~= candidates@);
    assert(file_exists@.take(file_exists@.len() as int) =~= file_exists@);
    Ok(out)
}

/// Each text once, in the order it first occurs.
pub open spec fn first_occurrences(values: Seq<Seq<char>>) -> Seq<Seq<char>>
    decreases values.len(),
{
    if values.len() == 0 {
        seq![]
    } else {
        let before = first_occurrences(values.drop_last());
        if before.contains(values.last()) {
            before
        } else {
            before.push(values.last())
        }
    }
}

/// Each of `values` once, in the order it first occurs.
pub fn distinct_texts(values: &Vec<String>) -> (r: Vec<String>)
    ensures
        texts(r@) == first_occurrences(texts(values@)),
{
    let mut out: Vec<String> = Vec::new();
    let mut i: usize = 0;
    while i < values.len()
        invariant
            i <= values@.len(),
            texts(out@) == first_occurrences(texts(values@.take(i as int))),
        decreases values@.len() - i,
    {
        assert(texts(values@.take(i + 1)).drop_last() =~= texts(values@.take(i as int)));
        assert(texts(values@.take(i + 1)).last() == values@[i as int]@);
        if !contains_text(&out, values[i].as_str()) {
            let ghost before = out@;
            out.push(values[i].clone());
            assert(texts(out@) =~= texts(before).push(values@[i as int]@));
        }
        i += 1;
    }
    assert(values@.take(values@.len() as int) =~= values@);
    out
}

/// Texts in strictly increasing order.
pub open spec fn strictly_sorted(values: Seq<Seq<char>>) -> bool {
    forall|i: int, j: int| 0 <= i < j < values.len() ==> crate::text::text_lt(#[trigger] values[i], #[trigger] values[j])
}

/// `values` sorted, each once (a sort followed by a dedup).
pub fn sorted_unique_texts(values: &Vec<String>) -> (r: Vec<String>)
    ensures
        strictly_sorted(texts(r@)),
        forall|x: Seq<char>| #[trigger] texts(r@).contains(x) <==> texts(values@).contains(x),
{
    let mut out: Vec<String> = Vec::new();
    let mut i: usize = 0;
    while i < values.len()
        invariant
            i <= values@.len(),
            strictly_sorted(texts(out@)),
            forall|x: Seq<char>| #[trigger] texts(out@).contains(x) <==> texts(values@.take(i as int)).contains(x),
        decreases values@.len() - i,
    {
        let v = values[i].as_str();
        let ghost before = texts(out@);
        let ghost pre = texts(values@.take(i as int));
        let ghost cur = texts(values@.take(i + 1));
        let mut p: usize = 0;
        while p < out.len() && crate::text::text_less(out[p].as_str(), v)
            invariant
                p <= out@.len(),
                before == texts(out@),
                forall|k: int| 0 <= k < p ==> crate::text::text_lt(#[trigger] before[k], v@),
            decreases out@.len() - p,
        {
            p += 1;
        }
        assert(cur =~= pre.push(v@));
        if p < out.len() && str_eq(out[p].as_str(), v) {
            assert(before[p as int] == v@);
            assert forall|x: Seq<char>| #[trigger] texts(out@).contains(x) <==> cur.contains(x) by {
                if x == v@ {
                    assert(texts(out@)[p as int] == x);
                }
                if cur.contains(x) && x != v@ {
                    let w = choose|w: int| 0 <= w < cur.len() && cur[w] == x;
                    assert(pre[w] == x);
                }
                if cur.contains(x) || texts(out@).contains(x) {
                }
                if pre.contains(x) {
                    let w = choose|w: int| 0 <= w < pre.len() && pre[w] == x;
                    assert(cur[w] == x);
                }
            }
        } else {
            proof {
                if p < out@.len() {
                    crate::text::lemma_text_lt_order(before[p as int], v@, v@);
                    crate::text::lemma_text_lt_order(v@, before[p as int], v@);
                }
            }
            out.insert(p, values[i].clone());
            let ghost after = texts(out@);
            assert(after =~= before.insert(p as int, v@));
            assert forall|a: int, b: int| 0 <= a < b < after.len() implies crate::text::text_lt(#[trigger] after[a], #[trigger] after[b]) by {
                if b < p {
                    assert(after[a] == before[a] && after[b] == before[b]);
                } else if b == p {
                    assert(after[a] == before[a]);
                } else if a < p {
                    assert(after[a] == before[a] && after[b] == before[b - 1]);
                    crate::text::lemma_text_lt_order(before[a], v@, before[b - 1]);
                    if b - 1 > p {
                        crate::text::lemma_text_lt_order(v@, before[p as int], before[b - 1]);
                    }
                } else if a == p {
                    assert(after[b] == before[b - 1]);
                    if b - 1 > p {
                        crate::text::lemma_text_lt_order(v@, before[p as int], before[b - 1]);
                    }
                } else {
                    assert(after[a] == before[a - 1] && after[b] == before[b - 1]);
                }
            }
            assert forall|x: Seq<char>| #[trigger] after.contains(x) <==> cur.contains(x) by {
                if after.contains(x) {
                    let w = choose|w: int| 0 <= w < after.len() && after[w] == x;
                    if w < p {
                        assert(before[w] == x);
                    } else if w > p {
                        assert(before[w - 1] == x);
                    }
                    if x != v@ {
                        assert(before.contains(x));
                        let u = choose|u: int| 0 <= u < pre.len() && pre[u] == x;
                        assert(cur[u] == x);
                    } else {
                        assert(cur[i as int] == x);
                    }
                }
                if cur.contains(x) {
                    if x == v@ {
                        assert(after[p as int] == x);
                    } else {
                        let u = choose|u: int| 0 <= u < cur.len() && cur[u] == x;
                        assert(pre[u] == x);
                        assert(before.contains(x));
                        let w = choose|w: int| 0 <= w < before.len() && before[w] == x;
                        if w < p {
                            assert(after[w] == x);
                        } else {
                            assert(after[w + 1] == x);
                        }
                    }
                }
            }
        }
        i += 1;
    }
    assert(values@.take(values@.len() as int) =~= values@);
    out
}

} // verus!
