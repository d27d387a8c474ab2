//! The requests and results of the desktop state commands.
use vstd::prelude::*;
use crate::diagnostics::{DiagnosticStepProfile, ProcessResourceDiagnostics};

verus! {

/// What catalog snapshot to load: how much track artwork to attach.
#[derive(Debug, Clone, Default)]
pub struct CatalogLoadSnapshotRequest {
    pub track_artwork_mode: Option<String>,
}

/// A track to look up.
#[derive(Debug, Clone, Default)]
pub struct TrackLookupRequest {
    pub track_id: String,
    pub include_artwork: Option<bool>,
}

/// Records to delete by id.
#[derive(Debug, Clone, Default)]
pub struct DeleteRecordsRequest {
    pub ids: Vec<String>,
}

/// How much playback history to load.
#[derive(Debug, Clone, Default)]
pub struct HistoryLoadRequest {
    pub limit: usize,
}

/// The scope of listening statistics.
#[derive(Debug, Clone, Default)]
pub struct ListeningStatsRequest {
    pub library_id: Option<String>,
    pub days: Option<usize>,
    pub track_limit: Option<usize>,
    pub album_limit: Option<usize>,
    pub album_track_limit: Option<usize>,
    pub timezone_offset_minutes: Option<i32>,
}

/// A new session queue.
#[derive(Debug, Clone, Default)]
pub struct SessionQueueRequest {
    pub track_ids: Vec<String>,
}

/// A playlist to create in a library.
#[derive(Debug, Clone, Default)]
pub struct PlaylistCreateRequest {
    pub library_id: String,
    pub name: String,
}

/// A playlist to rename.
#[derive(Debug, Clone, Default)]
pub struct PlaylistRenameRequest {
    pub playlist_id: String,
    pub name: String,
}

/// A playlist to delete.
#[derive(Debug, Clone, Default)]
pub struct PlaylistDeleteRequest {
    pub playlist_id: String,
}

/// The new order of a library's playlists.
#[derive(Debug, Clone, Default)]
pub struct PlaylistReorderRequest {
    pub library_id: String,
    pub ordered_playlist_ids: Vec<String>,
}

/// A track to add to a playlist, optionally at a position.
#[derive(Debug, Clone, Default)]
pub struct PlaylistTrackMutationRequest {
    pub playlist_id: String,
    pub track_id: String,
    pub index: Option<usize>,
}

/// A track to remove from a playlist.
#[derive(Debug, Clone, Default)]
pub struct PlaylistTrackRemoveRequest {
    pub playlist_id: String,
    pub track_id: String,
}

/// The new order of a playlist's tracks.
#[derive(Debug, Clone, Default)]
pub struct PlaylistTrackReorderRequest {
    pub playlist_id: String,
    pub ordered_track_ids: Vec<String>,
}

/// A library to create.
#[derive(Debug, Clone, Default)]
pub struct LibraryCreateRequest {
    pub name: String,
}

/// A library to rename.
#[derive(Debug, Clone, Default)]
pub struct LibraryRenameRequest {
    pub library_id: String,
    pub name: String,
}

/// A library to delete.
#[derive(Debug, Clone, Default)]
pub struct LibraryDeleteRequest {
    pub library_id: String,
}

/// The new order of the libraries.
#[derive(Debug, Clone, Default)]
pub struct LibraryReorderRequest {
    pub ordered_library_ids: Vec<String>,
}

/// A track to delete from its library.
#[derive(Debug, Clone, Default)]
pub struct TrackDeleteRequest {
    pub track_id: String,
}

/// Tracks to delete from their libraries.
#[derive(Debug, Clone, Default)]
pub struct TrackBatchDeleteRequest {
    pub track_ids: Vec<String>,
}

/// A track's new favorite flag.
#[derive(Debug, Clone, Default)]
pub struct TrackFavoriteRequest {
    pub track_id: String,
    pub is_favorite: bool,
}

/// One file offered for import.
#[derive(Debug, Clone, Default)]
pub struct LibraryImportFileInput {
    pub source_path: String,
    pub file_name: Option<String>,
    pub original_path: Option<String>,
}

/// Files offered for import into a library.
#[derive(Debug, Clone, Default)]
pub struct LibraryImportCandidatesRequest {
    pub library_id: String,
    pub files: Vec<LibraryImportFileInput>,
    pub respect_deleted_import_paths: Option<bool>,
}

/// A rescan of local directories: what was found where.
#[derive(Debug, Clone, Default)]
pub struct LocalIndexInvalidationRequest {
    pub library_id: String,
    pub directories: Vec<String>,
    pub discovered_paths: Vec<String>,
}

/// The library and collection the user last had open.
#[derive(Debug, Clone, Default)]
pub struct NavigationQueryRequest {
    pub active_library: Option<String>,
    pub active_collection_ref: Option<String>,
}

/// A page of a collection's tracks, filtered and sorted.
#[derive(Debug, Clone, Default)]
pub struct CollectionTrackQueryRequest {
    pub active_library: Option<String>,
    pub active_collection_ref: Option<String>,
    pub search_query: String,
    pub type_filter: String,
    pub sort_option: String,
    pub offset: Option<usize>,
    pub limit: Option<usize>,
    pub include_track_ids: Option<bool>,
}

/// Timings of a navigation summary.
#[derive(Debug, Clone, Default)]
pub struct NavigationQueryDiagnostics {
    pub command_lock_wait_ms: u64,
    pub library_counts_ms: u64,
    pub collection_ids_ms: u64,
    pub playlist_counts_ms: u64,
    pub smart_counts_ms: u64,
    pub total_ms: u64,
    pub process: ProcessResourceDiagnostics,
    pub step_profiles: Vec<DiagnosticStepProfile>,
}

/// The navigation summary: the active library and collection and the track counts of each library, playlist and smart collection (as key and count pairs, each key once).
#[derive(Debug, Clone, Default)]
pub struct NavigationQueryResult {
    pub active_library: Option<String>,
    pub active_collection_key: Option<String>,
    pub library_track_counts: Vec<(String, usize)>,
    pub playlist_track_counts: Vec<(String, usize)>,
    pub smart_collection_counts: Vec<(String, usize)>,
    pub diagnostics: NavigationQueryDiagnostics,
}

/// What the desktop start-up snapshot should include.
#[derive(Debug, Clone, Default)]
pub struct DesktopBootstrapRequest {
    pub history_limit: Option<usize>,
    pub include_catalog_tracks: Option<bool>,
    pub include_playlist_track_relations: Option<bool>,
    pub warm_track_query_cache: Option<bool>,
}

/// Timings and sizes of the desktop start-up snapshot.
#[derive(Debug, Clone, Default)]
pub struct DesktopBootstrapDiagnostics {
    pub connection_ms: u64,
    pub revisions_ms: u64,
    pub preferences_ms: u64,
    pub session_ms: u64,
    pub catalog_cache_hit: bool,
    pub catalog_cache_ms: u64,
    pub catalog_consistency_ms: u64,
    pub catalog_load_ms: u64,
    pub catalog_ms: u64,
    pub catalog_tracks_included: bool,
    pub catalog_track_count: usize,
    pub catalog_relation_count: usize,
    pub track_cache_warm_ms: u64,
    pub track_cache_entries: usize,
    pub history_ms: u64,
    pub navigation_ms: u64,
    pub total_ms: u64,
    pub process: ProcessResourceDiagnostics,
    pub step_profiles: Vec<DiagnosticStepProfile>,
}

/// The revision counter of each part of the desktop state.
#[derive(Debug, Clone, Default)]
pub struct DesktopStateRevisions {
    pub catalog: u64,
    pub navigation: u64,
    pub history: u64,
    pub preferences: u64,
    pub session: u64,
}

/// What the start-up snapshot was built from.
#[derive(Debug, Clone, Default)]
pub struct DesktopBootstrapManifest {
    pub version: String,
    pub generated_at: String,
    pub revisions: DesktopStateRevisions,
    pub catalog_consistency_checked: bool,
    pub track_query_cache_ready: bool,
}

/// What a full reset removed besides the database.
#[derive(Debug, Clone, Default)]
pub struct DesktopStateResetResult {
    pub managed_storage_deleted: bool,
    pub managed_storage_path: Option<String>,
}

/// What one storage clean-up step removed.
#[derive(Debug, Clone, Default)]
pub struct StorageGarbageCollectionItem {
    pub key: String,
    pub removed_bytes: u64,
    pub removed_files: usize,
    pub removed_directories: usize,
    pub compacted_bytes: u64,
}

} // verus!
