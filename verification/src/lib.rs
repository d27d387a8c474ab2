use vstd::prelude::*;

pub mod text;
pub mod audio_formats;
pub mod artwork;
pub mod clock;
pub mod dsd;
pub mod diagnostics;
pub mod mobile_handoff;
pub mod capsule_artwork_cache;
pub mod capsule_state;
pub mod capsule_meter;
pub mod capsule_mouse;
pub mod library_import_jobs;
pub mod import_pipeline;
pub mod desktop_types;
pub mod catalog_db;
pub mod desktop_state;
pub mod navigation;
pub mod remote_url;
pub mod external_sources;
pub mod webdav_xml;
pub mod webdav_scan;
pub mod subsonic_listing;
pub mod playback_source;
pub mod playlist_ops;
pub mod session_queue;
pub mod window_profile;
pub mod playback_requests;
pub mod lyrics;
pub mod lrc;
pub mod text_bytes;
pub mod sidecar_match;
pub mod sidecar_search;
pub mod metadata;

verus! {
} // verus!
