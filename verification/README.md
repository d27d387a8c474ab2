# ofplayer

The core of a desktop music player, written in Verus: the rules, parsers and
state machines of the player, each with a contract that the verifier proves.

## Layout

- `src/` — the verified library (`ofplayer`). Among its modules:
  - `audio_formats`, `metadata`, `artwork` — which files and content types
    play, their MIME types, embedded pictures and data URLs;
  - `lrc`, `lyrics`, `sidecar_match`, `sidecar_search`, `text_bytes` — lyric
    parsing and timing, and the search for lyric files beside a track;
  - `catalog_db`, `desktop_state`, `navigation`, `playlist_ops`,
    `session_queue` — the catalog, its repairs, navigation counts, collections
    and the playback queue;
  - `library_import_jobs`, `import_pipeline` — import jobs and the stage
    decisions of an import;
  - `external_sources`, `remote_url`, `webdav_xml`, `webdav_scan`,
    `subsonic_listing`, `playback_source` — WebDAV and Subsonic libraries and
    the download of remote tracks;
  - `capsule_*`, `dsd`, `clock`, `diagnostics` and others.
  Calls into `url`, `quick-xml`, `base64`, `chrono`, `uuid` and parts of std
  go through small trusted wrappers whose contracts say what those calls
  return.
- `tests/` — tests of the library on concrete values.
- `app/` — the outer layer that Verus does not see: the SQLite database, HTTP
  requests, the file system and the few floating-point computations. It hands
  the library plain values and carries out what the library decides.

Run the verifier on `src/lib.rs`; the tests and `app/` build as ordinary
Rust against the library.
