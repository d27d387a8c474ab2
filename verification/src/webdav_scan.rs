//! A WebDAV library scan as a state machine: the caller asks which folder
//! to list next, performs the PROPFIND request, and hands the parsed entries
//! back; the scan decides which entries are folders to visit, which are audio
//! tracks, and what is skipped, and keeps the tracks ordered by remote id.
use vstd::prelude::*;
use crate::audio_formats::{
    is_supported_audio_content_type, is_supported_audio_extension, normalized_content_type,
    normalized_extension, supported_content_types, supported_extensions,
};
use crate::external_sources::{
    basename_from_url, decoded_segments, directory_parts, extension_from_name, file_extension,
    in_url_scope, infer_webdav_track_metadata, inferred_webdav_tags, limit_reached,
    relative_directories, remember_webdav_request_profile, resolve_webdav_entry_url,
    retained_profiles, same_listing_counts, same_url_scope, sanitize_track_title, sanitized_track_title, slowest_first,
    url_basename, with_directory_trailing_slash, ExternalRequestDiagnostics,
    ExternalTrackListDiagnostics, PROVIDER_WEBDAV, WEBDAV_RETAINED_REQUEST_PROFILES,
    WEBDAV_SCAN_CONCURRENCY,
};
use crate::remote_url::{copy_url, url_join_parts, url_parse_parts, ParsedUrl, UrlParts};
use crate::text::{contains_text, one_of, str_eq, text_less, text_lt, texts, to_owned, trim, trim_seq};
use crate::webdav_xml::WebDavEntry;
use std::collections::VecDeque;

verus! {

/// A remote audio file found by a scan, with the tags guessed for it.
#[derive(Debug, Clone)]
pub struct RemoteTrackRecord {
    pub remote_id: String,
    pub title: String,
    pub artist: String,
    pub album_artist: String,
    pub album: String,
    pub track_number: u32,
    pub file_name: String,
    pub file_size: u64,
    pub format: String,
    pub mime_type: String,
    pub imported_at: Option<String>,
    pub etag: String,
    pub content_type: String,
}

/// The text of a `RemoteTrackRecord`.
pub struct RemoteTrackView {
    pub remote_id: Seq<char>,
    pub title: Seq<char>,
    pub artist: Seq<char>,
    pub album_artist: Seq<char>,
    pub album: Seq<char>,
    pub track_number: u32,
    pub file_name: Seq<char>,
    pub file_size: u64,
    pub format: Seq<char>,
    pub mime_type: Seq<char>,
    pub imported_at: Option<Seq<char>>,
    pub etag: Seq<char>,
    pub content_type: Seq<char>,
}

impl View for RemoteTrackRecord {
    type V = RemoteTrackView;

    open spec fn view(&self) -> RemoteTrackView {
        RemoteTrackView {
            remote_id: self.remote_id@,
            title: self.title@,
            artist: self.artist@,
            album_artist: self.album_artist@,
            album: self.album@,
            track_number: self.track_number,
            file_name: self.file_name@,
            file_size: self.file_size,
            format: self.format@,
            mime_type: self.mime_type@,
            imported_at: crate::text::opt_text(self.imported_at),
            etag: self.etag@,
            content_type: self.content_type@,
        }
    }
}

/// The URL of an entry: its href resolved against the root (else parsed on
/// its own), made a directory when the entry is a collection.
pub open spec fn resolved_entry_parts(root: UrlParts, entry: WebDavEntry) -> Option<UrlParts> {
    let resolved = match url_join_parts(root.0, entry.href@) {
        Some(j) => Some(j),
        None => url_parse_parts(entry.href@),
    };
    match resolved {
        Some(p) => Some(
            if entry.is_collection {
                directory_parts(p)
            } else {
                p
            },
        ),
        None => None,
    }
}

/// The file name of an entry: its display name, else the last segment of
/// its URL.
pub open spec fn entry_file_name(entry: WebDavEntry, url: UrlParts) -> Seq<char> {
    if entry.display_name@.len() == 0 {
        url_basename(url.4)
    } else {
        entry.display_name@
    }
}

/// A file is audio when its content type or its extension is one that the
/// player decodes.
pub open spec fn audio_resource(file_name: Seq<char>, content_type: Seq<char>) -> bool {
    one_of(normalized_content_type(content_type), supported_content_types()) || one_of(
        normalized_extension(file_extension(file_name)),
        supported_extensions(),
    )
}

/// Text that is kept only when something is left after trimming.
pub open spec fn trimmed_or_none(value: Seq<char>) -> Option<Seq<char>> {
    if trim_seq(value).len() == 0 {
        None
    } else {
        Some(trim_seq(value))
    }
}

/// The track a WebDAV audio file stands for: its URL is its id, the tags
/// are guessed from its folders and name (the title falling back to the
/// file's stem), and size, types, tag and date come from the entry.
pub open spec fn webdav_track(root: UrlParts, url: UrlParts, entry: WebDavEntry, file_name: Seq<char>) -> RemoteTrackView {
    let t = inferred_webdav_tags(
        relative_directories(decoded_segments(root.4), decoded_segments(url.4)),
        file_name,
    );
    RemoteTrackView {
        remote_id: url.0,
        title: if trim_seq(t.0).len() == 0 {
            sanitized_track_title(file_name)
        } else {
            t.0
        },
        artist: t.1,
        album_artist: t.2,
        album: t.3,
        track_number: t.4,
        file_name: file_name,
        file_size: entry.content_length,
        format: file_extension(file_name),
        mime_type: entry.content_type@,
        imported_at: trimmed_or_none(entry.modified_at@),
        etag: entry.etag@,
        content_type: entry.content_type@,
    }
}

/// Whether `file_name` with `content_type` is an audio file.
pub fn is_audio_resource(file_name: &str, content_type: &str) -> (r: bool)
    ensures
        r == audio_resource(file_name@, content_type@),
{
    if is_supported_audio_content_type(content_type) {
        return true;
    }
    let extension = extension_from_name(file_name);
    is_supported_audio_extension(extension.as_str())
}

fn optional_trimmed(value: &str) -> (r: Option<String>)
    ensures
        crate::text::opt_text(r) == trimmed_or_none(value@),
{
    let t = trim(value);
    if t.as_str().is_empty() {
        None
    } else {
        Some(t)
    }
}

/// The record of a WebDAV audio file at `entry_url`, named `file_name`.
pub fn build_webdav_track(root_url: &ParsedUrl, entry_url: &ParsedUrl, entry: &WebDavEntry, file_name: &str) -> (r:
    RemoteTrackRecord)
    ensures
        r@ == webdav_track(root_url.parts(), entry_url.parts(), *entry, file_name@),
{
    let inferred = infer_webdav_track_metadata(root_url, entry_url, file_name);
    let title_blank = trim(inferred.title.as_str()).as_str().is_empty();
    let title = if title_blank {
        sanitize_track_title(file_name)
    } else {
        inferred.title
    };
    RemoteTrackRecord {
        remote_id: to_owned(entry_url.as_str()),
        title,
        artist: inferred.artist,
        album_artist: inferred.album_artist,
        album: inferred.album,
        track_number: inferred.track_number,
        file_name: to_owned(file_name),
        file_size: entry.content_length,
        format: extension_from_name(file_name),
        mime_type: entry.content_type.clone(),
        imported_at: optional_trimmed(entry.modified_at.as_str()),
        etag: entry.etag.clone(),
        content_type: entry.content_type.clone(),
    }
}

/// How many leading tracks do not sort after `id`: where a track with that
/// id goes so that equal ids keep the order in which they were found.
pub open spec fn insert_position(tracks: Seq<RemoteTrackView>, id: Seq<char>) -> int
    decreases tracks.len(),
{
    if tracks.len() == 0 || text_lt(id, tracks[0].remote_id) {
        0
    } else {
        1 + insert_position(tracks.drop_first(), id)
    }
}

/// `tracks` with `track` put in its place by remote id.
pub open spec fn insert_by_id(tracks: Seq<RemoteTrackView>, track: RemoteTrackView) -> Seq<RemoteTrackView> {
    tracks.insert(insert_position(tracks, track.remote_id), track)
}

/// The tracks are ordered by remote id.
pub open spec fn ordered_by_id(tracks: Seq<RemoteTrackView>) -> bool {
    forall|i: int, j: int|
        0 <= i < j < tracks.len() ==> !text_lt(#[trigger] tracks[j].remote_id, #[trigger] tracks[i].remote_id)
}

proof fn lemma_insert_position(tracks: Seq<RemoteTrackView>, id: Seq<char>)
    ensures
        0 <= insert_position(tracks, id) <= tracks.len(),
        forall|k: int| 0 <= k < insert_position(tracks, id) ==> !text_lt(id, #[trigger] tracks[k].remote_id),
        insert_position(tracks, id) < tracks.len() ==> text_lt(id, tracks[insert_position(tracks, id)].remote_id),
    decreases tracks.len(),
{
    if tracks.len() > 0 && !text_lt(id, tracks[0].remote_id) {
        lemma_insert_position(tracks.drop_first(), id);
        assert forall|k: int| 0 <= k < insert_position(tracks, id) implies !text_lt(id, #[trigger] tracks[k].remote_id) by {
            if k > 0 {
                assert(tracks[k] == tracks.drop_first()[k - 1]);
            }
        }
    }
}

/// Putting a track in its place keeps the tracks ordered.
pub proof fn lemma_insert_by_id_ordered(tracks: Seq<RemoteTrackView>, track: RemoteTrackView)
    requires
        ordered_by_id(tracks),
    ensures
        ordered_by_id(insert_by_id(tracks, track)),
{
    lemma_insert_position(tracks, track.remote_id);
    let p = insert_position(tracks, track.remote_id);
    let g = insert_by_id(tracks, track);
    assert forall|i: int, j: int| 0 <= i < j < g.len() implies !text_lt(#[trigger] g[j].remote_id, #[trigger] g[i].remote_id) by {
        if j < p {
            assert(g[i] == tracks[i] && g[j] == tracks[j]);
        } else if j == p {
            assert(g[i] == tracks[i]);
            crate::text::lemma_text_lt_order(track.remote_id, tracks[i].remote_id, tracks[i].remote_id);
            if tracks[i].remote_id == track.remote_id {
            } else {
                crate::text::lemma_text_lt_order(tracks[i].remote_id, track.remote_id, tracks[i].remote_id);
            }
        } else if i < p {
            assert(g[i] == tracks[i] && g[j] == tracks[j - 1]);
        } else if i == p {
            assert(g[j] == tracks[j - 1]);
            let a = track.remote_id;
            let b = tracks[p].remote_id;
            let c = tracks[j - 1].remote_id;
            crate::text::lemma_text_lt_order(a, b, c);
            crate::text::lemma_text_lt_order(c, a, b);
            crate::text::lemma_text_lt_order(b, c, a);
            crate::text::lemma_text_lt_order(a, c, b);
            if j - 1 > p {
                assert(!text_lt(c, b));
            }
        } else {
            assert(g[i] == tracks[i - 1] && g[j] == tracks[j - 1]);
        }
    }
}

/// The part of a scan that the entries of a listing change.
pub struct ListingView {
    pub queue: Seq<UrlParts>,
    pub scheduled: Seq<Seq<char>>,
    pub tracks: Seq<RemoteTrackView>,
    pub collections_seen: int,
    pub directories_queued: int,
    pub duplicate_directory_count: int,
    pub files_seen: int,
    pub non_audio_files_skipped: int,
    pub audio_files_seen: int,
}

/// What one entry of the listing of `current` does to a scan under `root`;
/// `None` when its URL cannot be resolved. The folder itself and anything
/// outside the root are passed over; a folder is queued unless it was
/// queued before; a file is counted, and kept as a track when it is audio.
pub open spec fn entry_step(v: ListingView, root: UrlParts, current: Seq<char>, entry: WebDavEntry) -> Option<ListingView> {
    match resolved_entry_parts(root, entry) {
        None => None,
        Some(url) => Some(
            if url.0 == current || !in_url_scope(root, url) {
                v
            } else if entry.is_collection {
                if v.scheduled.contains(url.0) {
                    ListingView {
                        collections_seen: v.collections_seen + 1,
                        duplicate_directory_count: v.duplicate_directory_count + 1,
                        ..v
                    }
                } else {
                    ListingView {
                        queue: v.queue.push(url),
                        scheduled: v.scheduled.push(url.0),
                        collections_seen: v.collections_seen + 1,
                        directories_queued: v.directories_queued + 1,
                        ..v
                    }
                }
            } else if !audio_resource(entry_file_name(entry, url), entry.content_type@) {
                ListingView {
                    files_seen: v.files_seen + 1,
                    non_audio_files_skipped: v.non_audio_files_skipped + 1,
                    ..v
                }
            } else {
                ListingView {
                    tracks: insert_by_id(
                        v.tracks,
                        webdav_track(root, url, entry, entry_file_name(entry, url)),
                    ),
                    files_seen: v.files_seen + 1,
                    audio_files_seen: v.audio_files_seen + 1,
                    ..v
                }
            },
        ),
    }
}

/// Whether `count` reaches `limit`.
pub open spec fn limit_hit(count: int, limit: Option<usize>) -> bool {
    match limit {
        Some(l) => count >= l,
        None => false,
    }
}

/// The entries of a listing, taken in order: the first whose URL cannot be
/// resolved fails the listing, and a track that reaches the limit ends it.
pub open spec fn listing_steps(
    v: ListingView,
    root: UrlParts,
    current: Seq<char>,
    entries: Seq<WebDavEntry>,
    limit: Option<usize>,
) -> Option<ListingView>
    decreases entries.len(),
{
    if entries.len() == 0 {
        Some(v)
    } else {
        match entry_step(v, root, current, entries[0]) {
            None => None,
            Some(w) => if w.tracks.len() > v.tracks.len() && limit_hit(w.tracks.len() as int, limit) {
                Some(w)
            } else {
                listing_steps(w, root, current, entries.drop_first(), limit)
            },
        }
    }
}

/// How many folders at the head of the queue were listed already.
pub open spec fn listed_prefix(queue: Seq<UrlParts>, seen: Seq<Seq<char>>) -> nat
    decreases queue.len(),
{
    if queue.len() > 0 && seen.contains(queue[0].0) {
        1 + listed_prefix(queue.drop_first(), seen)
    } else {
        0
    }
}

/// A WebDAV scan in progress.
pub struct WebDavScan {
    root_url: ParsedUrl,
    limit: Option<usize>,
    queue: VecDeque<ParsedUrl>,
    scheduled: Vec<String>,
    seen: Vec<String>,
    tracks: Vec<RemoteTrackRecord>,
    diagnostics: ExternalTrackListDiagnostics,
    failed: bool,
}

impl WebDavScan {
    /// The root folder.
    pub closed spec fn root(&self) -> UrlParts {
        self.root_url.parts()
    }

    /// The track limit.
    pub closed spec fn limit(&self) -> Option<usize> {
        self.limit
    }

    /// The folders that were handed out for listing.
    pub closed spec fn seen(&self) -> Seq<Seq<char>> {
        texts(self.seen@)
    }

    /// The diagnostics so far.
    pub closed spec fn diagnostics(&self) -> ExternalTrackListDiagnostics {
        self.diagnostics
    }

    /// Whether a request failed, which ends the scan.
    pub closed spec fn failed(&self) -> bool {
        self.failed
    }

    /// The queue, the queued folders, the tracks and their counts.
    pub closed spec fn listing_view(&self) -> ListingView {
        ListingView {
            queue: self.queue@.map_values(|u: ParsedUrl| u.parts()),
            scheduled: texts(self.scheduled@),
            tracks: self.tracks@.map_values(|t: RemoteTrackRecord| t@),
            collections_seen: self.diagnostics.collections_seen as int,
            directories_queued: self.diagnostics.directories_queued as int,
            duplicate_directory_count: self.diagnostics.duplicate_directory_count as int,
            files_seen: self.diagnostics.files_seen as int,
            non_audio_files_skipped: self.diagnostics.non_audio_files_skipped as int,
            audio_files_seen: self.diagnostics.audio_files_seen as int,
        }
    }

    /// The scan's invariant: tracks ordered by remote id, and the kept
    /// request profiles few and ordered from the slowest.
    pub closed spec fn wf(&self) -> bool {
        &&& ordered_by_id(self.tracks@.map_values(|t: RemoteTrackRecord| t@))
        &&& self.diagnostics.slow_requests@.len() <= WEBDAV_RETAINED_REQUEST_PROFILES
        &&& slowest_first(self.diagnostics.slow_requests@)
    }

    /// Every count can still grow by `n + 1`.
    pub open spec fn room(&self, n: nat) -> bool {
        let d = self.diagnostics();
        &&& d.request_count + n < usize::MAX
        &&& d.failed_request_count + n < usize::MAX
        &&& d.directories_scanned + n < usize::MAX
        &&& d.entries_seen + n < usize::MAX
        &&& self.listing_room(n)
    }

    /// Every count of the listing view can still grow by `n + 1`.
    pub open spec fn listing_room(&self, n: nat) -> bool {
        let d = self.diagnostics();
        &&& d.directories_queued + n < usize::MAX
        &&& d.duplicate_directory_count + n < usize::MAX
        &&& d.collections_seen + n < usize::MAX
        &&& d.files_seen + n < usize::MAX
        &&& d.audio_files_seen + n < usize::MAX
        &&& d.non_audio_files_skipped + n < usize::MAX
    }

    /// The counts of the listing view are those of the diagnostics.
    pub proof fn lemma_listing_counts(&self)
        ensures
            self.listing_view().collections_seen == self.diagnostics().collections_seen,
            self.listing_view().directories_queued == self.diagnostics().directories_queued,
            self.listing_view().duplicate_directory_count == self.diagnostics().duplicate_directory_count,
            self.listing_view().files_seen == self.diagnostics().files_seen,
            self.listing_view().non_audio_files_skipped == self.diagnostics().non_audio_files_skipped,
            self.listing_view().audio_files_seen == self.diagnostics().audio_files_seen,
    {
    }

    /// Whether every count can still grow by `n + 1`.
    pub fn has_room(&self, n: usize) -> (r: bool)
        ensures
            r == self.room(n as nat),
    {
        let d = &self.diagnostics;
        let m = usize::MAX - n;
        d.request_count < m && d.failed_request_count < m && d.directories_scanned < m
            && d.directories_queued < m && d.duplicate_directory_count < m && d.entries_seen < m
            && d.collections_seen < m && d.files_seen < m && d.audio_files_seen < m
            && d.non_audio_files_skipped < m
    }

    /// How many folders wait to be listed.
    pub fn pending_directories(&self) -> (r: usize)
        ensures
            r == self.listing_view().queue.len(),
    {
        self.queue.len()
    }

    /// A scan of the folders under `root_url`, the root queued.
    pub fn new(root_url: ParsedUrl, limit: Option<usize>) -> (r: Self)
        ensures
            r.wf(),
            r.root() == root_url.parts(),
            r.limit() == limit,
            r.seen() == Seq::<Seq<char>>::empty(),
            r.listing_view() == (ListingView {
                queue: seq![root_url.parts()],
                scheduled: seq![root_url.parts().0],
                tracks: Seq::empty(),
                collections_seen: 0,
                directories_queued: 1,
                duplicate_directory_count: 0,
                files_seen: 0,
                non_audio_files_skipped: 0,
                audio_files_seen: 0,
            }),
            r.diagnostics().provider@ == PROVIDER_WEBDAV@,
            crate::text::opt_text(r.diagnostics().root_url) == Some(root_url.parts().0),
            r.diagnostics().max_concurrency == WEBDAV_SCAN_CONCURRENCY,
            r.diagnostics().limit == limit,
            r.diagnostics().total_ms == 0,
            r.diagnostics().request_count == 0,
            r.diagnostics().failed_request_count == 0,
            r.diagnostics().directories_scanned == 0,
            r.diagnostics().entries_seen == 0,
            r.diagnostics().directories_queued == 1,
            r.diagnostics().duplicate_directory_count == 0,
            r.diagnostics().collections_seen == 0,
            r.diagnostics().files_seen == 0,
            r.diagnostics().audio_files_seen == 0,
            r.diagnostics().non_audio_files_skipped == 0,
            !r.diagnostics().truncated,
            !r.failed(),
            r.diagnostics().slow_requests@ == Seq::<ExternalRequestDiagnostics>::empty(),
    {
        let root_text = to_owned(root_url.as_str());
        let diagnostics = ExternalTrackListDiagnostics {
            provider: to_owned(PROVIDER_WEBDAV),
            root_url: Some(root_text.clone()),
            total_ms: 0,
            request_count: 0,
            failed_request_count: 0,
            directories_scanned: 0,
            directories_queued: 1,
            duplicate_directory_count: 0,
            entries_seen: 0,
            collections_seen: 0,
            files_seen: 0,
            audio_files_seen: 0,
            non_audio_files_skipped: 0,
            max_concurrency: WEBDAV_SCAN_CONCURRENCY,
            limit,
            truncated: false,
            slow_requests: Vec::new(),
        };
        let mut scheduled: Vec<String> = Vec::new();
        scheduled.push(root_text);
        let mut queue: VecDeque<ParsedUrl> = VecDeque::new();
        queue.push_back(copy_url(&root_url));
        let r = WebDavScan {
            root_url,
            limit,
            queue,
            scheduled,
            seen: Vec::new(),
            tracks: Vec::new(),
            diagnostics,
            failed: false,
        };
        assert(r.queue@.map_values(|u: ParsedUrl| u.parts()) =~= seq![r.root_url.parts()]);
        assert(texts(r.scheduled@) =~= seq![r.root_url.parts().0]);
        assert(r.tracks@.map_values(|t: RemoteTrackRecord| t@) =~= Seq::<RemoteTrackView>::empty());
        assert(texts(r.seen@) =~= Seq::<Seq<char>>::empty());
        r
    }
}

fn track_insert_position(tracks: &Vec<RemoteTrackRecord>, id: &str) -> (r: usize)
    ensures
        r == insert_position(tracks@.map_values(|t: RemoteTrackRecord| t@), id@),
{
    let ghost all = tracks@.map_values(|t: RemoteTrackRecord| t@);
    let mut i: usize = 0;
    assert(all.skip(0) =~= all);
    while i < tracks.len() && !text_less(id, tracks[i].remote_id.as_str())
        invariant
            i <= tracks@.len(),
            all == tracks@.map_values(|t: RemoteTrackRecord| t@),
            insert_position(all, id@) == i + insert_position(all.skip(i as int), id@),
        decreases tracks@.len() - i,
    {
        assert(all.skip(i as int)[0] == tracks@[i as int]@);
        assert(all.skip(i as int).drop_first() =~= all.skip(i + 1));
        i += 1;
    }
    if i < tracks.len() {
        assert(all.skip(i as int)[0] == tracks@[i as int]@);
    }
    i
}

impl WebDavScan {
    /// Everything but the listing view is as in `before`.
    pub closed spec fn keeps_request_state(&self, before: &Self) -> bool {
        &&& self.root_url.parts() == before.root_url.parts()
        &&& self.limit == before.limit
        &&& self.failed == before.failed
        &&& texts(self.seen@) == texts(before.seen@)
        &&& self.diagnostics.provider@ == before.diagnostics.provider@
        &&& crate::text::opt_text(self.diagnostics.root_url) == crate::text::opt_text(before.diagnostics.root_url)
        &&& self.diagnostics.total_ms == before.diagnostics.total_ms
        &&& self.diagnostics.request_count == before.diagnostics.request_count
        &&& self.diagnostics.failed_request_count == before.diagnostics.failed_request_count
        &&& self.diagnostics.directories_scanned == before.diagnostics.directories_scanned
        &&& self.diagnostics.entries_seen == before.diagnostics.entries_seen
        &&& self.diagnostics.max_concurrency == before.diagnostics.max_concurrency
        &&& self.diagnostics.limit == before.diagnostics.limit
        &&& self.diagnostics.truncated == before.diagnostics.truncated
        &&& self.diagnostics.slow_requests@ == before.diagnostics.slow_requests@
    }

    fn record_entry(&mut self, current: &str, entry: &WebDavEntry) -> (r: Result<(), String>)
        requires
            old(self).wf(),
            old(self).listing_room(0),
        ensures
            final(self).wf(),
            final(self).keeps_request_state(old(self)),
            match entry_step(old(self).listing_view(), old(self).root(), current@, *entry) {
                None => r is Err,
                Some(w) => r is Ok && final(self).listing_view() == w,
            },
    {
        let ghost v = self.listing_view();
        let resolved = match resolve_webdav_entry_url(&self.root_url, entry.href.as_str()) {
            Ok(u) => u,
            Err(e) => return Err(e),
        };
        let entry_url = if entry.is_collection {
            with_directory_trailing_slash(resolved)
        } else {
            resolved
        };
        let ghost url = entry_url.parts();
        assert(resolved_entry_parts(self.root_url.parts(), *entry) == Some(url));
        if str_eq(entry_url.as_str(), current) || !same_url_scope(&self.root_url, &entry_url) {
            return Ok(());
        }
        if entry.is_collection {
            self.diagnostics.collections_seen += 1;
            if contains_text(&self.scheduled, entry_url.as_str()) {
                self.diagnostics.duplicate_directory_count += 1;
            } else {
                let ghost before_queue = self.queue@;
                let ghost before_scheduled = self.scheduled@;
                self.scheduled.push(to_owned(entry_url.as_str()));
                self.diagnostics.directories_queued += 1;
                self.queue.push_back(entry_url);
                assert(self.queue@.map_values(|u: ParsedUrl| u.parts()) =~= before_queue.map_values(
                    |u: ParsedUrl| u.parts(),
                ).push(url));
                assert(texts(self.scheduled@) =~= texts(before_scheduled).push(url.0));
            }
            return Ok(());
        }
        self.diagnostics.files_seen += 1;
        let file_name = if entry.display_name.as_str().is_empty() {
            basename_from_url(&entry_url)
        } else {
            entry.display_name.clone()
        };
        assert(file_name@ == entry_file_name(*entry, url));
        if !is_audio_resource(file_name.as_str(), entry.content_type.as_str()) {
            self.diagnostics.non_audio_files_skipped += 1;
            return Ok(());
        }
        self.diagnostics.audio_files_seen += 1;
        let track = build_webdav_track(&self.root_url, &entry_url, entry, file_name.as_str());
        let pos = track_insert_position(&self.tracks, track.remote_id.as_str());
        let ghost before_tracks = self.tracks@.map_values(|t: RemoteTrackRecord| t@);
        proof {
            lemma_insert_position(before_tracks, track.remote_id@);
            lemma_insert_by_id_ordered(before_tracks, track@);
        }
        self.tracks.insert(pos, track);
        assert(self.tracks@.map_values(|t: RemoteTrackRecord| t@) =~= insert_by_id(
            before_tracks,
            webdav_track(self.root_url.parts(), url, *entry, entry_file_name(*entry, url)),
        ));
        Ok(())
    }
}

impl WebDavScan {
    /// Takes in the listing of the folder at `current_url`: the request is
    /// counted, its profile kept among the slowest, and its entries taken in
    /// order (see `listing_steps`). An error names the first entry whose URL
    /// cannot be resolved; the scan then ends.
    pub fn record_listing(
        &mut self,
        current_url: &str,
        entries: &Vec<WebDavEntry>,
        profile: ExternalRequestDiagnostics,
    ) -> (r: Result<(), String>)
        requires
            old(self).wf(),
            old(self).room(entries@.len()),
        ensures
            final(self).wf(),
            final(self).root() == old(self).root(),
            final(self).limit() == old(self).limit(),
            final(self).seen() == old(self).seen(),
            final(self).failed() == old(self).failed(),
            final(self).diagnostics().request_count == old(self).diagnostics().request_count + 1,
            final(self).diagnostics().directories_scanned == old(self).diagnostics().directories_scanned + 1,
            final(self).diagnostics().entries_seen == old(self).diagnostics().entries_seen + entries@.len(),
            final(self).diagnostics().failed_request_count == old(self).diagnostics().failed_request_count,
            final(self).diagnostics().total_ms == old(self).diagnostics().total_ms,
            final(self).diagnostics().truncated == old(self).diagnostics().truncated,
            final(self).diagnostics().slow_requests@ == retained_profiles(
                old(self).diagnostics().slow_requests@,
                profile,
            ),
            match listing_steps(old(self).listing_view(), old(self).root(), current_url@, entries@, old(self).limit()) {
                None => r is Err,
                Some(w) => r is Ok && final(self).listing_view() == w,
            },
    {
        self.diagnostics.request_count += 1;
        self.diagnostics.directories_scanned += 1;
        self.diagnostics.entries_seen += entries.len();
        remember_webdav_request_profile(&mut self.diagnostics, profile);
        let ghost start = *self;
        let ghost goal = listing_steps(self.listing_view(), self.root(), current_url@, entries@, self.limit);
        assert(entries@.skip(0) =~= entries@);
        let mut i: usize = 0;
        while i < entries.len()
            invariant_except_break
                goal == listing_steps(self.listing_view(), self.root(), current_url@, entries@.skip(i as int), self.limit),
            invariant
                i <= entries@.len(),
                self.wf(),
                self.keeps_request_state(&start),
                self.diagnostics.collections_seen <= start.diagnostics.collections_seen + i,
                self.diagnostics.directories_queued <= start.diagnostics.directories_queued + i,
                self.diagnostics.duplicate_directory_count <= start.diagnostics.duplicate_directory_count + i,
                self.diagnostics.files_seen <= start.diagnostics.files_seen + i,
                self.diagnostics.non_audio_files_skipped <= start.diagnostics.non_audio_files_skipped + i,
                self.diagnostics.audio_files_seen <= start.diagnostics.audio_files_seen + i,
                start.listing_room(entries@.len()),
                start.root() == old(self).root(),
                start.limit == old(self).limit,
                start.failed == old(self).failed,
                goal == listing_steps(old(self).listing_view(), old(self).root(), current_url@, entries@, old(self).limit),
                start.seen() == old(self).seen(),
                start.diagnostics.request_count == old(self).diagnostics.request_count + 1,
                start.diagnostics.directories_scanned == old(self).diagnostics.directories_scanned + 1,
                start.diagnostics.entries_seen == old(self).diagnostics.entries_seen + entries@.len(),
                start.diagnostics.failed_request_count == old(self).diagnostics.failed_request_count,
                start.diagnostics.total_ms == old(self).diagnostics.total_ms,
                start.diagnostics.truncated == old(self).diagnostics.truncated,
                start.diagnostics.slow_requests@ == retained_profiles(
                    old(self).diagnostics.slow_requests@,
                    profile,
                ),
            ensures
                goal == Some(self.listing_view()),
            decreases entries@.len() - i,
        {
            let ghost before = self.listing_view();
            let count_before = self.tracks.len();
            let ghost rest = entries@.skip(i as int);
            assert(rest[0] == entries@[i as int]);
            assert(rest.drop_first() =~= entries@.skip(i + 1));
            match self.record_entry(current_url, &entries[i]) {
                Ok(()) => {},
                Err(e) => {
                    assert(entry_step(before, start.root(), current_url@, rest[0]) is None);
                    assert(listing_steps(before, start.root(), current_url@, rest, start.limit) is None);
                    return Err(e);
                },
            }
            i += 1;
            if self.tracks.len() > count_before && limit_reached(self.tracks.len(), self.limit) {
                break;
            }
        }
        Ok(())
    }
}

impl WebDavScan {
    /// The next folder to list: `None` once a request failed, once the tracks
    /// reach the limit or once the queue runs out. Folders at the head of the queue that were
    /// handed out before are dropped and counted as duplicates.
    pub fn next_directory(&mut self) -> (r: Option<ParsedUrl>)
        requires
            old(self).wf(),
            old(self).listing_room(old(self).listing_view().queue.len()),
        ensures
            final(self).wf(),
            final(self).root() == old(self).root(),
            final(self).limit() == old(self).limit(),
            same_listing_counts_but_duplicates(final(self).diagnostics(), old(self).diagnostics()),
            final(self).diagnostics().slow_requests@ == old(self).diagnostics().slow_requests@,
            final(self).failed() == old(self).failed(),
            ({
                let v = old(self).listing_view();
                let k = listed_prefix(v.queue, old(self).seen());
                if old(self).failed() || limit_hit(v.tracks.len() as int, old(self).limit()) {
                    &&& r is None
                    &&& final(self).listing_view() == v
                    &&& final(self).seen() == old(self).seen()
                } else if k == v.queue.len() {
                    &&& r is None
                    &&& final(self).listing_view() == (ListingView {
                        queue: Seq::empty(),
                        duplicate_directory_count: v.duplicate_directory_count + k,
                        ..v
                    })
                    &&& final(self).seen() == old(self).seen()
                } else {
                    &&& r matches Some(u) && u.parts() == v.queue[k as int]
                    &&& !old(self).seen().contains(v.queue[k as int].0)
                    &&& final(self).listing_view() == (ListingView {
                        queue: v.queue.skip(k as int + 1),
                        duplicate_directory_count: v.duplicate_directory_count + k,
                        ..v
                    })
                    &&& final(self).seen() == old(self).seen().push(v.queue[k as int].0)
                }
            }),
    {
        if self.failed || limit_reached(self.tracks.len(), self.limit) {
            return None;
        }
        let ghost q0 = self.listing_view().queue;
        let ghost seen0 = texts(self.seen@);
        let ghost dup0 = self.diagnostics.duplicate_directory_count;
        let mut popped: usize = 0;
        assert(q0.skip(0) =~= q0);
        loop
            invariant
                popped <= q0.len(),
                self.wf(),
                self.queue@.map_values(|u: ParsedUrl| u.parts()) == q0.skip(popped as int),
                texts(self.seen@) == seen0,
                self.diagnostics.duplicate_directory_count == dup0 + popped,
                listed_prefix(q0, seen0) == popped + listed_prefix(q0.skip(popped as int), seen0),
                dup0 + q0.len() < usize::MAX,
                self.root_url.parts() == old(self).root_url.parts(),
                self.limit == old(self).limit,
                self.failed == old(self).failed,
                !self.failed,
                self.tracks@ == old(self).tracks@,
                self.scheduled@ == old(self).scheduled@,
                same_listing_counts_but_duplicates(self.diagnostics, old(self).diagnostics),
                self.diagnostics.slow_requests@ == old(self).diagnostics.slow_requests@,
                q0 == old(self).listing_view().queue,
                seen0 == texts(old(self).seen@),
                dup0 == old(self).diagnostics.duplicate_directory_count,
                !limit_hit(old(self).listing_view().tracks.len() as int, old(self).limit),
            decreases q0.len() - popped,
        {
            let ghost rest = q0.skip(popped as int);
            match self.queue.pop_front() {
                None => {
                    assert(rest.len() == 0);
                    assert(q0.skip(popped as int).len() == 0);
                    assert(self.queue@.map_values(|u: ParsedUrl| u.parts()) =~= Seq::<UrlParts>::empty());
                    assert(listed_prefix(q0, seen0) == popped);
                    assert(popped == q0.len());
                    assert(self.listing_view() == (ListingView {
                        queue: Seq::empty(),
                        duplicate_directory_count: old(self).listing_view().duplicate_directory_count + popped,
                        ..old(self).listing_view()
                    }));
                    return None;
                },
                Some(u) => {
                    assert(rest[0] == u.parts());
                    assert(rest.drop_first() =~= q0.skip(popped + 1));
                    assert(self.queue@.map_values(|u: ParsedUrl| u.parts()) =~= q0.skip(popped + 1));
                    if contains_text(&self.seen, u.as_str()) {
                        self.diagnostics.duplicate_directory_count += 1;
                        popped += 1;
                    } else {
                        let ghost seen_before = self.seen@;
                        self.seen.push(to_owned(u.as_str()));
                        assert(texts(self.seen@) =~= texts(seen_before).push(u.parts().0));
                        assert(listed_prefix(rest, seen0) == 0);
                        assert(listed_prefix(q0, seen0) == popped);
                        assert(q0[popped as int] == u.parts());
                        assert(self.listing_view() == (ListingView {
                            queue: q0.skip(popped as int + 1),
                            duplicate_directory_count: old(self).listing_view().duplicate_directory_count + popped,
                            ..old(self).listing_view()
                        }));
                        return Some(u);
                    }
                },
            }
        }
    }

    /// A request failed after `total_ms`: it is counted, the time is taken
    /// and the scan ends (no folder is handed out any more); its error is
    /// the scan's.
    pub fn record_failure(&mut self, error: String, total_ms: u64) -> (r: String)
        requires
            old(self).diagnostics().failed_request_count < usize::MAX,
        ensures
            r == error,
            final(self).failed(),
            final(self).diagnostics().failed_request_count == old(self).diagnostics().failed_request_count + 1,
            final(self).diagnostics().total_ms == total_ms,
            same_listing_counts(
                final(self).diagnostics(),
                ExternalTrackListDiagnostics {
                    failed_request_count: final(self).diagnostics().failed_request_count,
                    total_ms: total_ms,
                    ..old(self).diagnostics()
                },
            ),
            final(self).diagnostics().slow_requests@ == old(self).diagnostics().slow_requests@,
            final(self).listing_view() == old(self).listing_view(),
            final(self).root() == old(self).root(),
            final(self).limit() == old(self).limit(),
            final(self).seen() == old(self).seen(),
    {
        self.diagnostics.failed_request_count += 1;
        self.diagnostics.total_ms = total_ms;
        self.failed = true;
        error
    }

    /// Ends the scan after `total_ms`: its tracks, ordered by remote id, and
    /// its diagnostics, marked truncated when the tracks reach the limit.
    pub fn finish(self, total_ms: u64) -> (r: (Vec<RemoteTrackRecord>, ExternalTrackListDiagnostics))
        requires
            self.wf(),
        ensures
            r.0@.map_values(|t: RemoteTrackRecord| t@) == self.listing_view().tracks,
            ordered_by_id(self.listing_view().tracks),
            r.1.total_ms == total_ms,
            r.1.truncated == limit_hit(self.listing_view().tracks.len() as int, self.limit()),
            same_listing_counts(
                r.1,
                ExternalTrackListDiagnostics { total_ms: total_ms, truncated: r.1.truncated, ..self.diagnostics() },
            ),
            r.1.slow_requests@ == self.diagnostics().slow_requests@,
    {
        let mut diagnostics = self.diagnostics;
        diagnostics.total_ms = total_ms;
        diagnostics.truncated = limit_reached(self.tracks.len(), self.limit);
        (self.tracks, diagnostics)
    }
}

/// Two listing diagnostics agree on everything but the kept request
/// profiles and the duplicate folder count.
pub open spec fn same_listing_counts_but_duplicates(a: ExternalTrackListDiagnostics, b: ExternalTrackListDiagnostics) -> bool {
    same_listing_counts(a, ExternalTrackListDiagnostics { duplicate_directory_count: a.duplicate_directory_count, ..b })
}

} // verus!
