//! How a track of an external source becomes playable: which URL is fetched
//! for it, under which names the download is cached, which credentials go
//! with the request, and when a download is too large. The download itself
//! runs outside the library.
use vstd::prelude::*;
use crate::capsule_artwork_cache::{stable_hash, stable_hash_text};
use crate::external_sources::{
    auth_has_basic_credentials, auth_or_empty, build_subsonic_url, cache_extension,
    directory_parts, endpoint_text, in_url_scope, is_http_scheme, normalize_provider,
    normalized_provider, resolve_cache_extension, resolve_webdav_root_url, same_url_scope,
    subsonic_auth_pairs, subsonic_method_parts, webdav_root_resolvable, endpoint_url_error,
    ExternalLibraryAuth, SUBSONIC_URL_ERROR_PREFIX, WEBDAV_ROOT_ERROR_PREFIX,
    ExternalLibraryConnection, EXTERNAL_PLAYBACK_CACHE_MAX_BYTES, PROVIDER_FTP,
    PROVIDER_SUBSONIC, PROVIDER_WEBDAV,
};
use crate::remote_url::{
    parse_url, url_extend_pairs_parts, url_join_parts, url_parse_parts, ParsedUrl, UrlParts,
};
use crate::text::{concat, opt_text, present_seq, str_eq, to_owned, trim_seq, u64_to_decimal};
use crate::catalog_db::normalized_optional_text;

verus! {

pub const SUBSONIC_REMOTE_ID_ERROR: &'static str = "Subsonic track is missing its remote id.";
pub const WEBDAV_TRACK_URL_ERROR: &'static str = "WebDAV track is missing its source URL.";
pub const WEBDAV_TRACK_URL_INVALID_PREFIX: &'static str = "Invalid WebDAV track URL: ";
pub const WEBDAV_SCOPE_ERROR: &'static str =
    "Refusing to resolve a WebDAV track outside the configured library endpoint.";
pub const FTP_BRIDGE_ERROR: &'static str =
    "FTP requires a native playback bridge before tracks can be resolved.";
pub const UNSUPPORTED_PROVIDER_ERROR: &'static str = "Unsupported external library provider.";
pub const DOWNLOAD_TOO_LARGE_ERROR: &'static str =
    "External playback download is larger than the 512 MB safety limit.";

/// The fields of a stored track that playback reads: its top-level remote
/// id and the fields of its `source`, as stored.
#[derive(Debug, Clone, Default)]
pub struct PlaybackTrackSource {
    pub remote_id: Option<String>,
    pub format: Option<String>,
    pub file_name: Option<String>,
    pub source_kind: Option<String>,
    pub source_path: Option<String>,
    pub source_origin_path: Option<String>,
    pub source_remote_id: Option<String>,
    pub source_url: Option<String>,
    pub source_connection_id: Option<String>,
}

/// A stored text field, trimmed, when something is left.
pub open spec fn present(value: Option<String>) -> Option<Seq<char>> {
    present_seq(opt_text(value))
}

/// `a`, else `b`.
pub open spec fn or_else(a: Option<Seq<char>>, b: Option<Seq<char>>) -> Option<Seq<char>> {
    if a is Some {
        a
    } else {
        b
    }
}

fn present_text(value: &Option<String>) -> (r: Option<String>)
    ensures
        opt_text(r) == present(*value),
{
    normalized_optional_text(
        match value {
            Some(v) => Some(v.as_str()),
            None => None,
        },
    )
}

/// Text that parses as an http or https URL.
pub open spec fn probably_url(value: Seq<char>) -> bool {
    match url_parse_parts(value) {
        Some(p) => p.1 == "http"@ || p.1 == "https"@,
        None => false,
    }
}

/// Whether `value` parses as an http or https URL.
pub fn path_is_probably_url(value: &str) -> (r: bool)
    ensures
        r == probably_url(value@),
{
    match parse_url(value) {
        Ok(u) => str_eq(u.scheme(), "http") || str_eq(u.scheme(), "https"),
        Err(_) => false,
    }
}

/// `value` when it is present and an http(s) URL.
pub open spec fn url_candidate(value: Option<String>) -> Option<Seq<char>> {
    match present(value) {
        Some(v) => if probably_url(v) {
            Some(v)
        } else {
            None
        },
        None => None,
    }
}

/// The URL a WebDAV track is fetched from: the first of its source's
/// original path, remote id, URL and path that is an http(s) URL. A cached
/// copy's local path is never chosen.
pub open spec fn webdav_track_url(track: PlaybackTrackSource) -> Option<Seq<char>> {
    or_else(
        url_candidate(track.source_origin_path),
        or_else(
            url_candidate(track.source_remote_id),
            or_else(url_candidate(track.source_url), url_candidate(track.source_path)),
        ),
    )
}

fn url_candidate_of(value: &Option<String>) -> (r: Option<String>)
    ensures
        opt_text(r) == url_candidate(*value),
{
    match present_text(value) {
        Some(v) => if path_is_probably_url(v.as_str()) {
            Some(v)
        } else {
            None
        },
        None => None,
    }
}

/// The URL a WebDAV track is fetched from.
pub fn resolve_webdav_remote_track_url(track: &PlaybackTrackSource) -> (r: Option<String>)
    ensures
        opt_text(r) == webdav_track_url(*track),
{
    let origin = url_candidate_of(&track.source_origin_path);
    if origin.is_some() {
        return origin;
    }
    let remote = url_candidate_of(&track.source_remote_id);
    if remote.is_some() {
        return remote;
    }
    let url = url_candidate_of(&track.source_url);
    if url.is_some() {
        return url;
    }
    url_candidate_of(&track.source_path)
}

/// A track needs its external source resolved before playback: it belongs
/// to a connection, and its source is of a remote kind or its path is an
/// http(s) URL.
pub open spec fn needs_external_resolution(track: PlaybackTrackSource) -> bool {
    &&& present(track.source_connection_id) is Some
    &&& {
        let kind = match present(track.source_kind) {
            Some(k) => k,
            None => seq![],
        };
        let path = match present(track.source_path) {
            Some(p) => p,
            None => seq![],
        };
        ||| kind == "webdav"@
        ||| kind == "subsonic"@
        ||| kind == "external-url"@
        ||| kind == "external-index"@
        ||| crate::text::has_prefix(path, "http://"@)
        ||| crate::text::has_prefix(path, "https://"@)
    }
}

/// Whether a track needs its external source resolved before playback.
pub fn track_needs_external_playback_resolution(track: &PlaybackTrackSource) -> (r: bool)
    ensures
        r == needs_external_resolution(*track),
{
    let connection = present_text(&track.source_connection_id);
    if connection.is_none() {
        return false;
    }
    let kind = match present_text(&track.source_kind) {
        Some(k) => k,
        None => String::new(),
    };
    let path = match present_text(&track.source_path) {
        Some(p) => p,
        None => String::new(),
    };
    str_eq(kind.as_str(), "webdav") || str_eq(kind.as_str(), "subsonic") || str_eq(
        kind.as_str(),
        "external-url",
    ) || str_eq(kind.as_str(), "external-index") || crate::text::starts_with(path.as_str(), "http://")
        || crate::text::starts_with(path.as_str(), "https://")
}

/// What to download for an external track and how to describe its source.
#[derive(Debug, Clone)]
pub struct ExternalDownloadPlan {
    pub provider: String,
    pub remote_id: String,
    pub download_url: String,
    pub origin_path: String,
}

/// The root folder of a WebDAV connection, when it can be formed.
pub open spec fn webdav_root_parts(connection: ExternalLibraryConnection) -> UrlParts {
    let base = url_parse_parts(endpoint_text(connection.endpoint@))->Some_0;
    match present(connection.root_path) {
        None => directory_parts(base),
        Some(root) => directory_parts(
            url_join_parts(base.0, crate::text::strip_leading(root, '/'))->Some_0,
        ),
    }
}

/// How a Subsonic track is fetched: by its remote id (from its source, else
/// the track), streamed through the `stream` method; its origin is its
/// source's original path, else its path.
pub open spec fn subsonic_plan_ok(
    plan: ExternalDownloadPlan,
    connection: ExternalLibraryConnection,
    track: PlaybackTrackSource,
    id: Seq<char>,
) -> bool {
    &&& subsonic_method_parts(connection.endpoint@, "stream"@) matches Some(j)
    &&& plan.provider@ == PROVIDER_SUBSONIC@
    &&& plan.remote_id@ == id
    &&& plan.download_url@ == url_extend_pairs_parts(
        j.0,
        subsonic_auth_pairs(auth_or_empty(connection.auth)) + seq![("id"@, id)],
    ).0
    &&& plan.origin_path@ == match or_else(present(track.source_origin_path), present(track.source_path)) {
        Some(p) => p,
        None => seq![],
    }
}

/// How a WebDAV track is fetched: from its URL, which must lie under the
/// connection's root; its remote id is its source's, else that URL.
pub open spec fn webdav_plan_ok(plan: ExternalDownloadPlan, track: PlaybackTrackSource, url: Seq<char>) -> bool {
    &&& plan.provider@ == PROVIDER_WEBDAV@
    &&& plan.download_url@ == url
    &&& plan.origin_path@ == url
    &&& plan.remote_id@ == match present(track.source_remote_id) {
        Some(id) => id,
        None => url,
    }
}

/// The download plan for an external track of `connection`. Subsonic and
/// WebDAV tracks are fetched as `subsonic_plan_ok` and `webdav_plan_ok`
/// say; a track without its id or URL, a WebDAV URL outside the library,
/// FTP (which needs a native bridge) and unknown providers are refused.
pub fn plan_external_playback(connection: &ExternalLibraryConnection, track: &PlaybackTrackSource) -> (r:
    Result<ExternalDownloadPlan, String>)
    ensures
        ({
            let provider = normalized_provider(connection.provider@);
            if provider == PROVIDER_SUBSONIC@ {
                match or_else(present(track.source_remote_id), present(track.remote_id)) {
                    None => r matches Err(e) && e@ == SUBSONIC_REMOTE_ID_ERROR@,
                    Some(id) => if subsonic_method_parts(connection.endpoint@, "stream"@) is Some {
                        r matches Ok(plan) && subsonic_plan_ok(plan, *connection, *track, id)
                    } else {
                        r matches Err(e) && endpoint_url_error(
                            connection.endpoint@,
                            SUBSONIC_URL_ERROR_PREFIX@,
                            e@,
                        )
                    },
                }
            } else if provider == PROVIDER_WEBDAV@ {
                match webdav_track_url(*track) {
                    None => r matches Err(e) && e@ == WEBDAV_TRACK_URL_ERROR@,
                    Some(url) => if !webdav_root_resolvable(*connection) {
                        r matches Err(e) && endpoint_url_error(
                            connection.endpoint@,
                            WEBDAV_ROOT_ERROR_PREFIX@,
                            e@,
                        )
                    } else if !in_url_scope(webdav_root_parts(*connection), url_parse_parts(url)->Some_0) {
                        r matches Err(e) && e@ == WEBDAV_SCOPE_ERROR@
                    } else {
                        r matches Ok(plan) && webdav_plan_ok(plan, *track, url)
                    },
                }
            } else if provider == PROVIDER_FTP@ {
                r matches Err(e) && e@ == FTP_BRIDGE_ERROR@
            } else {
                r matches Err(e) && e@ == UNSUPPORTED_PROVIDER_ERROR@
            }
        }),
{
    let provider = normalize_provider(connection.provider.as_str());
    if str_eq(provider.as_str(), PROVIDER_SUBSONIC) {
        let remote_id = match present_text(&track.source_remote_id) {
            Some(id) => id,
            None => match present_text(&track.remote_id) {
                Some(id) => id,
                None => return Err(to_owned(SUBSONIC_REMOTE_ID_ERROR)),
            },
        };
        let mut params: Vec<(String, String)> = Vec::new();
        params.push((to_owned("id"), remote_id.clone()));
        proof {
            reveal_strlit("id");
            assert(params@.map_values(|p: (String, String)| (p.0@, p.1@)) =~= seq![("id"@, remote_id@)]);
        }
        let stream_url = match build_subsonic_url(connection, "stream", &params) {
            Ok(u) => u,
            Err(e) => return Err(e),
        };
        let origin = match present_text(&track.source_origin_path) {
            Some(p) => p,
            None => match present_text(&track.source_path) {
                Some(p) => p,
                None => String::new(),
            },
        };
        return Ok(
            ExternalDownloadPlan {
                provider: to_owned(PROVIDER_SUBSONIC),
                remote_id,
                download_url: stream_url,
                origin_path: origin,
            },
        );
    }
    if str_eq(provider.as_str(), PROVIDER_WEBDAV) {
        let path = match resolve_webdav_remote_track_url(track) {
            Some(p) => p,
            None => return Err(to_owned(WEBDAV_TRACK_URL_ERROR)),
        };
        let root_url = match resolve_webdav_root_url(connection) {
            Ok(u) => u,
            Err(e) => return Err(e),
        };
        let track_url = match parse_url(path.as_str()) {
            Ok(u) => u,
            Err(e) => return Err(concat(WEBDAV_TRACK_URL_INVALID_PREFIX, e.as_str())),
        };
        if !same_url_scope(&root_url, &track_url) {
            return Err(to_owned(WEBDAV_SCOPE_ERROR));
        }
        let remote_id = match present_text(&track.source_remote_id) {
            Some(id) => id,
            None => path.clone(),
        };
        return Ok(
            ExternalDownloadPlan {
                provider: to_owned(PROVIDER_WEBDAV),
                remote_id,
                download_url: path.clone(),
                origin_path: path,
            },
        );
    }
    if str_eq(provider.as_str(), PROVIDER_FTP) {
        return Err(to_owned(FTP_BRIDGE_ERROR));
    }
    Err(to_owned(UNSUPPORTED_PROVIDER_ERROR))
}

/// The names under which a download of `url` for `provider` and
/// `remote_id` is cached, in the provider's cache folder.
#[derive(Debug, Clone)]
pub struct ExternalCacheNames {
    pub key: String,
    pub extension: String,
    pub cache_file_name: String,
    pub lock_file_name: String,
}

/// The cache key of a download: the stable hash of
/// `provider:remote_id:url`.
pub open spec fn cache_key(provider: Seq<char>, remote_id: Seq<char>, url: Seq<char>) -> Seq<char> {
    stable_hash_text(provider + ":"@ + remote_id + ":"@ + url)
}

/// The cache names of a download: `external-cache-<key>.<extension>` and
/// `external-cache-<key>.lock`, the extension taken from the track's
/// format, file name or URL (`audio` when none fits).
pub fn external_cache_names(provider: &str, remote_id: &str, url: &str, track: &PlaybackTrackSource) -> (r:
    ExternalCacheNames)
    ensures
        r.key@ == cache_key(provider@, remote_id@, url@),
        r.extension@ == cache_extension(present(track.format), present(track.file_name), url@),
        r.cache_file_name@ == "external-cache-"@ + r.key@ + "."@ + r.extension@,
        r.lock_file_name@ == "external-cache-"@ + r.key@ + ".lock"@,
{
    let format = present_text(&track.format);
    let file_name = present_text(&track.file_name);
    let extension = resolve_cache_extension(
        match &format {
            Some(f) => Some(f.as_str()),
            None => None,
        },
        match &file_name {
            Some(n) => Some(n.as_str()),
            None => None,
        },
        url,
    );
    let a = concat(provider, ":");
    let b = concat(a.as_str(), remote_id);
    let c = concat(b.as_str(), ":");
    let d = concat(c.as_str(), url);
    let key = stable_hash(d.as_str());
    let prefix = concat("external-cache-", key.as_str());
    let dotted = concat(prefix.as_str(), ".");
    let cache_file_name = concat(dotted.as_str(), extension.as_str());
    let lock_file_name = concat(prefix.as_str(), ".lock");
    ExternalCacheNames { key, extension, cache_file_name, lock_file_name }
}

/// The staging file of a download in progress:
/// `external-cache-<key>-<process>-<nanos>.<extension>.part`.
pub fn transient_download_file_name(names: &ExternalCacheNames, process_id: u32, unix_nanos: u64) -> (r:
    String)
    ensures
        r@ == "external-cache-"@ + names.key@ + "-"@ + crate::text::decimal(process_id as nat) + "-"@
            + crate::text::decimal(unix_nanos as nat) + "."@ + names.extension@ + ".part"@,
{
    let a = concat("external-cache-", names.key.as_str());
    let b = concat(a.as_str(), "-");
    let pid = u64_to_decimal(process_id as u64);
    let c = concat(b.as_str(), pid.as_str());
    let d = concat(c.as_str(), "-");
    let nanos = u64_to_decimal(unix_nanos);
    let e = concat(d.as_str(), nanos.as_str());
    let f = concat(e.as_str(), ".");
    let g = concat(f.as_str(), names.extension.as_str());
    concat(g.as_str(), ".part")
}

/// The credentials sent with a download: a WebDAV connection's user name
/// and password (each empty when absent), when it has either.
pub open spec fn download_basic_auth(provider: Seq<char>, auth: Option<ExternalLibraryAuth>) -> Option<(Seq<char>, Seq<char>)> {
    match auth {
        Some(a) => if provider == PROVIDER_WEBDAV@ && (present(a.username) is Some || present(a.password) is Some) {
            Some(
                (
                    match a.username {
                        Some(u) => u@,
                        None => seq![],
                    },
                    match a.password {
                        Some(p) => p@,
                        None => seq![],
                    },
                ),
            )
        } else {
            None
        },
        None => None,
    }
}

/// The basic credentials of a download for `provider`.
pub fn external_download_basic_auth(provider: &str, connection: &ExternalLibraryConnection) -> (r: Option<
    (String, String),
>)
    ensures
        match r {
            Some(p) => download_basic_auth(provider@, connection.auth) == Some((p.0@, p.1@)),
            None => download_basic_auth(provider@, connection.auth) is None,
        },
{
    if !str_eq(provider, PROVIDER_WEBDAV) {
        return None;
    }
    match &connection.auth {
        Some(auth) => if auth_has_basic_credentials(auth) {
            let user = match &auth.username {
                Some(u) => u.clone(),
                None => String::new(),
            };
            let password = match &auth.password {
                Some(p) => p.clone(),
                None => String::new(),
            };
            Some((user, password))
        } else {
            None
        },
        None => None,
    }
}

/// A download announced as longer than the cache limit is refused.
pub fn check_download_length(content_length: Option<u64>) -> (r: Result<(), String>)
    ensures
        match content_length {
            Some(n) if n > EXTERNAL_PLAYBACK_CACHE_MAX_BYTES => r matches Err(e) && e@ == DOWNLOAD_TOO_LARGE_ERROR@,
            _ => r is Ok,
        },
{
    match content_length {
        Some(n) => if n > EXTERNAL_PLAYBACK_CACHE_MAX_BYTES {
            Err(to_owned(DOWNLOAD_TOO_LARGE_ERROR))
        } else {
            Ok(())
        },
        None => Ok(()),
    }
}

/// The bytes downloaded after a chunk of `chunk_len` more (saturating); a
/// download that passes the cache limit is refused.
pub fn add_download_chunk(downloaded: u64, chunk_len: u64) -> (r: Result<u64, String>)
    ensures
        ({
            let total = if downloaded + chunk_len > u64::MAX {
                u64::MAX as int
            } else {
                downloaded + chunk_len
            };
            if total > EXTERNAL_PLAYBACK_CACHE_MAX_BYTES {
                r matches Err(e) && e@ == DOWNLOAD_TOO_LARGE_ERROR@
            } else {
                r == Ok::<u64, String>(total as u64)
            }
        }),
{
    let total = downloaded.saturating_add(chunk_len);
    if total > EXTERNAL_PLAYBACK_CACHE_MAX_BYTES {
        Err(to_owned(DOWNLOAD_TOO_LARGE_ERROR))
    } else {
        Ok(total)
    }
}

/// How old a staging file or a cache lock may grow before a clean-up
/// removes it.
pub const TRANSIENT_DOWNLOAD_STALE_AFTER_SECONDS: u64 = 86400;
pub const CACHE_LOCK_STALE_AFTER_SECONDS: u64 = 120;

/// A leftover download: a `transient-` file or a `.part` staging file.
pub open spec fn transient_download_name(name: Seq<char>) -> bool {
    crate::text::has_prefix(name, "transient-"@) || crate::text::has_suffix(name, ".part"@)
}

/// A cache lock: `external-cache-*.lock`.
pub open spec fn cache_lock_name(name: Seq<char>) -> bool {
    crate::text::has_prefix(name, "external-cache-"@) && crate::text::has_suffix(name, ".lock"@)
}

/// Whether a file of the cache folder named `file_name`, last changed
/// `age_seconds` ago (when known), is a stale leftover download.
pub fn is_stale_transient_download(file_name: &str, age_seconds: Option<u64>) -> (r: bool)
    ensures
        r == (transient_download_name(file_name@) && match age_seconds {
            Some(age) => age >= TRANSIENT_DOWNLOAD_STALE_AFTER_SECONDS,
            None => false,
        }),
{
    let named = crate::text::starts_with(file_name, "transient-") || crate::text::ends_with(file_name, ".part");
    named && match age_seconds {
        Some(age) => age >= TRANSIENT_DOWNLOAD_STALE_AFTER_SECONDS,
        None => false,
    }
}

/// Whether a file of the cache folder named `file_name`, last changed
/// `age_seconds` ago (when known), is a stale cache lock.
pub fn is_stale_cache_lock(file_name: &str, age_seconds: Option<u64>) -> (r: bool)
    ensures
        r == (cache_lock_name(file_name@) && match age_seconds {
            Some(age) => age >= CACHE_LOCK_STALE_AFTER_SECONDS,
            None => false,
        }),
{
    let named = crate::text::starts_with(file_name, "external-cache-") && crate::text::ends_with(file_name, ".lock");
    named && match age_seconds {
        Some(age) => age >= CACHE_LOCK_STALE_AFTER_SECONDS,
        None => false,
    }
}

/// A cached download can be reused: a non-empty file within the cache
/// limit.
pub fn is_reusable_cache_size(is_file: bool, length: u64) -> (r: bool)
    ensures
        r == (is_file && 0 < length <= EXTERNAL_PLAYBACK_CACHE_MAX_BYTES),
{
    is_file && length > 0 && length <= EXTERNAL_PLAYBACK_CACHE_MAX_BYTES
}

} // verus!
