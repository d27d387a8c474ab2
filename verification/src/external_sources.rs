//! External music sources (WebDAV, Subsonic and FTP): their connection
//! records, what each provider can do, and the text and number handling of
//! their listings. The network requests themselves run outside the library.
use vstd::prelude::*;
use crate::remote_url::{
    join_url, parse_url, url_join_parts, url_parse_parts, url_set_path_parts, url_extend_pairs_parts,
    utf8_lossy, utf8_lossy_text, with_path, with_query_pairs, ParsedUrl,
};
use crate::text::{
    after_last, ascii_lower, before_first, chars_of, first_index_of, hex_digit, last_index_of,
    lower_seq, opt_text, present_seq, push_char, rfind_char, str_eq, string_from_range, to_owned,
    to_ascii_lowercase, trim, trim_seq,
};

verus! {

pub const PROVIDER_WEBDAV: &'static str = "webdav";
pub const PROVIDER_FTP: &'static str = "ftp";
pub const PROVIDER_SUBSONIC: &'static str = "subsonic";
pub const SUBSONIC_API_VERSION: &'static str = "1.16.1";
pub const SUBSONIC_CLIENT_NAME: &'static str = "OFPlayer";
pub const HTTP_TIMEOUT_SECONDS: u64 = 25;
pub const EXTERNAL_PLAYBACK_CACHE_MAX_BYTES: u64 = 536870912;
pub const WEBDAV_SCAN_CONCURRENCY: usize = 8;
pub const WEBDAV_PROGRESS_LOG_INTERVAL_DIRECTORIES: usize = 25;
pub const WEBDAV_SLOW_REQUEST_MS: u64 = 1500;
pub const WEBDAV_RETAINED_REQUEST_PROFILES: usize = 8;
pub const UNTITLED_TRACK: &'static str = "Untitled";

/// Credentials of an external source.
#[derive(Debug, Clone, Default)]
pub struct ExternalLibraryAuth {
    pub username: Option<String>,
    pub password: Option<String>,
    pub token: Option<String>,
    pub salt: Option<String>,
}

/// Where an external source lives and how to log in.
#[derive(Debug, Clone, Default)]
pub struct ExternalLibraryConnection {
    pub provider: String,
    pub name: Option<String>,
    pub endpoint: String,
    pub root_path: Option<String>,
    pub auth: Option<ExternalLibraryAuth>,
}

/// A question about a provider's capabilities.
#[derive(Debug, Clone, Default)]
pub struct ExternalProviderCapabilitiesRequest {
    pub provider: String,
}

/// A request against an external source, with an optional track limit.
#[derive(Debug, Clone, Default)]
pub struct ExternalLibraryConnectionRequest {
    pub connection: ExternalLibraryConnection,
    pub limit: Option<usize>,
}

/// What a provider can do in this build.
#[derive(Debug, Clone, Default)]
pub struct ExternalProviderCapabilities {
    pub provider: String,
    pub rust_core: bool,
    pub can_list_libraries: bool,
    pub can_list_tracks: bool,
    pub can_stream: bool,
    pub requires_bridge: bool,
}

/// The outcome of a connection test.
#[derive(Debug, Clone, Default)]
pub struct ExternalLibraryTestResult {
    pub ok: bool,
    pub provider: String,
    pub capabilities: ExternalProviderCapabilities,
    pub message: String,
}

/// A library offered by an external source.
#[derive(Debug, Clone, Default)]
pub struct ExternalRemoteLibrary {
    pub id: String,
    pub name: String,
    pub root_path: String,
}

/// The libraries offered by an external source.
#[derive(Debug, Clone, Default)]
pub struct ExternalLibraryListResult {
    pub provider: String,
    pub libraries: Vec<ExternalRemoteLibrary>,
}

/// One request of a listing, kept when it was slow.
#[derive(Debug, Clone, Default)]
pub struct ExternalRequestDiagnostics {
    pub url: String,
    pub depth: String,
    pub status: u16,
    pub duration_ms: u64,
    pub entry_count: usize,
    pub byte_count: usize,
}

/// How a track listing went.
#[derive(Debug, Clone, Default)]
pub struct ExternalTrackListDiagnostics {
    pub provider: String,
    pub root_url: Option<String>,
    pub total_ms: u64,
    pub request_count: usize,
    pub failed_request_count: usize,
    pub directories_scanned: usize,
    pub directories_queued: usize,
    pub duplicate_directory_count: usize,
    pub entries_seen: usize,
    pub collections_seen: usize,
    pub files_seen: usize,
    pub audio_files_seen: usize,
    pub non_audio_files_skipped: usize,
    pub max_concurrency: usize,
    pub limit: Option<usize>,
    pub truncated: bool,
    pub slow_requests: Vec<ExternalRequestDiagnostics>,
}

/// Track tags guessed from where a remote file lies and how it is named.
#[derive(Debug, Clone, Default)]
pub struct InferredRemoteMetadata {
    pub title: String,
    pub artist: String,
    pub album_artist: String,
    pub album: String,
    pub track_number: u32,
}

/// The provider a name stands for: `subsonic` (also for `navidrome`),
/// `ftp`, and `webdav` for anything else; matched trimmed and without
/// regard to ASCII case.
pub open spec fn normalized_provider(provider: Seq<char>) -> Seq<char> {
    let p = lower_seq(trim_seq(provider));
    if p == PROVIDER_SUBSONIC@ || p == "navidrome"@ {
        PROVIDER_SUBSONIC@
    } else if p == PROVIDER_FTP@ {
        PROVIDER_FTP@
    } else {
        PROVIDER_WEBDAV@
    }
}

/// The provider a name stands for.
pub fn normalize_provider(provider: &str) -> (r: String)
    ensures
        r@ == normalized_provider(provider@),
{
    let t = trim(provider);
    let p = to_ascii_lowercase(t.as_str());
    if str_eq(p.as_str(), PROVIDER_SUBSONIC) || str_eq(p.as_str(), "navidrome") {
        to_owned(PROVIDER_SUBSONIC)
    } else if str_eq(p.as_str(), PROVIDER_FTP) {
        to_owned(PROVIDER_FTP)
    } else {
        to_owned(PROVIDER_WEBDAV)
    }
}

/// What a provider can do: everything natively, except FTP, which needs a
/// bridge and can neither list nor stream here.
pub fn provider_capabilities(provider: &str) -> (r: ExternalProviderCapabilities)
    ensures
        r.provider@ == normalized_provider(provider@),
        r.rust_core,
        r.requires_bridge == (normalized_provider(provider@) == PROVIDER_FTP@),
        r.can_list_libraries == !r.requires_bridge,
        r.can_list_tracks == !r.requires_bridge,
        r.can_stream == !r.requires_bridge,
{
    let provider = normalize_provider(provider);
    let requires_bridge = str_eq(provider.as_str(), PROVIDER_FTP);
    ExternalProviderCapabilities {
        provider,
        rust_core: true,
        can_list_libraries: !requires_bridge,
        can_list_tracks: !requires_bridge,
        can_stream: !requires_bridge,
        requires_bridge,
    }
}

/// Whether `count` items reach the limit (never, without one).
pub fn limit_reached(count: usize, limit: Option<usize>) -> (r: bool)
    ensures
        r == match limit {
            Some(l) => count >= l,
            None => false,
        },
{
    match limit {
        Some(l) => count >= l,
        None => false,
    }
}

/// The first non-zero value, zero when there is none.
pub open spec fn first_nonzero(values: Seq<u64>) -> u64
    decreases values.len(),
{
    if values.len() == 0 {
        0
    } else if values[0] > 0 {
        values[0]
    } else {
        first_nonzero(values.drop_first())
    }
}

/// The first non-zero value, zero when there is none.
pub fn first_nonzero_u64(values: &[u64]) -> (r: u64)
    ensures
        r == first_nonzero(values@),
{
    let mut i: usize = 0;
    assert(values@.skip(0) =~= values@);
    while i < values.len()
        invariant
            i <= values@.len(),
            first_nonzero(values@) == first_nonzero(values@.skip(i as int)),
        decreases values@.len() - i,
    {
        assert(values@.skip(i as int).drop_first() =~= values@.skip(i + 1));
        if values[i] > 0 {
            return values[i];
        }
        i += 1;
    }
    assert(values@.skip(i as int).len() == 0);
    0
}

/// A field of a JSON reply as the number readers see it: missing, an
/// unsigned integer, a text, or anything else.
#[derive(Debug, Clone)]
pub enum JsonFieldValue {
    Missing,
    Unsigned(u64),
    Text(String),
    Other,
}

/// The number a field gives: an unsigned integer as it is, a text when it
/// reads as one (as `str::parse::<u64>` reads it), else zero.
pub open spec fn json_field_u64(v: JsonFieldValue) -> u64 {
    match v {
        JsonFieldValue::Unsigned(n) => n,
        JsonFieldValue::Text(t) => match crate::webdav_xml::parsed_u64(t@) {
            Some(n) => n,
            None => 0,
        },
        _ => 0,
    }
}

/// The number a field gives (see `json_field_u64`).
pub fn field_u64(v: &JsonFieldValue) -> (r: u64)
    ensures
        r == json_field_u64(*v),
{
    match v {
        JsonFieldValue::Unsigned(n) => *n,
        JsonFieldValue::Text(t) => match crate::webdav_xml::parse_u64(t.as_str()) {
            Some(n) => n,
            None => 0,
        },
        _ => 0,
    }
}

/// The bit rate of a Subsonic song in bit/s from its `bitRate` field
/// (kbit/s, a number or a text; zero when missing or unreadable),
/// saturating.
pub fn subsonic_song_bitrate_bps(bit_rate: &JsonFieldValue) -> (r: u64)
    ensures
        r == if json_field_u64(*bit_rate) * 1000 > u64::MAX {
            u64::MAX
        } else {
            (json_field_u64(*bit_rate) * 1000) as u64
        },
{
    subsonic_bitrate_bps(field_u64(bit_rate))
}

/// A Subsonic bit rate (kbit/s) in bit/s, saturating.
pub fn subsonic_bitrate_bps(bit_rate_kbps: u64) -> (r: u64)
    ensures
        r == if bit_rate_kbps * 1000 > u64::MAX {
            u64::MAX
        } else {
            (bit_rate_kbps * 1000) as u64
        },
{
    if bit_rate_kbps > u64::MAX / 1000 {
        u64::MAX
    } else {
        bit_rate_kbps * 1000
    }
}

/// The value of an ASCII hexadecimal digit.
pub open spec fn hex_digit_value(b: u8) -> Option<u8> {
    if 48 <= b <= 57 {
        Some((b - 48) as u8)
    } else if 97 <= b <= 102 {
        Some((b - 87) as u8)
    } else if 65 <= b <= 70 {
        Some((b - 55) as u8)
    } else {
        None
    }
}

/// The value of an ASCII hexadecimal digit.
pub fn hex_value(byte: u8) -> (r: Option<u8>)
    ensures
        r == hex_digit_value(byte),
{
    if byte >= 48 && byte <= 57 {
        Some(byte - 48)
    } else if byte >= 97 && byte <= 102 {
        Some(byte - 87)
    } else if byte >= 65 && byte <= 70 {
        Some(byte - 55)
    } else {
        None
    }
}

/// Two lower-case hexadecimal digits per byte.
pub open spec fn hex_text(bytes: Seq<u8>) -> Seq<char>
    decreases bytes.len(),
{
    if bytes.len() == 0 {
        seq![]
    } else {
        let b = bytes.last();
        hex_text(bytes.drop_last()).push(hex_digit((b / 16) as u64)).push(
            hex_digit((b % 16) as u64),
        )
    }
}

/// The bytes in lower-case hexadecimal.
pub fn hex_encode(bytes: &[u8]) -> (r: String)
    ensures
        r@ == hex_text(bytes@),
{
    let mut out = String::new();
    let mut i: usize = 0;
    while i < bytes.len()
        invariant
            i <= bytes@.len(),
            out@ == hex_text(bytes@.take(i as int)),
        decreases bytes@.len() - i,
    {
        let b = bytes[i];
        assert(bytes@.take(i + 1).drop_last() =~= bytes@.take(i as int));
        let hi = crate::text::u64_to_hex_fixed((b / 16) as u64, 1);
        let lo = crate::text::u64_to_hex_fixed((b % 16) as u64, 1);
        proof {
            reveal_with_fuel(crate::text::hex_fixed, 2);
        }
        let hv = chars_of(hi.as_str());
        let lv = chars_of(lo.as_str());
        push_char(&mut out, hv[0]);
        push_char(&mut out, lv[0]);
        i += 1;
    }
    assert(bytes@.take(bytes@.len() as int) =~= bytes@);
    out
}

/// Whether the credentials hold a user name or a password.
pub fn auth_has_basic_credentials(auth: &ExternalLibraryAuth) -> (r: bool)
    ensures
        r == (present_seq(opt_text(auth.username)) is Some || present_seq(opt_text(auth.password)) is Some),
{
    crate::catalog_db::normalized_optional_text(
        match &auth.username {
            Some(u) => Some(u.as_str()),
            None => None,
        },
    ).is_some() || crate::catalog_db::normalized_optional_text(
        match &auth.password {
            Some(p) => Some(p.as_str()),
            None => None,
        },
    ).is_some()
}

/// A file's stem: the part before its last `.` (all of it without one),
/// trimmed.
pub open spec fn file_stem(file_name: Seq<char>) -> Seq<char> {
    trim_seq(
        match last_index_of(file_name, '.') {
            Some(i) => file_name.take(i),
            None => file_name,
        },
    )
}

/// A title from a file name: its stem, `Untitled` when that is blank.
pub open spec fn sanitized_track_title(file_name: Seq<char>) -> Seq<char> {
    if file_stem(file_name).len() == 0 {
        UNTITLED_TRACK@
    } else {
        file_stem(file_name)
    }
}

fn stem_of(file_name: &str) -> (r: String)
    ensures
        r@ == file_stem(file_name@),
{
    let v = chars_of(file_name);
    match rfind_char(&v, '.') {
        Some(i) => {
            let s = string_from_range(&v, 0, i);
            assert(s@ == file_name@.take(i as int));
            trim(s.as_str())
        },
        None => trim(file_name),
    }
}

/// A title from a file name.
pub fn sanitize_track_title(file_name: &str) -> (r: String)
    ensures
        r@ == sanitized_track_title(file_name@),
{
    let stem = stem_of(file_name);
    if stem.as_str().is_empty() {
        proof {
            reveal_strlit("Untitled");
        }
        to_owned(UNTITLED_TRACK)
    } else {
        stem
    }
}

/// A file's extension: what follows its last `.`, ASCII lower-cased; empty
/// without a `.`.
pub open spec fn file_extension(file_name: Seq<char>) -> Seq<char> {
    match last_index_of(file_name, '.') {
        Some(i) => lower_seq(file_name.skip(i + 1)),
        None => seq![],
    }
}

/// A file's extension.
pub fn extension_from_name(file_name: &str) -> (r: String)
    ensures
        r@ == file_extension(file_name@),
{
    let v = chars_of(file_name);
    match rfind_char(&v, '.') {
        Some(i) => {
            let e = string_from_range(&v, i + 1, v.len());
            assert(e@ == file_name@.skip(i + 1));
            to_ascii_lowercase(e.as_str())
        },
        None => String::new(),
    }
}

/// `s` with `\` turned into `/`.
pub open spec fn forward_slashed(s: Seq<char>) -> Seq<char> {
    s.map_values(|c: char| if c == '\\' { '/' } else { c })
}

/// The last path segment of a path with `/` or `\` separators: the last
/// non-empty segment, empty when there is none.
pub open spec fn path_basename(path: Seq<char>) -> Seq<char> {
    after_last(crate::text::strip_trailing(forward_slashed(path), '/'), '/')
}

/// The last path segment of `path`.
pub fn basename_from_path(path: &str) -> (r: String)
    ensures
        r@ == path_basename(path@),
{
    let v = chars_of(path);
    let mut out = String::new();
    let mut i: usize = 0;
    while i < v.len()
        invariant
            i <= v.len(),
            v@ == path@,
            out@ == forward_slashed(v@.take(i as int)),
        decreases v.len() - i,
    {
        let c = if v[i] == '\\' {
            '/'
        } else {
            v[i]
        };
        push_char(&mut out, c);
        assert(forward_slashed(v@.take(i + 1)) =~= forward_slashed(v@.take(i as int)).push(c));
        i += 1;
    }
    assert(v@.take(v.len() as int) =~= v@);
    let stripped = crate::text::trim_end_matches(out.as_str(), '/');
    crate::text::split_last(stripped.as_str(), '/')
}

/// Keeps `profile` among the slowest requests of a listing: a request
/// faster than `WEBDAV_SLOW_REQUEST_MS` is dropped once the list is full;
/// otherwise it goes in after every request at least as slow, and the list
/// is cut to `WEBDAV_RETAINED_REQUEST_PROFILES`.
pub open spec fn retained_profiles(
    kept: Seq<ExternalRequestDiagnostics>,
    profile: ExternalRequestDiagnostics,
) -> Seq<ExternalRequestDiagnostics> {
    if profile.duration_ms < WEBDAV_SLOW_REQUEST_MS && kept.len() >= WEBDAV_RETAINED_REQUEST_PROFILES {
        kept
    } else {
        let p = slower_prefix_len(kept, profile.duration_ms);
        let grown = kept.take(p).push(profile) + kept.skip(p);
        if grown.len() > WEBDAV_RETAINED_REQUEST_PROFILES {
            grown.take(WEBDAV_RETAINED_REQUEST_PROFILES as int)
        } else {
            grown
        }
    }
}

/// How many of the leading profiles took at least `duration_ms`.
pub open spec fn slower_prefix_len(kept: Seq<ExternalRequestDiagnostics>, duration_ms: u64) -> int
    decreases kept.len(),
{
    if kept.len() == 0 || kept[0].duration_ms < duration_ms {
        0
    } else {
        1 + slower_prefix_len(kept.drop_first(), duration_ms)
    }
}

/// The profiles are ordered from the slowest.
pub open spec fn slowest_first(kept: Seq<ExternalRequestDiagnostics>) -> bool {
    forall|i: int, j: int| 0 <= i < j < kept.len() ==> kept[i].duration_ms >= kept[j].duration_ms
}

proof fn lemma_slower_prefix(kept: Seq<ExternalRequestDiagnostics>, d: u64)
    ensures
        0 <= slower_prefix_len(kept, d) <= kept.len(),
        forall|i: int| 0 <= i < slower_prefix_len(kept, d) ==> kept[i].duration_ms >= d,
        slower_prefix_len(kept, d) < kept.len() ==> kept[slower_prefix_len(kept, d)].duration_ms
            < d,
    decreases kept.len(),
{
    if kept.len() > 0 && kept[0].duration_ms >= d {
        lemma_slower_prefix(kept.drop_first(), d);
        assert forall|i: int| 0 <= i < slower_prefix_len(kept, d) implies kept[i].duration_ms
            >= d by {
            if i > 0 {
                assert(kept[i] == kept.drop_first()[i - 1]);
            }
        }
    }
}

/// Two listing diagnostics agree on everything but the kept request
/// profiles.
pub open spec fn same_listing_counts(a: ExternalTrackListDiagnostics, b: ExternalTrackListDiagnostics) -> bool {
    &&& a.provider@ == b.provider@
    &&& crate::text::opt_text(a.root_url) == crate::text::opt_text(b.root_url)
    &&& a.total_ms == b.total_ms
    &&& a.request_count == b.request_count
    &&& a.failed_request_count == b.failed_request_count
    &&& a.directories_scanned == b.directories_scanned
    &&& a.directories_queued == b.directories_queued
    &&& a.duplicate_directory_count == b.duplicate_directory_count
    &&& a.entries_seen == b.entries_seen
    &&& a.collections_seen == b.collections_seen
    &&& a.files_seen == b.files_seen
    &&& a.audio_files_seen == b.audio_files_seen
    &&& a.non_audio_files_skipped == b.non_audio_files_skipped
    &&& a.max_concurrency == b.max_concurrency
    &&& a.limit == b.limit
    &&& a.truncated == b.truncated
}

/// Keeps a request profile among the slowest of a listing.
pub fn remember_webdav_request_profile(
    diagnostics: &mut ExternalTrackListDiagnostics,
    profile: ExternalRequestDiagnostics,
)
    requires
        old(diagnostics).slow_requests@.len() <= WEBDAV_RETAINED_REQUEST_PROFILES,
        slowest_first(old(diagnostics).slow_requests@),
    ensures
        slowest_first(final(diagnostics).slow_requests@),
        final(diagnostics).slow_requests@ == retained_profiles(
            old(diagnostics).slow_requests@,
            profile,
        ),
        final(diagnostics).slow_requests@.len() <= WEBDAV_RETAINED_REQUEST_PROFILES,
        same_listing_counts(*final(diagnostics), *old(diagnostics)),
{
    if profile.duration_ms < WEBDAV_SLOW_REQUEST_MS && diagnostics.slow_requests.len()
        >= WEBDAV_RETAINED_REQUEST_PROFILES {
        return ;
    }
    let ghost kept = diagnostics.slow_requests@;
    proof {
        lemma_slower_prefix(kept, profile.duration_ms);
    }
    let mut p: usize = 0;
    while p < diagnostics.slow_requests.len() && diagnostics.slow_requests[p].duration_ms
        >= profile.duration_ms
        invariant
            diagnostics.slow_requests@ == kept,
            p <= kept.len(),
            0 <= slower_prefix_len(kept, profile.duration_ms) <= kept.len(),
            forall|i: int|
                0 <= i < slower_prefix_len(kept, profile.duration_ms) ==> kept[i].duration_ms
                    >= profile.duration_ms,
            slower_prefix_len(kept, profile.duration_ms) < kept.len() ==> kept[slower_prefix_len(
                kept,
                profile.duration_ms,
            )].duration_ms < profile.duration_ms,
            forall|i: int| 0 <= i < p ==> kept[i].duration_ms >= profile.duration_ms,
        decreases kept.len() - p,
    {
        p += 1;
    }
    assert(p == slower_prefix_len(kept, profile.duration_ms));
    diagnostics.slow_requests.insert(p, profile);
    assert(diagnostics.slow_requests@ =~= kept.take(p as int).push(profile) + kept.skip(p as int));
    proof {
        let g = diagnostics.slow_requests@;
        assert forall|i: int, j: int| 0 <= i < j < g.len() implies g[i].duration_ms
            >= g[j].duration_ms by {
            if i < p && j < p {
            } else if i < p && j == p {
            } else if i < p && j > p {
                assert(g[j] == kept[j - 1]);
            } else if i == p {
                assert(g[j] == kept[j - 1]);
                if p < kept.len() {
                    assert(kept[p as int].duration_ms < profile.duration_ms);
                    assert(kept[p as int].duration_ms >= kept[j - 1].duration_ms || j - 1 == p);
                }
            } else {
                assert(g[i] == kept[i - 1]);
                assert(g[j] == kept[j - 1]);
            }
        }
    }
    if diagnostics.slow_requests.len() > WEBDAV_RETAINED_REQUEST_PROFILES {
        diagnostics.slow_requests.truncate(WEBDAV_RETAINED_REQUEST_PROFILES);
    }
}

/// How many ASCII digits `s` starts with.
pub open spec fn leading_digit_count(s: Seq<char>) -> nat
    decreases s.len(),
{
    if s.len() > 0 && crate::text::is_ascii_digit(s[0]) {
        1 + leading_digit_count(s.drop_first())
    } else {
        0
    }
}

/// The number that the ASCII digits `s` spell.
pub open spec fn digits_value(s: Seq<char>) -> nat
    decreases s.len(),
{
    if s.len() == 0 {
        0
    } else {
        digits_value(s.drop_last()) * 10 + ((s.last() as u32) - 48) as nat
    }
}

/// A character that may separate a track number from the title.
pub open spec fn is_number_separator(c: char) -> bool {
    crate::text::is_ws(c) || c == '-' || c == '.' || c == '_' || c == ')' || c == ']'
}

/// `s` without its leading separators.
pub open spec fn strip_number_separators(s: Seq<char>) -> Seq<char>
    decreases s.len(),
{
    if s.len() > 0 && is_number_separator(s[0]) {
        strip_number_separators(s.drop_first())
    } else {
        s
    }
}

/// A leading track number (one to three digits, not zero) and the title
/// after it; `(0, value)` (trimmed) when there is no such number or nothing
/// follows it.
pub open spec fn split_track_number(value: Seq<char>) -> (u32, Seq<char>) {
    let t = trim_seq(value);
    let n = leading_digit_count(t);
    if n == 0 || n > 3 {
        (0, t)
    } else {
        let number = digits_value(t.take(n as int));
        let rest = trim_seq(strip_number_separators(t.skip(n as int)));
        if number == 0 || rest.len() == 0 {
            (0, t)
        } else {
            (number as u32, rest)
        }
    }
}

proof fn lemma_leading_digits(s: Seq<char>, i: int)
    requires
        0 <= i <= s.len(),
        forall|k: int| 0 <= k < i ==> crate::text::is_ascii_digit(s[k]),
        i == s.len() || !crate::text::is_ascii_digit(s[i]),
    ensures
        leading_digit_count(s) == i,
    decreases i,
{
    if i > 0 {
        lemma_leading_digits(s.drop_first(), i - 1);
    }
}

proof fn lemma_strip_separators(s: Seq<char>, i: int)
    requires
        0 <= i <= s.len(),
        forall|k: int| 0 <= k < i ==> is_number_separator(s[k]),
        i == s.len() || !is_number_separator(s[i]),
    ensures
        strip_number_separators(s) == s.skip(i),
    decreases i,
{
    if i > 0 {
        lemma_strip_separators(s.drop_first(), i - 1);
        assert(s.drop_first().skip(i - 1) =~= s.skip(i));
    } else {
        assert(s.skip(0) =~= s);
    }
}

fn char_is_number_separator(c: char) -> (r: bool)
    ensures
        r == is_number_separator(c),
{
    crate::text::char_is_ws(c) || c == '-' || c == '.' || c == '_' || c == ')' || c == ']'
}

/// A leading track number and the title after it.
pub fn split_leading_track_number(value: &str) -> (r: (u32, String))
    ensures
        r.0 == split_track_number(value@).0,
        r.1@ == split_track_number(value@).1,
{
    let t = trim(value);
    let v = chars_of(t.as_str());
    let mut n: usize = 0;
    while n < v.len() && '0' <= v[n] && v[n] <= '9'
        invariant
            n <= v.len(),
            forall|k: int| 0 <= k < n ==> crate::text::is_ascii_digit(v@[k]),
        decreases v.len() - n,
    {
        n += 1;
    }
    proof {
        lemma_leading_digits(v@, n as int);
    }
    if n == 0 || n > 3 {
        return (0, t);
    }
    let mut number: u32 = 0;
    let mut k: usize = 0;
    while k < n
        invariant
            k <= n <= 3,
            n <= v.len(),
            forall|j: int| 0 <= j < n ==> crate::text::is_ascii_digit(v@[j]),
            number == digits_value(v@.take(k as int)),
            number < 1000,
            (k == 0 ==> number == 0),
            (k == 1 ==> number < 10),
            (k == 2 ==> number < 100),
        decreases n - k,
    {
        assert(v@.take(k + 1).drop_last() =~= v@.take(k as int));
        let d = (v[k] as u32) - 48;
        number = number * 10 + d;
        k += 1;
    }
    let mut j: usize = n;
    while j < v.len() && char_is_number_separator(v[j])
        invariant
            n <= j <= v.len(),
            forall|m: int| n <= m < j ==> is_number_separator(v@[m]),
        decreases v.len() - j,
    {
        j += 1;
    }
    proof {
        lemma_strip_separators(v@.skip(n as int), j - n);
        assert(v@.skip(n as int).skip(j - n) =~= v@.skip(j as int));
    }
    let after = string_from_range(&v, j, v.len());
    let rest = trim(after.as_str());
    if number == 0 || rest.as_str().is_empty() {
        return (0, t);
    }
    (number, rest)
}

/// Whether ` - ` stands in `s` at `k`.
pub open spec fn dash_at(s: Seq<char>, k: int) -> bool {
    crate::text::occurs_at(s, " - "@, k)
}

/// The first position from `from` on where ` - ` stands, `s.len()` when
/// there is none.
pub open spec fn next_dash(s: Seq<char>, from: int) -> int
    decreases s.len() - from,
{
    if from < 0 || from >= s.len() {
        s.len() as int
    } else if dash_at(s, from) {
        from
    } else {
        next_dash(s, from + 1)
    }
}

pub proof fn lemma_next_dash(s: Seq<char>, from: int)
    requires
        0 <= from <= s.len(),
    ensures
        from <= next_dash(s, from) <= s.len(),
        next_dash(s, from) < s.len() ==> dash_at(s, next_dash(s, from)),
        forall|k: int| from <= k < next_dash(s, from) ==> !dash_at(s, k),
    decreases s.len() - from,
{
    if from < s.len() && !dash_at(s, from) {
        lemma_next_dash(s, from + 1);
    }
}

/// The pieces of `s[start..]` between occurrences of ` - `, as
/// `str::split(" - ")` yields them.
pub open spec fn pieces_from(s: Seq<char>, start: int) -> Seq<Seq<char>>
    decreases s.len() - start,
{
    if start < 0 || start > s.len() {
        seq![]
    } else {
        let e = next_dash(s, start);
        if e >= s.len() || e < start {
            seq![s.subrange(start, s.len() as int)]
        } else {
            proof {
                lemma_next_dash(s, start);
                reveal_strlit(" - ");
            }
            seq![s.subrange(start, e)] + pieces_from(s, e + 3)
        }
    }
}

/// The pieces trimmed, blank ones left out.
pub open spec fn title_parts(pieces: Seq<Seq<char>>) -> Seq<Seq<char>>
    decreases pieces.len(),
{
    if pieces.len() == 0 {
        seq![]
    } else {
        let t = trim_seq(pieces[0]);
        let rest = title_parts(pieces.drop_first());
        if t.len() > 0 {
            seq![t] + rest
        } else {
            rest
        }
    }
}

/// The parts joined by ` - `.
pub open spec fn join_dash(parts: Seq<Seq<char>>) -> Seq<char>
    decreases parts.len(),
{
    if parts.len() == 0 {
        seq![]
    } else if parts.len() == 1 {
        parts[0]
    } else {
        join_dash(parts.drop_last()) + " - "@ + parts.last()
    }
}

/// The title, artist and track number guessed from a file name: the stem
/// loses a leading track number; with `allow_artist_split`, a stem of at
/// least two ` - `-separated parts names the artist first and the title
/// after; otherwise the title is the stem.
pub open spec fn inferred_from_file_name(file_name: Seq<char>, allow_artist_split: bool) -> (
    Seq<char>,
    Seq<char>,
    u32,
) {
    let stem = file_stem(file_name);
    let (number, source) = split_track_number(stem);
    let parts = title_parts(pieces_from(source, 0));
    if allow_artist_split && parts.len() >= 2 {
        (join_dash(parts.skip(1)), parts[0], number)
    } else {
        (sanitized_track_title(source), seq![], number)
    }
}

fn dash_parts(value: &str) -> (r: Vec<String>)
    ensures
        texts_of(r@) == title_parts(pieces_from(value@, 0)),
{
    let v = chars_of(value);
    let mut sep: Vec<char> = Vec::new();
    sep.push(' ');
    sep.push('-');
    sep.push(' ');
    proof {
        reveal_strlit(" - ");
        assert(sep@ =~= " - "@);
    }
    let mut parts: Vec<String> = Vec::new();
    let mut start: usize = 0;
    let mut i: usize = 0;
    while i < v.len()
        invariant
            v@ == value@,
            sep@ == " - "@,
            start <= i <= v.len(),
            next_dash(v@, i as int) == next_dash(v@, start as int),
            texts_of(parts@) + title_parts(pieces_from(v@, start as int)) == title_parts(
                pieces_from(v@, 0),
            ),
        decreases v.len() - i,
    {
        proof {
            reveal_strlit(" - ");
        }
        if crate::text::chars_occur_at(&v, &sep, i) {
            proof {
                lemma_next_dash(v@, start as int);
            }
            assert(next_dash(v@, i as int) == i);
            let piece = string_from_range(&v, start, i);
            let t = trim(piece.as_str());
            let ghost before = parts@;
            let ghost rest = pieces_from(v@, i + 3);
            assert(pieces_from(v@, start as int) == seq![v@.subrange(start as int, i as int)] + rest);
            assert((seq![v@.subrange(start as int, i as int)] + rest).drop_first() =~= rest);
            if !t.as_str().is_empty() {
                parts.push(t);
                assert(texts_of(parts@) =~= texts_of(before) + seq![trim_seq(piece@)]);
            }
            proof {
                assert(texts_of(parts@) + title_parts(rest) =~= texts_of(before) + title_parts(
                    pieces_from(v@, start as int),
                ));
            }
            start = i + 3;
            i = i + 3;
            proof {
                assert(next_dash(v@, i as int) == next_dash(v@, start as int));
            }
        } else {
            i += 1;
        }
    }
    proof {
        lemma_next_dash(v@, start as int);
    }
    let piece = string_from_range(&v, start, v.len());
    let t = trim(piece.as_str());
    let ghost before = parts@;
    assert(pieces_from(v@, start as int) == seq![v@.subrange(start as int, v@.len() as int)]);
    assert(seq![v@.subrange(start as int, v@.len() as int)].drop_first() =~= Seq::<Seq<char>>::empty());
    if !t.as_str().is_empty() {
        parts.push(t);
        assert(texts_of(parts@) =~= texts_of(before) + seq![trim_seq(piece@)]);
    }
    assert(texts_of(parts@) =~= texts_of(parts@) + title_parts(Seq::<Seq<char>>::empty()));
    parts
}

/// The texts of a sequence of strings.
pub open spec fn texts_of(items: Seq<String>) -> Seq<Seq<char>> {
    items.map_values(|s: String| s@)
}

fn join_parts(parts: &Vec<String>, from: usize) -> (r: String)
    requires
        from < parts.len(),
    ensures
        r@ == join_dash(texts_of(parts@).skip(from as int)),
{
    let mut out = parts[from].clone();
    let mut k: usize = from + 1;
    proof {
        reveal_strlit(" - ");
        assert(texts_of(parts@).subrange(from as int, k as int) =~= seq![parts@[from as int]@]);
    }
    while k < parts.len()
        invariant
            from < k <= parts@.len(),
            out@ == join_dash(texts_of(parts@).subrange(from as int, k as int)),
        decreases parts@.len() - k,
    {
        let with_sep = crate::text::concat(out.as_str(), " - ");
        out = crate::text::concat(with_sep.as_str(), parts[k].as_str());
        assert(texts_of(parts@).subrange(from as int, k + 1).drop_last() =~= texts_of(parts@).subrange(
            from as int,
            k as int,
        ));
        k += 1;
    }
    assert(texts_of(parts@).subrange(from as int, parts@.len() as int) =~= texts_of(parts@).skip(
        from as int,
    ));
    out
}

/// Title, artist and track number guessed from a file name (album and
/// album artist are left empty).
pub fn infer_metadata_from_file_name(file_name: &str, allow_artist_split: bool) -> (r:
    InferredRemoteMetadata)
    ensures
        r.title@ == inferred_from_file_name(file_name@, allow_artist_split).0,
        r.artist@ == inferred_from_file_name(file_name@, allow_artist_split).1,
        r.track_number == inferred_from_file_name(file_name@, allow_artist_split).2,
        r.album_artist@.len() == 0,
        r.album@.len() == 0,
{
    let stem = stem_of(file_name);
    let (track_number, title_source) = split_leading_track_number(stem.as_str());
    let parts = dash_parts(title_source.as_str());
    if allow_artist_split && parts.len() >= 2 {
        let title = join_parts(&parts, 1);
        assert(texts_of(parts@)[0] == parts@[0]@);
        InferredRemoteMetadata {
            title,
            artist: parts[0].clone(),
            album_artist: String::new(),
            album: String::new(),
            track_number,
        }
    } else {
        InferredRemoteMetadata {
            title: sanitize_track_title(title_source.as_str()),
            artist: String::new(),
            album_artist: String::new(),
            album: String::new(),
            track_number,
        }
    }
}

pub const ENDPOINT_REQUIRED_ERROR: &'static str = "External source endpoint is required.";
pub const ENDPOINT_INVALID_PREFIX: &'static str = "Invalid external source endpoint: ";
pub const ENDPOINT_SCHEME_ERROR: &'static str = "External source endpoint must use http or https.";
pub const WEBDAV_ROOT_ERROR_PREFIX: &'static str = "Failed to resolve WebDAV root URL: ";
pub const WEBDAV_ENTRY_ERROR_PREFIX: &'static str = "Failed to resolve WebDAV entry URL: ";
pub const SUBSONIC_URL_ERROR_PREFIX: &'static str = "Failed to build Subsonic API URL: ";

/// The text an endpoint is parsed from: trimmed, with a trailing `/`.
pub open spec fn endpoint_text(endpoint: Seq<char>) -> Seq<char> {
    let t = trim_seq(endpoint);
    if crate::text::has_suffix(t, "/"@) {
        t
    } else {
        t + "/"@
    }
}

/// An endpoint's scheme is one the player can talk to.
pub open spec fn is_http_scheme(scheme: Seq<char>) -> bool {
    scheme == "http"@ || scheme == "https"@
}

/// The base URL of an external source: the endpoint trimmed and made a
/// directory, which must parse and use http or https.
pub fn normalize_endpoint(endpoint: &str) -> (r: Result<ParsedUrl, String>)
    ensures
        trim_seq(endpoint@).len() == 0 ==> (r matches Err(e) && e@ == ENDPOINT_REQUIRED_ERROR@),
        trim_seq(endpoint@).len() > 0 ==> match url_parse_parts(endpoint_text(endpoint@)) {
            None => r matches Err(e) && crate::text::has_prefix(e@, ENDPOINT_INVALID_PREFIX@),
            Some(p) => if is_http_scheme(p.1) {
                r matches Ok(u) && u.parts() == p
            } else {
                r matches Err(e) && e@ == ENDPOINT_SCHEME_ERROR@
            },
        },
{
    let t = trim(endpoint);
    if t.as_str().is_empty() {
        return Err(to_owned(ENDPOINT_REQUIRED_ERROR));
    }
    proof {
        reveal_strlit("/");
        reveal_strlit("http");
        reveal_strlit("https");
        reveal_strlit("Invalid external source endpoint: ");
    }
    let text = if crate::text::ends_with(t.as_str(), "/") {
        t
    } else {
        crate::text::concat(t.as_str(), "/")
    };
    match parse_url(text.as_str()) {
        Err(error) => {
            let e = crate::text::concat(ENDPOINT_INVALID_PREFIX, error.as_str());
            assert(e@.subrange(0, ENDPOINT_INVALID_PREFIX@.len() as int) =~= ENDPOINT_INVALID_PREFIX@);
            Err(e)
        },
        Ok(url) => {
            if str_eq(url.scheme(), "http") || str_eq(url.scheme(), "https") {
                Ok(url)
            } else {
                Err(to_owned(ENDPOINT_SCHEME_ERROR))
            }
        },
    }
}

/// Whether an endpoint makes a base URL (see `normalize_endpoint`).
pub open spec fn endpoint_accepted(endpoint: Seq<char>) -> bool {
    &&& trim_seq(endpoint).len() > 0
    &&& url_parse_parts(endpoint_text(endpoint)) matches Some(p)
    &&& is_http_scheme(p.1)
}

/// `e` is the error that `normalize_endpoint` gives for a refused
/// endpoint: required when blank, the invalid-endpoint prefix when it does
/// not parse, the scheme error otherwise.
pub open spec fn endpoint_error(endpoint: Seq<char>, e: Seq<char>) -> bool {
    if trim_seq(endpoint).len() == 0 {
        e == ENDPOINT_REQUIRED_ERROR@
    } else {
        match url_parse_parts(endpoint_text(endpoint)) {
            None => crate::text::has_prefix(e, ENDPOINT_INVALID_PREFIX@),
            Some(p) => e == ENDPOINT_SCHEME_ERROR@,
        }
    }
}

/// `e` is an error of a URL built on the endpoint: the endpoint's own error
/// when it is refused, else one that starts with `prefix`.
pub open spec fn endpoint_url_error(endpoint: Seq<char>, prefix: Seq<char>, e: Seq<char>) -> bool {
    if endpoint_accepted(endpoint) {
        crate::text::has_prefix(e, prefix)
    } else {
        endpoint_error(endpoint, e)
    }
}

/// The URL made a directory: a `/` is added to a path without one.
pub open spec fn directory_parts(parts: (Seq<char>, Seq<char>, Option<Seq<char>>, Option<u16>, Seq<char>)) -> (Seq<char>, Seq<char>, Option<Seq<char>>, Option<u16>, Seq<char>) {
    if crate::text::has_suffix(parts.4, "/"@) {
        parts
    } else {
        url_set_path_parts(parts.0, parts.4 + "/"@)
    }
}

/// The URL with a trailing `/` on its path.
pub fn with_directory_trailing_slash(url: ParsedUrl) -> (r: ParsedUrl)
    ensures
        r.parts() == directory_parts(url.parts()),
{
    proof {
        reveal_strlit("/");
    }
    if crate::text::ends_with(url.path(), "/") {
        url
    } else {
        let path = crate::text::concat(url.path(), "/");
        with_path(url, path.as_str())
    }
}

/// Whether a WebDAV source's root URL can be formed: its endpoint parses
/// with http or https, and its root path, if any, joins onto it.
pub open spec fn webdav_root_resolvable(connection: ExternalLibraryConnection) -> bool {
    &&& trim_seq(connection.endpoint@).len() > 0
    &&& url_parse_parts(endpoint_text(connection.endpoint@)) matches Some(base)
    &&& is_http_scheme(base.1)
    &&& match present_seq(opt_text(connection.root_path)) {
        None => true,
        Some(root) => url_join_parts(base.0, crate::text::strip_leading(root, '/')) is Some,
    }
}

/// The root URL of a WebDAV source: the endpoint, joined with the root path
/// (without leading `/`) when there is one, as a directory.
pub fn resolve_webdav_root_url(connection: &ExternalLibraryConnection) -> (r: Result<
    ParsedUrl,
    String,
>)
    ensures
        match r {
            Ok(u) => url_parse_parts(endpoint_text(connection.endpoint@)) matches Some(base)
                && is_http_scheme(base.1) && match present_seq(opt_text(connection.root_path)) {
                None => u.parts() == directory_parts(base),
                Some(root) => url_join_parts(base.0, crate::text::strip_leading(root, '/'))
                    matches Some(j) && u.parts() == directory_parts(j),
            },
            Err(e) => endpoint_url_error(connection.endpoint@, WEBDAV_ROOT_ERROR_PREFIX@, e@),
        },
        (r is Ok) == webdav_root_resolvable(*connection),
{
    let endpoint = match normalize_endpoint(connection.endpoint.as_str()) {
        Ok(u) => u,
        Err(e) => return Err(e),
    };
    let ghost base = endpoint.parts();
    let root = match &connection.root_path {
        Some(p) => crate::catalog_db::normalized_optional_text(Some(p.as_str())),
        None => None,
    };
    match root {
        None => Ok(with_directory_trailing_slash(endpoint)),
        Some(root) => {
            let relative = crate::text::trim_start_matches(root.as_str(), '/');
            match join_url(&endpoint, relative.as_str()) {
                Ok(joined) => Ok(with_directory_trailing_slash(joined)),
                Err(error) => {
                    let e = crate::text::concat(WEBDAV_ROOT_ERROR_PREFIX, error.as_str());
                    assert(e@.subrange(0, WEBDAV_ROOT_ERROR_PREFIX@.len() as int) =~= WEBDAV_ROOT_ERROR_PREFIX@);
                    Err(e)
                },
            }
        },
    }
}

/// Same scheme, domain and (default) port.
pub open spec fn same_origin(a: (Seq<char>, Seq<char>, Option<Seq<char>>, Option<u16>, Seq<char>), b: (Seq<char>, Seq<char>, Option<Seq<char>>, Option<u16>, Seq<char>)) -> bool {
    a.1 == b.1 && a.2 == b.2 && a.3 == b.3
}

/// Whether two URLs share scheme, domain and port.
pub fn same_url_origin(left: &ParsedUrl, right: &ParsedUrl) -> (r: bool)
    ensures
        r == same_origin(left.parts(), right.parts()),
{
    let domains = match (left.domain(), right.domain()) {
        (Some(a), Some(b)) => str_eq(a, b),
        (None, None) => true,
        _ => false,
    };
    str_eq(left.scheme(), right.scheme()) && domains && left.port_or_known_default()
        == right.port_or_known_default()
}

/// `candidate` lies under `root`: same origin, and its path is the root's
/// path (without trailing `/`) or goes on below it after a `/`.
pub open spec fn in_url_scope(root: (Seq<char>, Seq<char>, Option<Seq<char>>, Option<u16>, Seq<char>), candidate: (Seq<char>, Seq<char>, Option<Seq<char>>, Option<u16>, Seq<char>)) -> bool {
    let rp = crate::text::strip_trailing(root.4, '/');
    same_origin(root, candidate) && (rp.len() == 0 || rp == "/"@ || candidate.4 == rp || (
    crate::text::has_prefix(candidate.4, rp) && candidate.4.len() > rp.len() && candidate.4[rp.len() as int]
        == '/'))
}

/// Whether `candidate` lies under `root`.
pub fn same_url_scope(root: &ParsedUrl, candidate: &ParsedUrl) -> (r: bool)
    ensures
        r == in_url_scope(root.parts(), candidate.parts()),
{
    if !same_url_origin(root, candidate) {
        return false;
    }
    proof {
        reveal_strlit("/");
    }
    let root_path = crate::text::trim_end_matches(root.path(), '/');
    if root_path.as_str().is_empty() || str_eq(root_path.as_str(), "/") {
        return true;
    }
    let candidate_path = candidate.path();
    if str_eq(candidate_path, root_path.as_str()) {
        return true;
    }
    let cv = chars_of(candidate_path);
    let rv = chars_of(root_path.as_str());
    crate::text::starts_with(candidate_path, root_path.as_str()) && cv.len() > rv.len() && cv[rv.len()]
        == '/'
}

/// The URL of a WebDAV entry: its href resolved against the root, else the
/// href parsed on its own.
pub fn resolve_webdav_entry_url(root_url: &ParsedUrl, href: &str) -> (r: Result<ParsedUrl, String>)
    ensures
        match url_join_parts(root_url.parts().0, href@) {
            Some(j) => r matches Ok(u) && u.parts() == j,
            None => match url_parse_parts(href@) {
                Some(p) => r matches Ok(u) && u.parts() == p,
                None => r matches Err(e) && crate::text::has_prefix(e@, WEBDAV_ENTRY_ERROR_PREFIX@),
            },
        },
{
    match join_url(root_url, href) {
        Ok(u) => Ok(u),
        Err(_) => match parse_url(href) {
            Ok(u) => Ok(u),
            Err(error) => {
                let e = crate::text::concat(WEBDAV_ENTRY_ERROR_PREFIX, error.as_str());
                assert(e@.subrange(0, WEBDAV_ENTRY_ERROR_PREFIX@.len() as int) =~= WEBDAV_ENTRY_ERROR_PREFIX@);
                Err(e)
            },
        },
    }
}

/// The bytes of `b[i..]` with each `%` followed by two hexadecimal digits
/// replaced by the byte they spell.
pub open spec fn percent_decoded_from(b: Seq<u8>, i: int) -> Seq<u8>
    decreases b.len() - i,
{
    if i < 0 || i >= b.len() {
        seq![]
    } else if b[i] == 37 && i + 2 < b.len() && hex_digit_value(b[i + 1]) is Some
        && hex_digit_value(b[i + 2]) is Some {
        seq![
            (hex_digit_value(b[i + 1])->0 * 16 + hex_digit_value(b[i + 2])->0) as u8,
        ] + percent_decoded_from(b, i + 3)
    } else {
        seq![b[i]] + percent_decoded_from(b, i + 1)
    }
}

/// A URL path segment percent-decoded, read as (lossy) UTF-8 and trimmed.
pub open spec fn percent_decoded_segment(segment: Seq<char>) -> Seq<char> {
    trim_seq(utf8_lossy_text(percent_decoded_from(vstd::utf8::encode_utf8(segment), 0)))
}

/// A URL path segment percent-decoded.
pub fn percent_decode_path_segment(segment: &str) -> (r: String)
    ensures
        r@ == percent_decoded_segment(segment@),
{
    let bytes = segment.as_bytes();
    let mut out: Vec<u8> = Vec::new();
    let mut i: usize = 0;
    while i < bytes.len()
        invariant
            i <= bytes@.len(),
            bytes@ == vstd::utf8::encode_utf8(segment@),
            out@ + percent_decoded_from(bytes@, i as int) == percent_decoded_from(bytes@, 0),
        decreases bytes@.len() - i,
    {
        let ghost before = out@;
        if bytes[i] == 37 && bytes.len() - i > 2 {
            let high = hex_value(bytes[i + 1]);
            let low = hex_value(bytes[i + 2]);
            if let (Some(h), Some(l)) = (high, low) {
                out.push(h * 16 + l);
                assert(out@ + percent_decoded_from(bytes@, i + 3) =~= before + percent_decoded_from(
                    bytes@,
                    i as int,
                ));
                i += 3;
                continue;
            }
        }
        out.push(bytes[i]);
        assert(out@ + percent_decoded_from(bytes@, i + 1) =~= before + percent_decoded_from(
            bytes@,
            i as int,
        ));
        i += 1;
    }
    assert(out@ =~= out@ + percent_decoded_from(bytes@, i as int));
    let text = utf8_lossy(out.as_slice());
    trim(text.as_str())
}

/// The first position from `from` on that holds `/`, `s.len()` when none
/// does.
pub open spec fn next_slash(s: Seq<char>, from: int) -> int
    decreases s.len() - from,
{
    if from < 0 || from >= s.len() {
        s.len() as int
    } else if s[from] == '/' {
        from
    } else {
        next_slash(s, from + 1)
    }
}

pub proof fn lemma_next_slash(s: Seq<char>, from: int)
    requires
        0 <= from <= s.len(),
    ensures
        from <= next_slash(s, from) <= s.len(),
        next_slash(s, from) < s.len() ==> s[next_slash(s, from)] == '/',
        forall|k: int| from <= k < next_slash(s, from) ==> s[k] != '/',
    decreases s.len() - from,
{
    if from < s.len() && s[from] != '/' {
        lemma_next_slash(s, from + 1);
    }
}

/// The non-empty `/`-separated pieces of `s[start..]`.
pub open spec fn slash_pieces_from(s: Seq<char>, start: int) -> Seq<Seq<char>>
    decreases s.len() - start,
{
    if start < 0 || start > s.len() {
        seq![]
    } else {
        let e = next_slash(s, start);
        let piece = if start <= e <= s.len() {
            s.subrange(start, e)
        } else {
            seq![]
        };
        let head = if piece.len() > 0 {
            seq![piece]
        } else {
            seq![]
        };
        if e < s.len() && e >= start {
            proof {
                lemma_next_slash(s, start);
            }
            head + slash_pieces_from(s, e + 1)
        } else {
            head
        }
    }
}

/// The decoded path segments of a URL path (none when the path does not
/// start with `/`): the non-empty pieces, each percent-decoded.
pub open spec fn decoded_segments(path: Seq<char>) -> Seq<Seq<char>> {
    if path.len() > 0 && path[0] == '/' {
        slash_pieces_from(path, 1).map_values(|p: Seq<char>| percent_decoded_segment(p))
    } else {
        seq![]
    }
}

/// The decoded, non-empty path segments of a URL.
pub fn decoded_url_path_segments(url: &ParsedUrl) -> (r: Vec<String>)
    ensures
        texts_of(r@) == decoded_segments(url.parts().4),
{
    let v = chars_of(url.path());
    let mut out: Vec<String> = Vec::new();
    if v.len() == 0 || v[0] != '/' {
        assert(texts_of(out@) =~= Seq::<Seq<char>>::empty());
        return out;
    }
    let ghost all = slash_pieces_from(v@, 1);
    let mut start: usize = 1;
    let mut i: usize = 1;
    while i < v.len()
        invariant
            1 <= start <= i <= v.len(),
            v@ == url.parts().4,
            all == slash_pieces_from(v@, 1),
            next_slash(v@, i as int) == next_slash(v@, start as int),
            texts_of(out@) + slash_pieces_from(v@, start as int).map_values(
                |p: Seq<char>| percent_decoded_segment(p),
            ) == all.map_values(|p: Seq<char>| percent_decoded_segment(p)),
        decreases v.len() - i,
    {
        if v[i] == '/' {
            proof {
                lemma_next_slash(v@, start as int);
            }
            assert(next_slash(v@, i as int) == i);
            let ghost before = out@;
            let ghost piece = v@.subrange(start as int, i as int);
            let ghost rest = slash_pieces_from(v@, i + 1);
            assert(slash_pieces_from(v@, start as int) == (if piece.len() > 0 {
                seq![piece]
            } else {
                seq![]
            }) + rest);
            if i > start {
                let seg = string_from_range(&v, start, i);
                let decoded = percent_decode_path_segment(seg.as_str());
                out.push(decoded);
                assert(texts_of(out@) =~= texts_of(before).push(percent_decoded_segment(piece)));
            }
            proof {
                let f = |p: Seq<char>| percent_decoded_segment(p);
                if piece.len() > 0 {
                    assert((seq![piece] + rest).map_values(f) =~= seq![f(piece)] + rest.map_values(f));
                } else {
                    assert((Seq::<Seq<char>>::empty() + rest).map_values(f) =~= rest.map_values(f));
                }
                assert(texts_of(out@) + rest.map_values(f) =~= texts_of(before)
                    + slash_pieces_from(v@, start as int).map_values(f));
            }
            start = i + 1;
            i = i + 1;
        } else {
            i += 1;
        }
    }
    proof {
        lemma_next_slash(v@, start as int);
    }
    let ghost before = out@;
    let ghost piece = v@.subrange(start as int, v@.len() as int);
    assert(slash_pieces_from(v@, start as int) == if piece.len() > 0 {
        seq![piece]
    } else {
        Seq::<Seq<char>>::empty()
    });
    if start < v.len() {
        let seg = string_from_range(&v, start, v.len());
        let decoded = percent_decode_path_segment(seg.as_str());
        out.push(decoded);
        assert(texts_of(out@) =~= texts_of(before).push(percent_decoded_segment(piece)));
    }
    proof {
        let f = |p: Seq<char>| percent_decoded_segment(p);
        if piece.len() > 0 {
            assert(seq![piece].map_values(f) =~= seq![f(piece)]);
        } else {
            assert(Seq::<Seq<char>>::empty().map_values(f) =~= Seq::<Seq<char>>::empty());
        }
        assert(texts_of(out@) =~= all.map_values(f));
    }
    out
}

/// The segments that are not blank.
pub open spec fn nonblank_segments(segments: Seq<Seq<char>>) -> Seq<Seq<char>>
    decreases segments.len(),
{
    if segments.len() == 0 {
        seq![]
    } else {
        let before = nonblank_segments(segments.drop_last());
        if trim_seq(segments.last()).len() > 0 {
            before.push(segments.last())
        } else {
            before
        }
    }
}

/// The directories between the root and an entry: the entry's segments
/// without its last one, without the root's segments when they lead them,
/// blank ones left out.
pub open spec fn relative_directories(root: Seq<Seq<char>>, entry: Seq<Seq<char>>) -> Seq<Seq<char>> {
    let e = if entry.len() > 0 {
        entry.drop_last()
    } else {
        entry
    };
    let rest = if root.len() > 0 && root.len() <= e.len() && e.take(root.len() as int) == root {
        e.skip(root.len() as int)
    } else {
        e
    };
    nonblank_segments(rest)
}

/// The directories between a WebDAV root and an entry.
pub fn relative_webdav_directories(root_url: &ParsedUrl, entry_url: &ParsedUrl) -> (r: Vec<String>)
    ensures
        texts_of(r@) == relative_directories(
            decoded_segments(root_url.parts().4),
            decoded_segments(entry_url.parts().4),
        ),
{
    let root = decoded_url_path_segments(root_url);
    let entry = decoded_url_path_segments(entry_url);
    let ghost rs = texts_of(root@);
    let ghost es = texts_of(entry@);
    let mut end: usize = entry.len();
    if end > 0 {
        end = end - 1;
    }
    let ghost e = if es.len() > 0 {
        es.drop_last()
    } else {
        es
    };
    assert(texts_of(entry@.take(end as int)) =~= e);
    let mut begin: usize = 0;
    if root.len() > 0 && root.len() <= end {
        let mut k: usize = 0;
        let mut same = true;
        while k < root.len()
            invariant
                k <= root@.len() <= end <= entry@.len(),
                same == forall|m: int| 0 <= m < k ==> root@[m]@ == entry@[m]@,
            decreases root@.len() - k,
        {
            if !str_eq(root[k].as_str(), entry[k].as_str()) {
                same = false;
            }
            k += 1;
        }
        if same {
            assert(e.take(rs.len() as int) =~= rs);
            begin = root.len();
        } else {
            assert(e.take(rs.len() as int) != rs) by {
                let m = choose|m: int| 0 <= m < root@.len() && root@[m]@ != entry@[m]@;
                assert(e.take(rs.len() as int)[m] == entry@[m]@);
            }
        }
    }
    let ghost rest = texts_of(entry@.subrange(begin as int, end as int));
    assert(rest == if rs.len() > 0 && rs.len() <= e.len() && e.take(rs.len() as int) == rs {
        e.skip(rs.len() as int)
    } else {
        e
    });
    let mut out: Vec<String> = Vec::new();
    let mut k: usize = begin;
    while k < end
        invariant
            begin <= k <= end <= entry@.len(),
            texts_of(out@) == nonblank_segments(texts_of(entry@.subrange(begin as int, k as int))),
        decreases end - k,
    {
        assert(texts_of(entry@.subrange(begin as int, k + 1)).drop_last() =~= texts_of(
            entry@.subrange(begin as int, k as int),
        ));
        let t = trim(entry[k].as_str());
        if !t.as_str().is_empty() {
            let ghost before = out@;
            out.push(entry[k].clone());
            assert(texts_of(out@) =~= texts_of(before).push(entry@[k as int]@));
        }
        k += 1;
    }
    out
}

/// The last decoded segment of a URL's path, else the last segment of the
/// path as it is.
pub open spec fn url_basename(path: Seq<char>) -> Seq<char> {
    let segments = decoded_segments(path);
    if segments.len() > 0 {
        segments.last()
    } else {
        path_basename(path)
    }
}

/// The file name a URL points at.
pub fn basename_from_url(url: &ParsedUrl) -> (r: String)
    ensures
        r@ == url_basename(url.parts().4),
{
    let segments = decoded_url_path_segments(url);
    if segments.len() > 0 {
        let last = segments.len() - 1;
        assert(texts_of(segments@).last() == segments@[last as int]@);
        segments[last].clone()
    } else {
        basename_from_path(url.path())
    }
}

/// Tags guessed for a WebDAV file: from its file name (an artist may be
/// split off only when there is no artist folder), with the album from the
/// last folder and the artist from the folder above it where the file name
/// names none.
pub open spec fn inferred_webdav_tags(directories: Seq<Seq<char>>, file_name: Seq<char>) -> (
    Seq<char>,
    Seq<char>,
    Seq<char>,
    Seq<char>,
    u32,
) {
    let album = if directories.len() > 0 {
        directories.last()
    } else {
        seq![]
    };
    let folder_artist = if directories.len() >= 2 {
        directories[directories.len() - 2]
    } else {
        seq![]
    };
    let m = inferred_from_file_name(file_name, folder_artist.len() == 0);
    (
        m.0,
        if m.1.len() == 0 {
            folder_artist
        } else {
            m.1
        },
        folder_artist,
        album,
        m.2,
    )
}

/// Tags guessed for a WebDAV file from where it lies and how it is named.
pub fn infer_webdav_track_metadata(root_url: &ParsedUrl, entry_url: &ParsedUrl, file_name: &str) -> (r:
    InferredRemoteMetadata)
    ensures
        ({
            let t = inferred_webdav_tags(
                relative_directories(
                    decoded_segments(root_url.parts().4),
                    decoded_segments(entry_url.parts().4),
                ),
                file_name@,
            );
            &&& r.title@ == t.0
            &&& r.artist@ == t.1
            &&& r.album_artist@ == t.2
            &&& r.album@ == t.3
            &&& r.track_number == t.4
        }),
{
    let directories = relative_webdav_directories(root_url, entry_url);
    let n = directories.len();
    let album = if n > 0 {
        directories[n - 1].clone()
    } else {
        String::new()
    };
    let folder_artist = if n >= 2 {
        directories[n - 2].clone()
    } else {
        String::new()
    };
    proof {
        if n > 0 {
            assert(texts_of(directories@).last() == directories@[n - 1]@);
        }
        if n >= 2 {
            assert(texts_of(directories@)[n - 2] == directories@[n - 2]@);
        }
    }
    let mut metadata = infer_metadata_from_file_name(file_name, folder_artist.as_str().is_empty());
    metadata.album = album;
    metadata.album_artist = folder_artist.clone();
    if metadata.artist.as_str().is_empty() {
        metadata.artist = folder_artist;
    }
    metadata
}

/// The query pairs that authenticate a Subsonic request: user name (as
/// given), API version, client and format; then token and salt when both
/// are present, else the hex-encoded password when present.
pub open spec fn subsonic_auth_pairs(auth: ExternalLibraryAuth) -> Seq<(Seq<char>, Seq<char>)> {
    let user = match auth.username {
        Some(u) => u@,
        None => seq![],
    };
    let base = seq![
        ("u"@, user),
        ("v"@, SUBSONIC_API_VERSION@),
        ("c"@, SUBSONIC_CLIENT_NAME@),
        ("f"@, "json"@),
    ];
    match (present_seq(opt_text(auth.token)), present_seq(opt_text(auth.salt))) {
        (Some(t), Some(salt)) => base + seq![("t"@, t), ("s"@, salt)],
        _ => match present_seq(opt_text(auth.password)) {
            Some(p) => base + seq![("p"@, "enc:"@ + hex_text(vstd::utf8::encode_utf8(p)))],
            None => base,
        },
    }
}

/// The URL of Subsonic method `method` on the endpoint, before its query:
/// `None` when the endpoint is unusable or the join fails.
pub open spec fn subsonic_method_parts(endpoint: Seq<char>, method: Seq<char>) -> Option<(Seq<char>, Seq<char>, Option<Seq<char>>, Option<u16>, Seq<char>)> {
    if trim_seq(endpoint).len() > 0 {
        match url_parse_parts(endpoint_text(endpoint)) {
            Some(base) => if is_http_scheme(base.1) {
                url_join_parts(base.0, "rest/"@ + method + ".view"@)
            } else {
                None
            },
            None => None,
        }
    } else {
        None
    }
}

/// The credentials, or none at all.
pub open spec fn auth_or_empty(auth: Option<ExternalLibraryAuth>) -> ExternalLibraryAuth {
    match auth {
        Some(a) => a,
        None => ExternalLibraryAuth { username: None, password: None, token: None, salt: None },
    }
}

fn pair_of(key: &str, value: &str) -> (r: (String, String))
    ensures
        r.0@ == key@,
        r.1@ == value@,
{
    (to_owned(key), to_owned(value))
}

/// The authentication pairs of a Subsonic request.
fn subsonic_auth_query_pairs(auth: &ExternalLibraryAuth) -> (pairs: Vec<(String, String)>)
    ensures
        pairs@.map_values(|p: (String, String)| (p.0@, p.1@)) == subsonic_auth_pairs(*auth),
{
    proof {
        reveal_strlit("u");
        reveal_strlit("v");
        reveal_strlit("c");
        reveal_strlit("f");
        reveal_strlit("json");
        reveal_strlit("t");
        reveal_strlit("s");
        reveal_strlit("p");
        reveal_strlit("enc:");
        reveal_strlit("");
    }
    let mut pairs: Vec<(String, String)> = Vec::new();
    let user = match &auth.username {
        Some(u) => u.as_str(),
        None => "",
    };
    pairs.push(pair_of("u", user));
    pairs.push(pair_of("v", SUBSONIC_API_VERSION));
    pairs.push(pair_of("c", SUBSONIC_CLIENT_NAME));
    pairs.push(pair_of("f", "json"));
    let ghost user_text = crate::text::opt_text(auth.username).unwrap_or(Seq::<char>::empty());
    let ghost base = seq![
        ("u"@, user_text),
        ("v"@, SUBSONIC_API_VERSION@),
        ("c"@, SUBSONIC_CLIENT_NAME@),
        ("f"@, "json"@),
    ];
    assert(user@ =~= user_text);
    assert(pairs@.map_values(|p: (String, String)| (p.0@, p.1@)) =~~= base);
    let token = match &auth.token {
        Some(t) => crate::catalog_db::normalized_optional_text(Some(t.as_str())),
        None => None,
    };
    let salt = match &auth.salt {
        Some(t) => crate::catalog_db::normalized_optional_text(Some(t.as_str())),
        None => None,
    };
    let password = match &auth.password {
        Some(t) => crate::catalog_db::normalized_optional_text(Some(t.as_str())),
        None => None,
    };
    match (token, salt) {
        (Some(t), Some(sa)) => {
            pairs.push(pair_of("t", t.as_str()));
            pairs.push(pair_of("s", sa.as_str()));
            assert(pairs@.map_values(|p: (String, String)| (p.0@, p.1@)) =~= base + seq![
                ("t"@, t@),
                ("s"@, sa@),
            ]);
        },
        _ => {
            if let Some(p) = password {
                let hex = hex_encode(p.as_str().as_bytes());
                let value = crate::text::concat("enc:", hex.as_str());
                pairs.push(pair_of("p", value.as_str()));
                assert(pairs@.map_values(|p: (String, String)| (p.0@, p.1@)) =~= base + seq![
                    ("p"@, value@),
                ]);
            } else {
                assert(pairs@.map_values(|p: (String, String)| (p.0@, p.1@)) =~= base);
            }
        },
    }
    assert(pairs@.map_values(|p: (String, String)| (p.0@, p.1@)) =~= subsonic_auth_pairs(*auth));
    pairs
}

/// The URL of Subsonic API method `method` with `params`: the endpoint
/// joined with `rest/<method>.view`, with the authentication pairs and then
/// `params` in its query.
pub fn build_subsonic_url(
    connection: &ExternalLibraryConnection,
    method: &str,
    params: &Vec<(String, String)>,
) -> (r: Result<String, String>)
    ensures
        match subsonic_method_parts(connection.endpoint@, method@) {
            Some(j) => r matches Ok(href) && href@ == url_extend_pairs_parts(
                j.0,
                subsonic_auth_pairs(auth_or_empty(connection.auth)) + params@.map_values(
                    |p: (String, String)| (p.0@, p.1@),
                ),
            ).0,
            None => r matches Err(e) && endpoint_url_error(connection.endpoint@, SUBSONIC_URL_ERROR_PREFIX@, e@),
        },
{
    let endpoint = match normalize_endpoint(connection.endpoint.as_str()) {
        Ok(u) => u,
        Err(e) => return Err(e),
    };
    proof {
        reveal_strlit("rest/");
        reveal_strlit(".view");
        reveal_strlit("u");
        reveal_strlit("v");
        reveal_strlit("c");
        reveal_strlit("f");
        reveal_strlit("json");
        reveal_strlit("t");
        reveal_strlit("s");
        reveal_strlit("p");
        reveal_strlit("enc:");
    }
    let head = crate::text::concat("rest/", method);
    let relative = crate::text::concat(head.as_str(), ".view");
    let url = match join_url(&endpoint, relative.as_str()) {
        Ok(u) => u,
        Err(error) => {
            let e = crate::text::concat(SUBSONIC_URL_ERROR_PREFIX, error.as_str());
            assert(e@.subrange(0, SUBSONIC_URL_ERROR_PREFIX@.len() as int) =~= SUBSONIC_URL_ERROR_PREFIX@);
            return Err(e);
        },
    };
    let empty = ExternalLibraryAuth { username: None, password: None, token: None, salt: None };
    let auth = match &connection.auth {
        Some(a) => a,
        None => &empty,
    };
    let mut pairs = subsonic_auth_query_pairs(auth);
    let ghost auth_pairs = pairs@.map_values(|p: (String, String)| (p.0@, p.1@));
    let mut k: usize = 0;
    while k < params.len()
        invariant
            k <= params@.len(),
            pairs@.map_values(|p: (String, String)| (p.0@, p.1@)) == auth_pairs + params@.take(
                k as int,
            ).map_values(|p: (String, String)| (p.0@, p.1@)),
        decreases params@.len() - k,
    {
        let ghost before = pairs@;
        pairs.push((params[k].0.clone(), params[k].1.clone()));
        assert(params@.take(k + 1) =~= params@.take(k as int).push(params@[k as int]));
        assert(pairs@.map_values(|p: (String, String)| (p.0@, p.1@)) =~= before.map_values(
            |p: (String, String)| (p.0@, p.1@),
        ).push((params@[k as int].0@, params@[k as int].1@)));
        k += 1;
    }
    assert(params@.take(params@.len() as int) =~= params@);
    let with_query = with_query_pairs(&url, &pairs);
    Ok(to_owned(with_query.as_str()))
}

/// Where the extension of a cached download comes from: the track's
/// format, else the extension of its file name, else the extension of the
/// URL's path.
pub open spec fn cache_extension_source(
    format: Option<Seq<char>>,
    file_name: Option<Seq<char>>,
    url: Seq<char>,
) -> Seq<char> {
    match present_seq(format) {
        Some(f) => f,
        None => match present_seq(file_name) {
            Some(n) => file_extension(n),
            None => match url_parse_parts(url) {
                Some(p) => file_extension(p.4),
                None => seq![],
            },
        },
    }
}

/// The extension of a cached download: its source without leading dots,
/// ASCII lower-cased; `audio` unless that is one to eight ASCII letters and
/// digits.
pub open spec fn cache_extension(format: Option<Seq<char>>, file_name: Option<Seq<char>>, url: Seq<char>) -> Seq<char> {
    let e = lower_seq(crate::text::strip_leading(cache_extension_source(format, file_name, url), '.'));
    if e.len() == 0 || e.len() > 8 || !(forall|i: int| 0 <= i < e.len() ==> crate::text::is_ascii_alphanumeric(#[trigger] e[i])) {
        "audio"@
    } else {
        e
    }
}

/// The extension under which a download is cached.
#[verifier::loop_isolation(false)]
pub fn resolve_cache_extension(format: Option<&str>, file_name: Option<&str>, url: &str) -> (r: String)
    ensures
        r@ == cache_extension(
            match format {
                Some(f) => Some(f@),
                None => None,
            },
            match file_name {
                Some(n) => Some(n@),
                None => None,
            },
            url@,
        ),
{
    let source = match crate::catalog_db::normalized_optional_text(format) {
        Some(f) => f,
        None => match crate::catalog_db::normalized_optional_text(file_name) {
            Some(n) => extension_from_name(n.as_str()),
            None => match parse_url(url) {
                Ok(u) => extension_from_name(u.path()),
                Err(_) => String::new(),
            },
        },
    };
    let stripped = crate::text::trim_start_matches(source.as_str(), '.');
    let e = to_ascii_lowercase(stripped.as_str());
    let v = chars_of(e.as_str());
    proof {
        reveal_strlit("audio");
    }
    if v.len() == 0 || v.len() > 8 {
        return to_owned("audio");
    }
    let mut i: usize = 0;
    while i < v.len()
        invariant
            i <= v.len(),
            v@ == e@,
            forall|k: int| 0 <= k < i ==> crate::text::is_ascii_alphanumeric(#[trigger] v@[k]),
        decreases v.len() - i,
    {
        let c = v[i];
        if !(('a' <= c && c <= 'z') || ('A' <= c && c <= 'Z') || ('0' <= c && c <= '9')) {
            assert(!crate::text::is_ascii_alphanumeric(v@[i as int]));
            assert(!(forall|k: int| 0 <= k < e@.len() ==> crate::text::is_ascii_alphanumeric(#[trigger] e@[k])));
            return to_owned("audio");
        }
        i += 1;
    }
    e
}

} // verus!
