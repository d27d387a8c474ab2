//! Mobile handoff instrumentation: the backend-owned event schema, the
//! sanitising of reported attributes, and the recent-event log.
use vstd::prelude::*;
use crate::artwork::fnv1a64;
use crate::clock::{current_iso_timestamp, new_uuid_v4};
use crate::text::{
    chars_of, concat, hex_fixed, lower_seq, one_of, str_in, to_ascii_lowercase, to_owned, trim,
    trim_seq, u64_to_hex_fixed,
};

verus! {

pub const MOBILE_HANDOFF_PROTOCOL_VERSION: &'static str = "mobile-handoff-v1";

pub const MOBILE_HANDOFF_EVENT_SCHEMA_VERSION: &'static str = "mobile-handoff-events-v1";

pub const MOBILE_HANDOFF_STAGE: &'static str = "instrumentation-foundation";

/// How many recorded events the state keeps.
pub const RECENT_EVENT_LIMIT: usize = 128;

pub const MAX_DURATION_MS: u64 = 86_400_000;

pub const MAX_QUEUE_SIZE: u64 = 10_000;

pub const MAX_POSITION_DRIFT_MS: u64 = 3_600_000;

/// What the backend supports of mobile handoff.
#[derive(Debug, Clone)]
pub struct MobileHandoffCapabilities {
    pub protocol_version: &'static str,
    pub event_schema_version: &'static str,
    pub implementation_stage: &'static str,
    pub backend_owned: bool,
    pub supported_device_platforms: Vec<&'static str>,
    pub discovery_methods: Vec<&'static str>,
    pub control_transports: Vec<&'static str>,
    pub media_transports: Vec<&'static str>,
    pub can_record_events: bool,
    pub can_pair_devices: bool,
    pub can_resume_playback: bool,
    pub can_transfer_media: bool,
    pub requires_telemetry_consent: bool,
}

/// An event as a client reports it.
#[derive(Debug, Clone)]
pub struct MobileHandoffEventRequest {
    pub event: String,
    pub platform: Option<String>,
    pub direction: Option<String>,
    pub transport: Option<String>,
    pub phase: Option<String>,
    pub outcome: Option<String>,
    pub duration_ms: Option<i64>,
    pub error_code: Option<String>,
    pub session_id: Option<String>,
    pub device_id: Option<String>,
    pub track_matched: Option<bool>,
    pub queue_size: Option<i64>,
    pub position_drift_ms: Option<i64>,
}

/// The sanitised attributes of a recorded event.
#[derive(Debug, Clone, Default, PartialEq, Eq)]
pub struct MobileHandoffEventAttributes {
    pub platform: Option<String>,
    pub direction: Option<String>,
    pub transport: Option<String>,
    pub phase: Option<String>,
    pub outcome: Option<String>,
    pub duration_ms: Option<u64>,
    pub error_code: Option<String>,
    pub session_key: Option<String>,
    pub device_key: Option<String>,
    pub track_matched: Option<bool>,
    pub queue_size: Option<u64>,
    pub position_drift_ms: Option<u64>,
}

/// A recorded event.
#[derive(Debug, Clone, PartialEq, Eq)]
pub struct MobileHandoffEventRecord {
    pub id: String,
    pub created_at: String,
    pub event: String,
    pub schema_version: &'static str,
    pub attributes: MobileHandoffEventAttributes,
}

/// What the state reports of itself.
#[derive(Debug, Clone)]
pub struct MobileHandoffStateSnapshot {
    pub protocol_version: &'static str,
    pub event_schema_version: &'static str,
    pub implementation_stage: &'static str,
    pub started_at: String,
    pub last_event_at: Option<String>,
    pub recent_event_count: usize,
    pub recent_events: Vec<MobileHandoffEventRecord>,
}

/// The capabilities of this backend.
pub fn capabilities() -> (r: MobileHandoffCapabilities)
    ensures
        r.protocol_version@ == MOBILE_HANDOFF_PROTOCOL_VERSION@,
        r.event_schema_version@ == MOBILE_HANDOFF_EVENT_SCHEMA_VERSION@,
        r.implementation_stage@ == MOBILE_HANDOFF_STAGE@,
        r.backend_owned,
        r.supported_device_platforms@.map_values(|s: &str| s@) == seq![
            "android"@,
            "harmonyos"@,
        ],
        r.discovery_methods@.map_values(|s: &str| s@) == seq!["mdns"@, "qr"@],
        r.control_transports@.map_values(|s: &str| s@) == seq!["websocket-json"@, "https-json"@],
        r.media_transports@.map_values(|s: &str| s@) == seq!["http-file"@, "http-range"@],
        r.can_record_events,
        !r.can_pair_devices,
        !r.can_resume_playback,
        !r.can_transfer_media,
        r.requires_telemetry_consent,
{
    let r = MobileHandoffCapabilities {
        protocol_version: MOBILE_HANDOFF_PROTOCOL_VERSION,
        event_schema_version: MOBILE_HANDOFF_EVENT_SCHEMA_VERSION,
        implementation_stage: MOBILE_HANDOFF_STAGE,
        backend_owned: true,
        supported_device_platforms: vec!["android", "harmonyos"],
        discovery_methods: vec!["mdns", "qr"],
        control_transports: vec!["websocket-json", "https-json"],
        media_transports: vec!["http-file", "http-range"],
        can_record_events: true,
        can_pair_devices: false,
        can_resume_playback: false,
        can_transfer_media: false,
        requires_telemetry_consent: true,
    };
    assert(r.supported_device_platforms@.map_values(|s: &str| s@) =~= seq!["android"@, "harmonyos"@]);
    assert(r.discovery_methods@.map_values(|s: &str| s@) =~= seq!["mdns"@, "qr"@]);
    assert(r.control_transports@.map_values(|s: &str| s@) =~= seq!["websocket-json"@, "https-json"@]);
    assert(r.media_transports@.map_values(|s: &str| s@) =~= seq!["http-file"@, "http-range"@]);
    r
}

/// The event names of the backend-owned schema.
pub open spec fn allowed_events() -> Seq<Seq<char>> {
    seq![
        "handoff.discovery_started"@, "handoff.discovery_succeeded"@,
        "handoff.discovery_failed"@, "handoff.pairing_started"@,
        "handoff.pairing_succeeded"@, "handoff.pairing_failed"@, "handoff.offer_created"@,
        "handoff.offer_accepted"@, "handoff.offer_rejected"@, "handoff.resume_started"@,
        "handoff.resume_succeeded"@, "handoff.resume_failed"@, "stream.transfer_started"@,
        "stream.transfer_first_byte"@, "stream.transfer_ready"@, "stream.transfer_failed"@,
        "stream.playback_first_audio"@, "stream.playback_stall"@,
        "stream.playback_seek_failed"@,
    ]
}

pub open spec fn allowed_platforms() -> Seq<Seq<char>> {
    seq!["android"@, "harmonyos"@]
}

pub open spec fn allowed_directions() -> Seq<Seq<char>> {
    seq!["phone-to-desktop"@, "desktop-to-phone"@]
}

pub open spec fn allowed_transports() -> Seq<Seq<char>> {
    seq!["mdns"@, "qr"@, "websocket-json"@, "https-json"@, "http-file"@, "http-range"@]
}

pub open spec fn allowed_phases() -> Seq<Seq<char>> {
    seq!["discovery"@, "pairing"@, "offer"@, "resume"@, "transfer"@, "playback"@]
}

pub open spec fn allowed_outcomes() -> Seq<Seq<char>> {
    seq!["started"@, "succeeded"@, "failed"@, "cancelled"@, "rejected"@, "timed-out"@]
}

/// A reported name as the schema compares it: trimmed, ASCII lower-cased.
pub open spec fn normalized_name(value: Seq<char>) -> Seq<char> {
    lower_seq(trim_seq(value))
}

/// The normalized value when it is one of `allowed`.
pub open spec fn allowed_text(value: Option<String>, allowed: Seq<Seq<char>>) -> Option<
    Seq<char>,
> {
    match value {
        Some(v) => if one_of(normalized_name(v@), allowed) {
            Some(normalized_name(v@))
        } else {
            None
        },
        None => None,
    }
}

/// A slug character: ASCII letter or digit, `.`, `_` or `-`.
pub open spec fn is_slug_char(c: char) -> bool {
    ||| ('a' <= c && c <= 'z')
    ||| ('A' <= c && c <= 'Z')
    ||| ('0' <= c && c <= '9')
    ||| c == '.'
    ||| c == '_'
    ||| c == '-'
}

/// The normalized value when it is a non-empty slug of at most `max_len`
/// characters.
pub open spec fn slug(value: Option<String>, max_len: nat) -> Option<Seq<char>> {
    match value {
        Some(v) => {
            let n = normalized_name(v@);
            if n.len() > 0 && n.len() <= max_len && forall|i: int|
                0 <= i < n.len() ==> is_slug_char(#[trigger] n[i]) {
                Some(n)
            } else {
                None
            }
        },
        None => None,
    }
}

/// The bytes of an ASCII text.
pub open spec fn ascii_bytes(s: Seq<char>) -> Seq<u8> {
    s.map_values(|c: char| c as u8)
}

/// The fingerprint of an identifier that is a slug of at most 128 characters:
/// `h` followed by the 16-digit hexadecimal FNV-1a hash of its bytes.
pub open spec fn fingerprint(value: Option<String>) -> Option<Seq<char>> {
    match slug(value, 128) {
        Some(n) => Some(seq!['h'] + hex_fixed(fnv1a64(ascii_bytes(n)) as nat, 16)),
        None => None,
    }
}

/// A non-negative value, capped at `max`.
pub open spec fn bounded(value: Option<i64>, max: u64) -> Option<u64> {
    match value {
        Some(v) => if v >= 0 {
            Some(if v as u64 <= max { v as u64 } else { max })
        } else {
            None
        },
        None => None,
    }
}

/// Whether an optional string's view is the given optional text.
pub open spec fn text_is(value: Option<String>, expected: Option<Seq<char>>) -> bool {
    match (value, expected) {
        (Some(v), Some(e)) => v@ == e,
        (None, None) => true,
        _ => false,
    }
}

/// The attributes that a request's fields sanitise to.
pub open spec fn sanitized_attributes(
    request: MobileHandoffEventRequest,
    a: MobileHandoffEventAttributes,
) -> bool {
    &&& text_is(a.platform, allowed_text(request.platform, allowed_platforms()))
    &&& text_is(a.direction, allowed_text(request.direction, allowed_directions()))
    &&& text_is(a.transport, allowed_text(request.transport, allowed_transports()))
    &&& text_is(a.phase, allowed_text(request.phase, allowed_phases()))
    &&& text_is(a.outcome, allowed_text(request.outcome, allowed_outcomes()))
    &&& a.duration_ms == bounded(request.duration_ms, MAX_DURATION_MS)
    &&& text_is(a.error_code, slug(request.error_code, 64))
    &&& text_is(a.session_key, fingerprint(request.session_id))
    &&& text_is(a.device_key, fingerprint(request.device_id))
    &&& a.track_matched == request.track_matched
    &&& a.queue_size == bounded(request.queue_size, MAX_QUEUE_SIZE)
    &&& a.position_drift_ms == bounded(request.position_drift_ms, MAX_POSITION_DRIFT_MS)
}

fn normalize_name(value: &str) -> (r: String)
    ensures
        r@ == normalized_name(value@),
{
    let t = trim(value);
    to_ascii_lowercase(t.as_str())
}

fn normalize_event_name(value: &str) -> (r: Result<String, String>)
    ensures
        match r {
            Ok(n) => n@ == normalized_name(value@) && one_of(n@, allowed_events()),
            Err(e) => !one_of(normalized_name(value@), allowed_events())
                && e@ == "Mobile handoff event is not part of the backend-owned schema."@,
        },
{
    let normalized = normalize_name(value);
    let allowed: [&str; 19] = [
        "handoff.discovery_started",
        "handoff.discovery_succeeded",
        "handoff.discovery_failed",
        "handoff.pairing_started",
        "handoff.pairing_succeeded",
        "handoff.pairing_failed",
        "handoff.offer_created",
        "handoff.offer_accepted",
        "handoff.offer_rejected",
        "handoff.resume_started",
        "handoff.resume_succeeded",
        "handoff.resume_failed",
        "stream.transfer_started",
        "stream.transfer_first_byte",
        "stream.transfer_ready",
        "stream.transfer_failed",
        "stream.playback_first_audio",
        "stream.playback_stall",
        "stream.playback_seek_failed",
    ];
    let found = str_in(normalized.as_str(), &allowed);
    proof {
        lemma_in_options(allowed@, allowed_events(), normalized@);
    }
    if found {
        Ok(normalized)
    } else {
        Err(to_owned("Mobile handoff event is not part of the backend-owned schema."))
    }
}

/// Membership in an exec list of literals is membership in their views.
proof fn lemma_in_options(options: Seq<&str>, views: Seq<Seq<char>>, s: Seq<char>)
    requires
        options.map_values(|o: &str| o@) =~= views,
    ensures
        (exists|i: int| 0 <= i < options.len() && options[i]@ == s) == one_of(s, views),
{
    if exists|i: int| 0 <= i < options.len() && options[i]@ == s {
        let i = choose|i: int| 0 <= i < options.len() && options[i]@ == s;
        assert(views[i] == s);
    }
    if one_of(s, views) {
        let i = choose|i: int| 0 <= i < views.len() && views[i] == s;
        assert(options[i]@ == views[i]);
    }
}

fn normalize_allowed_text(value: Option<String>, allowed: &[&str], ghost_views: Ghost<
    Seq<Seq<char>>,
>) -> (r: Option<String>)
    requires
        allowed@.map_values(|o: &str| o@) =~= ghost_views@,
    ensures
        text_is(r, allowed_text(value, ghost_views@)),
{
    let value = match value {
        Some(v) => v,
        None => return None,
    };
    let normalized = normalize_name(value.as_str());
    let found = str_in(normalized.as_str(), allowed);
    proof {
        lemma_in_options(allowed@, ghost_views@, normalized@);
    }
    if found {
        Some(normalized)
    } else {
        None
    }
}

fn char_is_slug(c: char) -> (b: bool)
    ensures
        b == is_slug_char(c),
{
    ('a' <= c && c <= 'z') || ('A' <= c && c <= 'Z') || ('0' <= c && c <= '9') || c == '.' || c
        == '_' || c == '-'
}

#[verifier::loop_isolation(false)]
fn normalize_slug(value: Option<String>, max_len: usize) -> (r: Option<String>)
    ensures
        text_is(r, slug(value, max_len as nat)),
{
    let value = match value {
        Some(v) => v,
        None => return None,
    };
    let normalized = normalize_name(value.as_str());
    let v = chars_of(normalized.as_str());
    if v.len() == 0 || v.len() > max_len {
        return None;
    }
    let mut i: usize = 0;
    while i < v.len()
        invariant
            v@ == normalized@,
            normalized@ == normalized_name(value@),
            i <= v.len(),
            forall|k: int| 0 <= k < i ==> is_slug_char(#[trigger] v@[k]),
        decreases v.len() - i,
    {
        if !char_is_slug(v[i]) {
            assert(!is_slug_char(normalized@[i as int]));
            return None;
        }
        i += 1;
    }
    Some(normalized)
}

#[verifier::loop_isolation(false)]
fn fingerprint_identifier(value: Option<String>) -> (r: Option<String>)
    ensures
        text_is(r, fingerprint(value)),
{
    let normalized = match normalize_slug(value, 128) {
        Some(n) => n,
        None => return None,
    };
    let v = chars_of(normalized.as_str());
    let mut hash: u64 = 0xcbf29ce484222325u64;
    let mut i: usize = 0;
    while i < v.len()
        invariant
            v@ == normalized@,
            i <= v.len(),
            hash == fnv1a64(ascii_bytes(v@.take(i as int))),
        decreases v.len() - i,
    {
        assert(ascii_bytes(v@.take(i + 1)).drop_last() == ascii_bytes(v@.take(i as int)));
        assert(ascii_bytes(v@.take(i + 1)).last() == v@[i as int] as u8);
        let byte: u8 = v[i] as u8;
        hash = (hash ^ (byte as u64)).wrapping_mul(0x100000001b3u64);
        i += 1;
    }
    assert(v@.take(v.len() as int) == v@);
    let hex = u64_to_hex_fixed(hash, 16);
    proof {
        reveal_strlit("h");
    }
    assert(hash == fnv1a64(ascii_bytes(normalized@)));
    assert(slug(value, 128) == Some(normalized@));
    assert("h"@ == seq!['h']);
    Some(concat("h", hex.as_str()))
}

fn bounded_u64(value: Option<i64>, max: u64) -> (r: Option<u64>)
    ensures
        r == bounded(value, max),
{
    match value {
        Some(v) => if v >= 0 {
            let u = v as u64;
            Some(
                if u <= max {
                    u
                } else {
                    max
                },
            )
        } else {
            None
        },
        None => None,
    }
}

/// The attributes of a request, sanitised: names outside their allowed sets,
/// malformed codes and negative numbers are dropped, numbers are capped, and
/// identifiers are replaced by fingerprints.
pub fn sanitize_event_attributes(request: &MobileHandoffEventRequest) -> (r:
    MobileHandoffEventAttributes)
    ensures
        sanitized_attributes(*request, r),
{
    let platforms: [&str; 2] = ["android", "harmonyos"];
    let directions: [&str; 2] = ["phone-to-desktop", "desktop-to-phone"];
    let transports: [&str; 6] = [
        "mdns",
        "qr",
        "websocket-json",
        "https-json",
        "http-file",
        "http-range",
    ];
    let phases: [&str; 6] = ["discovery", "pairing", "offer", "resume", "transfer", "playback"];
    let outcomes: [&str; 6] = [
        "started",
        "succeeded",
        "failed",
        "cancelled",
        "rejected",
        "timed-out",
    ];
    MobileHandoffEventAttributes {
        platform: normalize_allowed_text(
            clone_opt_string(&request.platform),
            &platforms,
            Ghost(allowed_platforms()),
        ),
        direction: normalize_allowed_text(
            clone_opt_string(&request.direction),
            &directions,
            Ghost(allowed_directions()),
        ),
        transport: normalize_allowed_text(
            clone_opt_string(&request.transport),
            &transports,
            Ghost(allowed_transports()),
        ),
        phase: normalize_allowed_text(clone_opt_string(&request.phase), &phases, Ghost(allowed_phases())),
        outcome: normalize_allowed_text(
            clone_opt_string(&request.outcome),
            &outcomes,
            Ghost(allowed_outcomes()),
        ),
        duration_ms: bounded_u64(request.duration_ms, MAX_DURATION_MS),
        error_code: normalize_slug(clone_opt_string(&request.error_code), 64),
        session_key: fingerprint_identifier(clone_opt_string(&request.session_id)),
        device_key: fingerprint_identifier(clone_opt_string(&request.device_id)),
        track_matched: request.track_matched,
        queue_size: bounded_u64(request.queue_size, MAX_QUEUE_SIZE),
        position_drift_ms: bounded_u64(request.position_drift_ms, MAX_POSITION_DRIFT_MS),
    }
}

/// The record of a reported event under a given id and creation time: `Ok`
/// exactly when the event name is part of the schema.
pub fn build_event_record_with(
    request: MobileHandoffEventRequest,
    id: String,
    created_at: String,
) -> (r: Result<MobileHandoffEventRecord, String>)
    ensures
        match r {
            Ok(record) => {
                &&& one_of(normalized_name(request.event@), allowed_events())
                &&& record.event@ == normalized_name(request.event@)
                &&& record.id == id
                &&& record.created_at == created_at
                &&& record.schema_version@ == MOBILE_HANDOFF_EVENT_SCHEMA_VERSION@
                &&& sanitized_attributes(request, record.attributes)
            },
            Err(e) => !one_of(normalized_name(request.event@), allowed_events())
                && e@ == "Mobile handoff event is not part of the backend-owned schema."@,
        },
{
    let event = normalize_event_name(request.event.as_str())?;
    let attributes = sanitize_event_attributes(&request);
    Ok(
        MobileHandoffEventRecord {
            id,
            created_at,
            event,
            schema_version: MOBILE_HANDOFF_EVENT_SCHEMA_VERSION,
            attributes,
        },
    )
}

/// The record of a reported event, under a fresh `handoff-event-<uuid>` id and
/// the current time: `Ok` exactly when the event name is part of the schema.
pub fn build_event_record(request: MobileHandoffEventRequest) -> (r: Result<
    MobileHandoffEventRecord,
    String,
>)
    ensures
        match r {
            Ok(record) => {
                &&& one_of(normalized_name(request.event@), allowed_events())
                &&& record.event@ == normalized_name(request.event@)
                &&& record.schema_version@ == MOBILE_HANDOFF_EVENT_SCHEMA_VERSION@
                &&& sanitized_attributes(request, record.attributes)
            },
            Err(e) => !one_of(normalized_name(request.event@), allowed_events())
                && e@ == "Mobile handoff event is not part of the backend-owned schema."@,
        },
{
    let uuid = new_uuid_v4();
    let id = concat("handoff-event-", uuid.as_str());
    let created_at = current_iso_timestamp();
    build_event_record_with(request, id, created_at)
}

/// The handoff state: when it started, the last event's time, and the most
/// recent events (at most `RECENT_EVENT_LIMIT`, oldest first).
pub struct MobileHandoffState {
    started_at: String,
    last_event_at: Option<String>,
    recent_events: Vec<MobileHandoffEventRecord>,
}

impl MobileHandoffState {
    /// The bound on the event log.
    pub closed spec fn wf(self) -> bool {
        self.recent_events@.len() <= RECENT_EVENT_LIMIT
    }

    pub closed spec fn recent(self) -> Seq<MobileHandoffEventRecord> {
        self.recent_events@
    }

    pub closed spec fn started(self) -> String {
        self.started_at
    }

    pub closed spec fn last_event(self) -> Option<String> {
        self.last_event_at
    }

    /// A fresh state started at `started_at`.
    pub fn new(started_at: String) -> (r: Self)
        ensures
            r.wf(),
            r.started() == started_at,
            r.last_event() is None,
            r.recent() == Seq::<MobileHandoffEventRecord>::empty(),
    {
        MobileHandoffState { started_at, last_event_at: None, recent_events: Vec::new() }
    }

    /// Appends `record` to the log, dropping the oldest event when the log is
    /// full, and remembers its creation time as the last event time.
    pub fn record_event(&mut self, record: MobileHandoffEventRecord)
        requires
            old(self).wf(),
        ensures
            final(self).wf(),
            final(self).started() == old(self).started(),
            final(self).last_event() == Some(record.created_at),
            final(self).recent() == if old(self).recent().len() >= RECENT_EVENT_LIMIT {
                old(self).recent().drop_first().push(record)
            } else {
                old(self).recent().push(record)
            },
    {
        self.last_event_at = Some(record.created_at.clone());
        if self.recent_events.len() >= RECENT_EVENT_LIMIT {
            self.recent_events.remove(0);
        }
        self.recent_events.push(record);
    }

    /// What the state reports: the schema versions, its start time, the last
    /// event time and a copy of the log.
    pub fn snapshot(&self) -> (r: MobileHandoffStateSnapshot)
        ensures
            r.protocol_version@ == MOBILE_HANDOFF_PROTOCOL_VERSION@,
            r.event_schema_version@ == MOBILE_HANDOFF_EVENT_SCHEMA_VERSION@,
            r.implementation_stage@ == MOBILE_HANDOFF_STAGE@,
            r.started_at == self.started(),
            r.last_event_at == self.last_event(),
            r.recent_event_count == self.recent().len(),
            r.recent_events@ == self.recent(),
    {
        let mut events: Vec<MobileHandoffEventRecord> = Vec::new();
        let mut i: usize = 0;
        while i < self.recent_events.len()
            invariant
                i <= self.recent_events@.len(),
                events@ == self.recent_events@.take(i as int),
            decreases self.recent_events@.len() - i,
        {
            events.push(clone_record(&self.recent_events[i]));
            assert(self.recent_events@.take(i + 1) == self.recent_events@.take(i as int).push(
                self.recent_events@[i as int],
            ));
            i += 1;
        }
        assert(self.recent_events@.take(self.recent_events@.len() as int) == self.recent_events@);
        MobileHandoffStateSnapshot {
            protocol_version: MOBILE_HANDOFF_PROTOCOL_VERSION,
            event_schema_version: MOBILE_HANDOFF_EVENT_SCHEMA_VERSION,
            implementation_stage: MOBILE_HANDOFF_STAGE,
            started_at: self.started_at.clone(),
            last_event_at: clone_opt_string(&self.last_event_at),
            recent_event_count: self.recent_events.len(),
            recent_events: events,
        }
    }
}

impl Default for MobileHandoffState {
    fn default() -> (r: Self)
        ensures
            r.wf(),
            r.last_event() is None,
            r.recent() == Seq::<MobileHandoffEventRecord>::empty(),
    {
        MobileHandoffState::new(current_iso_timestamp())
    }
}

/// A copy of an optional string.
pub fn clone_opt_string(s: &Option<String>) -> (r: Option<String>)
    ensures
        r == *s,
{
    match s {
        Some(v) => Some(v.clone()),
        None => None,
    }
}

fn clone_record(r: &MobileHandoffEventRecord) -> (c: MobileHandoffEventRecord)
    ensures
        c == *r,
{
    MobileHandoffEventRecord {
        id: r.id.clone(),
        created_at: r.created_at.clone(),
        event: r.event.clone(),
        schema_version: r.schema_version,
        attributes: MobileHandoffEventAttributes {
            platform: clone_opt_string(&r.attributes.platform),
            direction: clone_opt_string(&r.attributes.direction),
            transport: clone_opt_string(&r.attributes.transport),
            phase: clone_opt_string(&r.attributes.phase),
            outcome: clone_opt_string(&r.attributes.outcome),
            duration_ms: r.attributes.duration_ms,
            error_code: clone_opt_string(&r.attributes.error_code),
            session_key: clone_opt_string(&r.attributes.session_key),
            device_key: clone_opt_string(&r.attributes.device_key),
            track_matched: r.attributes.track_matched,
            queue_size: r.attributes.queue_size,
            position_drift_ms: r.attributes.position_drift_ms,
        },
    }
}

/// The log never holds more than `RECENT_EVENT_LIMIT` events, keeps the order
/// in which events were recorded, and always ends with the latest one.
pub proof fn law_recent_events_bounded_and_ordered(
    before: Seq<MobileHandoffEventRecord>,
    record: MobileHandoffEventRecord,
    after: Seq<MobileHandoffEventRecord>,
)
    requires
        before.len() <= RECENT_EVENT_LIMIT,
        after == if before.len() >= RECENT_EVENT_LIMIT {
            before.drop_first().push(record)
        } else {
            before.push(record)
        },
    ensures
        after.len() <= RECENT_EVENT_LIMIT,
        after.last() == record,
        after.drop_last() == before.skip(before.len() - after.drop_last().len()),
{
    if before.len() >= RECENT_EVENT_LIMIT {
        assert(after.drop_last() =~= before.skip(1));
    } else {
        assert(after.drop_last() =~= before);
        assert(before.skip(0) =~= before);
    }
}

/// Identifiers that normalize alike (up to surrounding whitespace and ASCII
/// case) get the same fingerprint, so a session or device is recognized
/// across events without its raw identifier being stored.
pub proof fn law_fingerprint_follows_normalized_identifier(a: String, b: String)
    requires
        normalized_name(a@) == normalized_name(b@),
    ensures
        fingerprint(Some(a)) == fingerprint(Some(b)),
{
}

} // verus!
