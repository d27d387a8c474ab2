//! Which artwork the lyric capsule shows, and the bounded set of thumbnail
//! keys it keeps on disk.
use vstd::prelude::*;
use crate::artwork::{base64_standard_decode, decode_base64_standard};
use crate::text::{
    chars_of, concat, has_prefix, is_ascii_alphanumeric, push_char, str_eq, starts_with, to_owned,
    trim, trim_seq, u64_to_hex_fixed, texts, hex_fixed, find_char, first_index_of, string_from_range,
};

verus! {

pub const CAPSULE_ARTWORK_CACHE_DIR: &'static str = "lyric-capsule-artwork";
pub const CAPSULE_ARTWORK_SIZE: u32 = 128;
pub const CAPSULE_ARTWORK_QUALITY: u8 = 82;
pub const CAPSULE_ARTWORK_MAX_ENTRIES: usize = 96;
pub const CAPSULE_ARTWORK_MAX_SRC_LENGTH: usize = 1024;

/// The artwork a capsule message points at, and how long finding it took.
#[derive(Debug, Clone)]
pub struct CapsuleArtworkRef {
    pub artwork_key: Option<String>,
    pub artwork_src: Option<String>,
    pub cache_ms: u64,
    pub cache_miss: bool,
}

impl Default for CapsuleArtworkRef {
    fn default() -> (r: Self)
        ensures
            r.artwork_key is None,
            r.artwork_src is None,
            r.cache_ms == 0,
            !r.cache_miss,
    {
        CapsuleArtworkRef { artwork_key: None, artwork_src: None, cache_ms: 0, cache_miss: false }
    }
}

/// What to do with a track's artwork before the capsule can show it.
#[derive(Debug)]
pub enum CapsuleArtworkPlan {
    /// The track has no artwork.
    Missing,
    /// The artwork cannot be used (an undecodable data URL or an over-long
    /// source): a cache miss with nothing to show.
    Unusable,
    /// An external source, shown as it is under a hashed key.
    External { key: String, src: String },
    /// An inline image: its decoded bytes go to a thumbnail stored under `key`.
    Thumbnail { key: String, bytes: Vec<u8> },
}

/// What `std::collections::hash_map::DefaultHasher::new()` yields for a
/// string hashed with `Hash::hash` and `Hasher::finish`.
pub uninterp spec fn default_hash_of_str(value: Seq<char>) -> u64;

/// Hashes `value` with a fresh `DefaultHasher` (`value.hash(&mut hasher);
/// hasher.finish()`). Every `DefaultHasher::new()` starts from the same
/// state, so the contract names the result by `default_hash_of_str` of the
/// text; nothing more of the algorithm is stated.
#[verifier::external_body]
fn default_hash(value: &str) -> (r: u64)
    ensures
        r == default_hash_of_str(value@),
{
    let mut hasher = std::collections::hash_map::DefaultHasher::new();
    std::hash::Hash::hash(value, &mut hasher);
    std::hash::Hasher::finish(&hasher)
}

/// A character that may stand in a thumbnail file name.
pub open spec fn is_file_component_char(c: char) -> bool {
    is_ascii_alphanumeric(c) || c == '-' || c == '_'
}

/// `value` with every character that may not stand in a file name replaced
/// by `_`; `track` when `value` is empty.
pub open spec fn sanitized_file_component(value: Seq<char>) -> Seq<char> {
    if value.len() == 0 {
        "track"@
    } else {
        value.map_values(|c: char| if is_file_component_char(c) { c } else { '_' })
    }
}

/// The stable hash of `value` as 16 hexadecimal digits.
pub open spec fn stable_hash_text(value: Seq<char>) -> Seq<char> {
    hex_fixed(default_hash_of_str(value) as nat, 16)
}

/// The plan for a track's artwork, as text: `None` for "missing", and for
/// the other plans their key (with the source or decoded bytes).
pub open spec fn artwork_plan_spec(track_id: Option<Seq<char>>, artwork: Option<Seq<char>>) -> (
    int,
    Seq<char>,
    Seq<char>,
    Seq<u8>,
) {
    let a = match artwork {
        Some(v) => trim_seq(v),
        None => Seq::<char>::empty(),
    };
    if a.len() == 0 {
        (0, seq![], seq![], seq![])
    } else if has_prefix(a, "data:image/"@) {
        match first_index_of(a, ',') {
            None => (1, seq![], seq![], seq![]),
            Some(comma) => match base64_standard_decode(a.skip(comma + 1)) {
                None => (1, seq![], seq![], seq![]),
                Some(bytes) => {
                    let id = match track_id {
                        Some(t) => t,
                        None => "track"@,
                    };
                    (
                        3,
                        sanitized_file_component(id) + "-"@ + stable_hash_text(a),
                        seq![],
                        bytes,
                    )
                },
            },
        }
    } else if (vstd::utf8::encode_utf8(a).len() as usize) > CAPSULE_ARTWORK_MAX_SRC_LENGTH {
        (1, seq![], seq![], seq![])
    } else {
        (2, "external-"@ + stable_hash_text(a), a, seq![])
    }
}

/// The plan in the shape of `artwork_plan_spec`.
pub open spec fn plan_matches(
    plan: CapsuleArtworkPlan,
    expected: (int, Seq<char>, Seq<char>, Seq<u8>),
) -> bool {
    match plan {
        CapsuleArtworkPlan::Missing => expected.0 == 0,
        CapsuleArtworkPlan::Unusable => expected.0 == 1,
        CapsuleArtworkPlan::External { key, src } => expected.0 == 2 && key@ == expected.1
            && src@ == expected.2,
        CapsuleArtworkPlan::Thumbnail { key, bytes } => expected.0 == 3 && key@ == expected.1
            && bytes@ == expected.3,
    }
}

/// `value` made safe to stand in a file name.
pub fn sanitize_file_component(value: &str) -> (r: String)
    ensures
        r@ == sanitized_file_component(value@),
{
    let v = chars_of(value);
    if v.len() == 0 {
        proof {
            reveal_strlit("track");
        }
        return to_owned("track");
    }
    let mut out = String::new();
    let mut i: usize = 0;
    while i < v.len()
        invariant
            i <= v.len(),
            out@ == v@.take(i as int).map_values(
                |c: char| if is_file_component_char(c) { c } else { '_' },
            ),
        decreases v.len() - i,
    {
        let c = v[i];
        let keep = ('a' <= c && c <= 'z') || ('A' <= c && c <= 'Z') || ('0' <= c && c <= '9') || c
            == '-' || c == '_';
        push_char(&mut out, if keep { c } else { '_' });
        assert(v@.take(i + 1) =~= v@.take(i as int).push(c));
        i += 1;
    }
    assert(v@.take(v.len() as int) =~= v@);
    out
}

/// The stable hash of `value`, as 16 hexadecimal digits.
pub fn stable_hash(value: &str) -> (r: String)
    ensures
        r@ == stable_hash_text(value@),
{
    u64_to_hex_fixed(default_hash(value), 16)
}

/// What to do with a track's artwork: nothing when it has none; an inline
/// `data:image/` URL is decoded for a thumbnail keyed by the sanitised track
/// id and the hash of the URL; another source is used as it is, under
/// `external-` and its hash, unless it is longer than
/// `CAPSULE_ARTWORK_MAX_SRC_LENGTH` bytes.
pub fn plan_capsule_artwork(track_id: Option<&str>, artwork: Option<&str>) -> (r:
    CapsuleArtworkPlan)
    ensures
        plan_matches(
            r,
            artwork_plan_spec(
                match track_id {
                    Some(t) => Some(t@),
                    None => None,
                },
                match artwork {
                    Some(a) => Some(a@),
                    None => None,
                },
            ),
        ),
{
    let a = match artwork {
        Some(v) => trim(v),
        None => String::new(),
    };
    if a.as_str().is_empty() {
        return CapsuleArtworkPlan::Missing;
    }
    proof {
        reveal_strlit("data:image/");
        reveal_strlit("-");
        reveal_strlit("external-");
        reveal_strlit("track");
    }
    if starts_with(a.as_str(), "data:image/") {
        let v = chars_of(a.as_str());
        let comma = match find_char(&v, ',') {
            Some(i) => i,
            None => return CapsuleArtworkPlan::Unusable,
        };
        let encoded = string_from_range(&v, comma + 1, v.len());
        assert(encoded@ == a@.skip(comma + 1));
        let bytes = match decode_base64_standard(encoded.as_str()) {
            Ok(b) => b,
            Err(_) => return CapsuleArtworkPlan::Unusable,
        };
        let id = match track_id {
            Some(t) => t,
            None => "track",
        };
        let safe = sanitize_file_component(id);
        let hash = stable_hash(a.as_str());
        let head = concat(safe.as_str(), "-");
        let key = concat(head.as_str(), hash.as_str());
        return CapsuleArtworkPlan::Thumbnail { key, bytes };
    }
    if a.as_str().len() > CAPSULE_ARTWORK_MAX_SRC_LENGTH {
        return CapsuleArtworkPlan::Unusable;
    }
    let hash = stable_hash(a.as_str());
    let key = concat("external-", hash.as_str());
    CapsuleArtworkPlan::External { key, src: a }
}

/// The thumbnail keys that the capsule keeps, oldest first.
#[derive(Debug)]
pub struct CapsuleArtworkCache {
    recent_keys: Vec<String>,
}

impl CapsuleArtworkCache {
    /// The keys, oldest first.
    pub closed spec fn keys(&self) -> Seq<Seq<char>> {
        texts(self.recent_keys@)
    }

    /// No key twice, and never more than `CAPSULE_ARTWORK_MAX_ENTRIES`.
    pub open spec fn wf(&self) -> bool {
        &&& self.keys().len() <= CAPSULE_ARTWORK_MAX_ENTRIES
        &&& self.keys().no_duplicates()
    }

    /// An empty cache.
    pub fn new() -> (r: Self)
        ensures
            r.wf(),
            r.keys() == Seq::<Seq<char>>::empty(),
    {
        let r = CapsuleArtworkCache { recent_keys: Vec::new() };
        assert(r.keys() =~= Seq::<Seq<char>>::empty());
        r
    }

    /// Remembers `artwork_key` as the newest key unless it is already kept;
    /// returns the keys that fell out (oldest first), whose thumbnails are to
    /// be deleted.
    pub fn remember_key(&mut self, artwork_key: &str) -> (evicted: Vec<String>)
        requires
            old(self).wf(),
        ensures
            final(self).wf(),
            old(self).keys().contains(artwork_key@) ==> final(self).keys() == old(self).keys()
                && evicted@.len() == 0,
            !old(self).keys().contains(artwork_key@) ==> {
                let grown = old(self).keys().push(artwork_key@);
                let cut = grown.len() - final(self).keys().len();
                &&& final(self).keys() == grown.skip(cut)
                &&& texts(evicted@) == grown.take(cut)
                &&& final(self).keys().len() == if grown.len()
                    > CAPSULE_ARTWORK_MAX_ENTRIES {
                    CAPSULE_ARTWORK_MAX_ENTRIES as int
                } else {
                    grown.len() as int
                }
            },
    {
        let mut i: usize = 0;
        while i < self.recent_keys.len()
            invariant
                i <= self.recent_keys@.len(),
                self.wf(),
                self == old(self),
                forall|k: int| 0 <= k < i ==> self.keys()[k] != artwork_key@,
            decreases self.recent_keys@.len() - i,
        {
            if str_eq(self.recent_keys[i].as_str(), artwork_key) {
                assert(self.keys()[i as int] == artwork_key@);
                return Vec::new();
            }
            i += 1;
        }
        assert(!self.keys().contains(artwork_key@));
        let ghost before = self.recent_keys@;
        self.recent_keys.push(to_owned(artwork_key));
        assert(texts(self.recent_keys@) =~= texts(before).push(artwork_key@));
        let mut evicted: Vec<String> = Vec::new();
        if self.recent_keys.len() > CAPSULE_ARTWORK_MAX_ENTRIES {
            let ghost grown = self.recent_keys@;
            let stale = self.recent_keys.remove(0);
            evicted.push(stale);
            assert(texts(self.recent_keys@) =~= texts(grown).skip(1));
            assert(texts(evicted@) =~= texts(grown).take(1));
        } else {
            assert(texts(self.recent_keys@).skip(0) =~= texts(self.recent_keys@));
            assert(texts(evicted@) =~= texts(self.recent_keys@).take(0));
        }
        evicted
    }
}

impl Default for CapsuleArtworkCache {
    fn default() -> (r: Self)
        ensures
            r.wf(),
            r.keys() == Seq::<Seq<char>>::empty(),
    {
        CapsuleArtworkCache::new()
    }
}

/// After a key is remembered it is among the kept keys, and the newest one
/// when it was not kept before; remembering it again changes nothing.
pub proof fn law_remembered_key_is_kept(
    before: Seq<Seq<char>>,
    key: Seq<char>,
    after: Seq<Seq<char>>,
)
    requires
        before.len() <= CAPSULE_ARTWORK_MAX_ENTRIES,
        before.contains(key) ==> after == before,
        !before.contains(key) ==> {
            let grown = before.push(key);
            &&& after == grown.skip(grown.len() - after.len())
            &&& after.len() == if grown.len() > CAPSULE_ARTWORK_MAX_ENTRIES {
                CAPSULE_ARTWORK_MAX_ENTRIES as int
            } else {
                grown.len() as int
            }
        },
    ensures
        after.contains(key),
        !before.contains(key) ==> after.last() == key,
{
    if !before.contains(key) {
        let grown = before.push(key);
        assert(after[after.len() - 1] == grown[grown.len() - 1]);
    }
}

} // verus!
