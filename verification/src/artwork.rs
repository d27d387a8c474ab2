//! Track artwork: data-URL parsing, content hashing and the asset file name
//! under which decoded artwork is stored.
use vstd::prelude::*;
use base64::Engine;
use crate::text::{
    before_first, chars_of, concat, contains, contains_seq, find_char, first_index_of,
    has_prefix, hex_fixed, lower_seq, decimal, starts_with, str_eq, str_in, string_from_range,
    to_ascii_lowercase, to_owned, trim, trim_seq, u64_to_decimal, u64_to_hex_fixed,
};

verus! {

/// The FNV-1a 64-bit hash of `bytes`.
pub open spec fn fnv1a64(bytes: Seq<u8>) -> u64
    decreases bytes.len(),
{
    if bytes.len() == 0 {
        0xcbf29ce484222325u64
    } else {
        vstd::wrapping::u64_specs::wrapping_mul(
            fnv1a64(bytes.drop_last()) ^ (bytes.last() as u64),
            0x100000001b3u64,
        )
    }
}

/// What `base64`'s standard engine decodes `text` to, or `None` when it
/// rejects the text.
pub uninterp spec fn base64_standard_decode(text: Seq<char>) -> Option<Seq<u8>>;

/// Decodes `payload` with `base64::engine::general_purpose::STANDARD`.
/// The contract claims that the result is the one `base64_standard_decode`
/// names for this text, and that an error comes exactly when that is `None`;
/// the error's wording is not stated.
#[verifier::external_body]
pub(crate) fn decode_base64_standard(payload: &str) -> (r: Result<Vec<u8>, String>)
    ensures
        match r {
            Ok(bytes) => base64_standard_decode(payload@) == Some(bytes@),
            Err(_) => base64_standard_decode(payload@) is None,
        },
{
    base64::engine::general_purpose::STANDARD.decode(payload).map_err(|error| format!("{error}"))
}

/// The character of the standard base64 alphabet for the value `v`
/// (`A`–`Z`, `a`–`z`, `0`–`9`, `+`, `/`).
pub open spec fn base64_digit(v: int) -> char {
    if v < 26 {
        ((65 + v) as u32) as char
    } else if v < 52 {
        ((97 + v - 26) as u32) as char
    } else if v < 62 {
        ((48 + v - 52) as u32) as char
    } else if v == 62 {
        '+'
    } else {
        '/'
    }
}

/// Standard base64 with padding: every three bytes give four characters of
/// six bits each; a last one or two bytes give two or three characters and
/// `=` to fill four.
pub open spec fn base64_encoded(b: Seq<u8>) -> Seq<char>
    decreases b.len(),
{
    if b.len() == 0 {
        seq![]
    } else {
        let x = b[0] as int;
        let y = if b.len() > 1 {
            b[1] as int
        } else {
            0
        };
        let z = if b.len() > 2 {
            b[2] as int
        } else {
            0
        };
        let first = seq![base64_digit(x / 4), base64_digit((x % 4) * 16 + y / 16)];
        if b.len() == 1 {
            first + seq!['=', '=']
        } else if b.len() == 2 {
            first + seq![base64_digit((y % 16) * 4), '=']
        } else {
            first + seq![base64_digit((y % 16) * 4 + z / 64), base64_digit(z % 64)]
                + base64_encoded(b.skip(3))
        }
    }
}

/// Encodes `bytes` with `base64::engine::general_purpose::STANDARD`. The
/// contract states the encoding in full, and that the same engine decodes
/// it back to `bytes` (its padding is canonical); lengths whose encoded
/// size overflows are left out, as the crate panics on them.
#[verifier::external_body]
pub(crate) fn encode_base64_standard(bytes: &[u8]) -> (r: String)
    requires
        bytes@.len() <= usize::MAX / 4 * 3,
    ensures
        r@ == base64_encoded(bytes@),
        base64_standard_decode(r@) == Some(bytes@),
{
    base64::engine::general_purpose::STANDARD.encode(bytes)
}

/// The parts of a `data:` URL with a base64 payload.
pub struct ParsedDataUrl {
    pub mime_type: String,
    pub payload: String,
}

/// The MIME type that a data URL's metadata (what precedes its first comma)
/// names: the text after `data:` up to the first `;`, trimmed and ASCII
/// lower-cased, `image/jpeg` when empty. The `data:` prefix is matched with
/// its case as written; lower-case matching only decides acceptance.
pub open spec fn data_url_mime(metadata: Seq<char>) -> Seq<char> {
    let rest = if has_prefix(metadata, "data:"@) {
        metadata.skip(5)
    } else {
        Seq::<char>::empty()
    };
    let head = trim_seq(before_first(rest, ';'));
    lower_seq(if head.len() == 0 { "image/jpeg"@ } else { head })
}

/// The data URL that `value` is, when it is one with a base64 payload:
/// `Some((mime type, payload))`.
pub open spec fn data_url_parts(value: Seq<char>) -> Option<(Seq<char>, Seq<char>)> {
    match first_index_of(value, ',') {
        None => None,
        Some(i) => {
            let metadata = value.take(i);
            let payload = trim_seq(value.skip(i + 1));
            if !has_prefix(lower_seq(metadata), "data:"@) || !contains_seq(
                lower_seq(metadata),
                ";base64"@,
            ) || payload.len() == 0 {
                None
            } else {
                Some((data_url_mime(metadata), payload))
            }
        },
    }
}

/// Splits a `data:<mime>;base64,<payload>` URL into its MIME type and its
/// trimmed payload; `None` for anything else.
pub fn parse_base64_data_url(value: &str) -> (r: Option<ParsedDataUrl>)
    ensures
        match (r, data_url_parts(value@)) {
            (Some(parsed), Some((mime, payload))) => parsed.mime_type@ == mime
                && parsed.payload@ == payload,
            (None, None) => true,
            _ => false,
        },
{
    let v = chars_of(value);
    let comma = match find_char(&v, ',') {
        Some(i) => i,
        None => return None,
    };
    let metadata = string_from_range(&v, 0, comma);
    let payload_raw = string_from_range(&v, comma + 1, v.len());
    proof {
        assert(metadata@ == value@.take(comma as int));
        assert(payload_raw@ == value@.skip(comma + 1));
    }
    let metadata_lower = to_ascii_lowercase(metadata.as_str());
    if !starts_with(metadata_lower.as_str(), "data:") || !contains(
        metadata_lower.as_str(),
        ";base64",
    ) {
        return None;
    }
    let rest = if starts_with(metadata.as_str(), "data:") {
        proof {
            reveal_strlit("data:");
        }
        let mv = chars_of(metadata.as_str());
        assert(mv@.skip(5) == mv@.subrange(5, mv@.len() as int));
        string_from_range(&mv, 5, mv.len())
    } else {
        String::new()
    };
    let head = crate::text::split_first(rest.as_str(), ';');
    let head = trim(head.as_str());
    let chosen = if head.as_str().is_empty() {
        to_owned("image/jpeg")
    } else {
        head
    };
    let mime_type = to_ascii_lowercase(chosen.as_str());
    let payload = trim(payload_raw.as_str());
    if payload.as_str().is_empty() {
        return None;
    }
    Some(ParsedDataUrl { mime_type, payload })
}

/// The file extension for an image MIME type.
pub open spec fn image_extension_for(mime: Seq<char>) -> Seq<char> {
    let m = lower_seq(trim_seq(mime));
    if m == "image/png"@ {
        "png"@
    } else if m == "image/webp"@ {
        "webp"@
    } else if m == "image/gif"@ {
        "gif"@
    } else if m == "image/bmp"@ || m == "image/x-ms-bmp"@ {
        "bmp"@
    } else if m == "image/jpeg"@ || m == "image/jpg"@ || m == "image/pjpeg"@ {
        "jpg"@
    } else {
        "img"@
    }
}

/// The file extension under which artwork of this MIME type is stored.
pub fn image_extension_for_mime(mime_type: &str) -> (r: &'static str)
    ensures
        r@ == image_extension_for(mime_type@),
{
    let t = trim(mime_type);
    let m = to_ascii_lowercase(t.as_str());
    let m = m.as_str();
    if str_eq(m, "image/png") {
        "png"
    } else if str_eq(m, "image/webp") {
        "webp"
    } else if str_eq(m, "image/gif") {
        "gif"
    } else if str_eq(m, "image/bmp") || str_eq(m, "image/x-ms-bmp") {
        "bmp"
    } else if str_in(m, &["image/jpeg", "image/jpg", "image/pjpeg"]) {
        "jpg"
    } else {
        "img"
    }
}

/// The FNV-1a 64-bit hash of `bytes` as 16 lower-case hexadecimal digits.
pub fn fnv1a64_hex(bytes: &[u8]) -> (r: String)
    ensures
        r@ == hex_fixed(fnv1a64(bytes@) as nat, 16),
{
    let mut hash: u64 = 0xcbf29ce484222325u64;
    let mut i: usize = 0;
    while i < bytes.len()
        invariant
            i <= bytes@.len(),
            hash == fnv1a64(bytes@.take(i as int)),
        decreases bytes@.len() - i,
    {
        assert(bytes@.take(i + 1).drop_last() == bytes@.take(i as int));
        hash = (hash ^ (bytes[i] as u64)).wrapping_mul(0x100000001b3u64);
        i += 1;
    }
    assert(bytes@.take(bytes@.len() as int) == bytes@);
    u64_to_hex_fixed(hash, 16)
}

/// The stored artwork reference: the asset path when there is one, else the
/// artwork text; both trimmed.
pub fn resolve_stored_track_artwork(artwork_text: String, artwork_path: String) -> (r: String)
    ensures
        r@ == if trim_seq(artwork_path@).len() > 0 {
            trim_seq(artwork_path@)
        } else {
            trim_seq(artwork_text@)
        },
{
    let path = trim(artwork_path.as_str());
    if !path.as_str().is_empty() {
        return path;
    }
    trim(artwork_text.as_str())
}

/// Track artwork as the catalog stores it.
pub struct StoredTrackArtwork {
    pub artwork_text: String,
    pub artwork_path: String,
    pub mime_type: String,
    pub content_hash: String,
    pub byte_length: i64,
}

/// Decoded embedded artwork, ready to be written under `file_name` in the
/// artwork asset directory.
pub struct TrackArtworkAsset {
    pub file_name: String,
    pub bytes: Vec<u8>,
    pub mime_type: String,
    pub content_hash: String,
    pub byte_length: i64,
}

/// What storing a piece of artwork amounts to: keeping its text as it is, or
/// writing a decoded asset file.
pub enum TrackArtworkPlan {
    Inline(StoredTrackArtwork),
    Asset(TrackArtworkAsset),
}

/// `n` as an `i64`, `i64::MAX` when it does not fit.
pub open spec fn clamp_i64(n: nat) -> i64 {
    if n <= i64::MAX as nat {
        n as i64
    } else {
        i64::MAX
    }
}

fn usize_to_i64_saturating(n: usize) -> (r: i64)
    ensures
        r == clamp_i64(n as nat),
{
    if n as u64 <= i64::MAX as u64 {
        n as i64
    } else {
        i64::MAX
    }
}

/// The asset file name for decoded artwork: `<hash>-<byte count>.<extension>`.
pub open spec fn artwork_asset_file_name(bytes: Seq<u8>, mime: Seq<char>) -> Seq<char> {
    hex_fixed(fnv1a64(bytes) as nat, 16) + "-"@ + decimal(bytes.len()) + "."@
        + image_extension_for(mime)
}

/// Decides how a piece of track artwork is stored. Empty (after trimming)
/// artwork is `None`; text that is not a base64 data URL is kept inline;
/// a data URL is decoded into an asset, and a payload that does not decode
/// is an error.
pub fn plan_track_artwork(value: &str) -> (r: Result<Option<TrackArtworkPlan>, String>)
    ensures
        trim_seq(value@).len() == 0 ==> r matches Ok(None),
        trim_seq(value@).len() > 0 ==> match data_url_parts(trim_seq(value@)) {
            None => r matches Ok(Some(TrackArtworkPlan::Inline(stored))) && stored.artwork_text@
                == trim_seq(value@) && stored.artwork_path@.len() == 0
                && stored.mime_type@.len() == 0 && stored.content_hash@.len() == 0
                && stored.byte_length == clamp_i64(vstd::utf8::encode_utf8(trim_seq(value@)).len()),
            Some((mime, payload)) => match base64_standard_decode(payload) {
                None => r is Err,
                Some(bytes) => r matches Ok(Some(TrackArtworkPlan::Asset(asset)))
                    && asset.bytes@ == bytes && asset.mime_type@ == mime
                    && asset.content_hash@ == hex_fixed(fnv1a64(bytes) as nat, 16)
                    && asset.byte_length == clamp_i64(bytes.len())
                    && asset.file_name@ == artwork_asset_file_name(bytes, mime),
            },
        },
{
    let artwork = trim(value);
    if artwork.as_str().is_empty() {
        return Ok(None);
    }
    let parsed = match parse_base64_data_url(artwork.as_str()) {
        Some(parsed) => parsed,
        None => {
            let len = artwork.as_str().as_bytes().len();
            return Ok(
                Some(
                    TrackArtworkPlan::Inline(
                        StoredTrackArtwork {
                            artwork_text: artwork,
                            artwork_path: String::new(),
                            mime_type: String::new(),
                            content_hash: String::new(),
                            byte_length: usize_to_i64_saturating(len),
                        },
                    ),
                ),
            );
        },
    };
    let bytes = match decode_base64_standard(parsed.payload.as_str()) {
        Ok(bytes) => bytes,
        Err(error) => {
            return Err(concat("Failed to decode embedded track artwork: ", error.as_str()));
        },
    };
    let content_hash = fnv1a64_hex(bytes.as_slice());
    let byte_length = usize_to_i64_saturating(bytes.len());
    let extension = image_extension_for_mime(parsed.mime_type.as_str());
    let name = concat(content_hash.as_str(), "-");
    let name = concat(name.as_str(), u64_to_decimal(bytes.len() as u64).as_str());
    let name = concat(name.as_str(), ".");
    let file_name = concat(name.as_str(), extension);
    Ok(
        Some(
            TrackArtworkPlan::Asset(
                TrackArtworkAsset {
                    file_name,
                    bytes,
                    mime_type: parsed.mime_type,
                    content_hash,
                    byte_length,
                },
            ),
        ),
    )
}

/// The stored form of an asset once it has been written at `artwork_path`.
pub fn stored_track_artwork_for_asset(asset: TrackArtworkAsset, artwork_path: String) -> (r:
    StoredTrackArtwork)
    ensures
        r.artwork_text@.len() == 0,
        r.artwork_path == artwork_path,
        r.mime_type == asset.mime_type,
        r.content_hash == asset.content_hash,
        r.byte_length == asset.byte_length,
{
    StoredTrackArtwork {
        artwork_text: String::new(),
        artwork_path,
        mime_type: asset.mime_type,
        content_hash: asset.content_hash,
        byte_length: asset.byte_length,
    }
}

} // verus!
