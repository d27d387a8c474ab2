//! Audio metadata requests and errors, and the text rules that turn file
//! names and tag values into titles, artists and numbers. Reading the tags
//! themselves happens outside the library.
use vstd::prelude::*;
use crate::audio_formats::path_file_name;
use crate::external_sources::file_stem;
use crate::text::{
    concat, contains_text, last_index_of, opt_text, present_seq, split_last, str_eq, texts,
    to_owned, trim, trim_end_matches, trim_seq,
};

verus! {

pub const CURRENT_TRACK_METADATA_VERSION: u32 = 1;
pub const UNTITLED_TITLE: &'static str = "Untitled";
pub const DEFAULT_TRACK_FILE_NAME: &'static str = "track";

/// A file whose metadata is wanted.
#[derive(Debug, Clone, Default)]
pub struct ParseAudioMetadataRequest {
    pub path: String,
    pub file_name: Option<String>,
}

/// Why metadata could not be read, and whether trying again may help.
#[derive(Debug, Clone)]
pub struct MetadataParseError {
    pub code: String,
    pub message: String,
    pub path: String,
    pub file_name: String,
    pub source: String,
    pub recoverable: bool,
}

impl MetadataParseError {
    /// An error about the file at `path`.
    pub fn new(
        code: &str,
        message: &str,
        path: &str,
        file_name: &str,
        source: String,
        recoverable: bool,
    ) -> (r: MetadataParseError)
        ensures
            r.code@ == code@,
            r.message@ == message@,
            r.path@ == path@,
            r.file_name@ == file_name@,
            r.source == source,
            r.recoverable == recoverable,
    {
        MetadataParseError {
            code: to_owned(code),
            message: to_owned(message),
            path: to_owned(path),
            file_name: to_owned(file_name),
            source,
            recoverable,
        }
    }
}

/// A file's stem, `None` when it is blank.
pub fn path_stem(file_name: &str) -> (r: Option<String>)
    ensures
        opt_text(r) == if file_stem(file_name@).len() > 0 {
            Some(file_stem(file_name@))
        } else {
            None
        },
{
    let v = crate::text::chars_of(file_name);
    let stem = match crate::text::rfind_char(&v, '.') {
        Some(i) => {
            let s = crate::text::string_from_range(&v, 0, i);
            assert(s@ == file_name@.take(i as int));
            trim(s.as_str())
        },
        None => trim(file_name),
    };
    if stem.as_str().is_empty() {
        None
    } else {
        Some(stem)
    }
}

/// A title trimmed, `Untitled` when blank.
pub open spec fn sanitized_title(value: Seq<char>) -> Seq<char> {
    if trim_seq(value).len() == 0 {
        UNTITLED_TITLE@
    } else {
        trim_seq(value)
    }
}

/// A title trimmed, `Untitled` when blank.
pub fn sanitize_title(value: String) -> (r: String)
    ensures
        r@ == sanitized_title(value@),
{
    let t = trim(value.as_str());
    if t.as_str().is_empty() {
        proof {
            reveal_strlit("Untitled");
        }
        to_owned(UNTITLED_TITLE)
    } else {
        t
    }
}

/// The title of a track: its tag title trimmed, else the stem of its file
/// name, else `Untitled`.
pub open spec fn resolved_title(tag_title: Option<Seq<char>>, file_name: Seq<char>) -> Seq<char> {
    match present_seq(tag_title) {
        Some(t) => t,
        None => if file_stem(file_name).len() > 0 {
            file_stem(file_name)
        } else {
            UNTITLED_TITLE@
        },
    }
}

/// The title of a track from its tag title and file name.
pub fn resolve_title(tag_title: Option<&str>, file_name: &str) -> (r: String)
    ensures
        r@ == resolved_title(
            match tag_title {
                Some(t) => Some(t@),
                None => None,
            },
            file_name@,
        ),
{
    match crate::catalog_db::normalized_optional_text(tag_title) {
        Some(t) => t,
        None => match path_stem(file_name) {
            Some(s) => s,
            None => {
                proof {
                    reveal_strlit("Untitled");
                }
                to_owned(UNTITLED_TITLE)
            },
        },
    }
}

/// The distinct non-blank values of `groups` in order, trimmed.
pub open spec fn distinct_trimmed(values: Seq<Seq<char>>) -> Seq<Seq<char>>
    decreases values.len(),
{
    if values.len() == 0 {
        seq![]
    } else {
        let before = distinct_trimmed(values.drop_last());
        let t = trim_seq(values.last());
        if t.len() == 0 || before.contains(t) {
            before
        } else {
            before.push(t)
        }
    }
}

/// The values joined by `, `.
pub open spec fn joined_with_comma(values: Seq<Seq<char>>) -> Seq<char>
    decreases values.len(),
{
    if values.len() == 0 {
        seq![]
    } else if values.len() == 1 {
        values[0]
    } else {
        joined_with_comma(values.drop_last()) + ", "@ + values.last()
    }
}

/// The distinct non-blank tag values (the values of each tag key in turn,
/// flattened), trimmed and joined by `, `.
pub fn resolve_joined_strings(values: &[String]) -> (r: String)
    ensures
        r@ == joined_with_comma(distinct_trimmed(texts(values@))),
{
    let mut kept: Vec<String> = Vec::new();
    let mut i: usize = 0;
    while i < values.len()
        invariant
            i <= values@.len(),
            texts(kept@) == distinct_trimmed(texts(values@.take(i as int))),
        decreases values@.len() - i,
    {
        let t = trim(values[i].as_str());
        assert(texts(values@.take(i + 1)).drop_last() =~= texts(values@.take(i as int)));
        assert(texts(values@.take(i + 1)).last() == values@[i as int]@);
        if !t.as_str().is_empty() && !contains_text(&kept, t.as_str()) {
            let ghost before = kept@;
            kept.push(t);
            assert(texts(kept@) =~= texts(before).push(kept@.last()@));
        }
        i += 1;
    }
    assert(values@.take(values@.len() as int) =~= values@);
    if kept.len() == 0 {
        return String::new();
    }
    let mut out = kept[0].clone();
    let mut k: usize = 1;
    assert(texts(kept@).take(1) =~= seq![kept@[0]@]);
    while k < kept.len()
        invariant
            1 <= k <= kept@.len(),
            out@ == joined_with_comma(texts(kept@).take(k as int)),
        decreases kept@.len() - k,
    {
        proof {
            reveal_strlit(", ");
        }
        let with_sep = concat(out.as_str(), ", ");
        out = concat(with_sep.as_str(), kept[k].as_str());
        assert(texts(kept@).take(k + 1).drop_last() =~= texts(kept@).take(k as int));
        k += 1;
    }
    assert(texts(kept@).take(kept@.len() as int) =~= texts(kept@));
    out
}

/// The bit rate in bit/s: the audio bit rate (kbit/s), else the overall
/// one, times 1000 (saturating); zero without either.
pub fn resolve_bitrate(audio_kbps: Option<u32>, overall_kbps: Option<u32>) -> (r: u32)
    ensures
        r == match (if audio_kbps is Some { audio_kbps } else { overall_kbps }) {
            Some(k) => if k * 1000 > u32::MAX {
                u32::MAX
            } else {
                (k * 1000) as u32
            },
            None => 0u32,
        },
{
    let chosen = match audio_kbps {
        Some(a) => Some(a),
        None => overall_kbps,
    };
    match chosen {
        Some(k) => if k > u32::MAX / 1000 {
            u32::MAX
        } else {
            k * 1000
        },
        None => 0,
    }
}

/// The file name for a request: the given one when it is not blank (kept
/// as given), else the last component of the path, else `track`.
pub open spec fn request_file_name(path: Seq<char>, file_name: Option<Seq<char>>) -> Seq<char> {
    match file_name {
        Some(f) if trim_seq(f).len() > 0 => f,
        _ => {
            let name = path_file_name(path);
            if name.len() == 0 || name == ".."@ {
                DEFAULT_TRACK_FILE_NAME@
            } else {
                name
            }
        },
    }
}

/// The file name for a metadata request.
pub fn resolve_request_file_name(path: &str, file_name: Option<String>) -> (r: String)
    ensures
        r@ == request_file_name(path@, opt_text(file_name)),
{
    if let Some(f) = file_name {
        let t = trim(f.as_str());
        if !t.as_str().is_empty() {
            return f;
        }
    }
    let a = trim_end_matches(path, '/');
    let b = trim_end_matches(a.as_str(), '\\');
    let c = split_last(b.as_str(), '/');
    let name = split_last(c.as_str(), '\\');
    proof {
        reveal_strlit("..");
        reveal_strlit("track");
    }
    if name.as_str().is_empty() || str_eq(name.as_str(), "..") {
        to_owned(DEFAULT_TRACK_FILE_NAME)
    } else {
        name
    }
}


/// A picture embedded in an audio file's tags: whether it is the front
/// cover, its MIME type if the tag names one, and its bytes.
pub struct EmbeddedPicture {
    pub is_front_cover: bool,
    pub mime_type: Option<String>,
    pub data: Vec<u8>,
}

/// The position of the first front cover, if any.
pub open spec fn first_front_cover(front: Seq<bool>) -> Option<int>
    decreases front.len(),
{
    if front.len() == 0 {
        None
    } else if front[0] {
        Some(0)
    } else {
        match first_front_cover(front.drop_first()) {
            Some(i) => Some(i + 1),
            None => None,
        }
    }
}

/// The picture a track shows: its first front cover, else its first
/// picture; none without pictures.
pub open spec fn chosen_picture(front: Seq<bool>) -> Option<int> {
    if front.len() == 0 {
        None
    } else {
        match first_front_cover(front) {
            Some(i) => Some(i),
            None => Some(0),
        }
    }
}

/// Which pictures are front covers.
pub open spec fn front_flags(pictures: Seq<EmbeddedPicture>) -> Seq<bool> {
    pictures.map_values(|p: EmbeddedPicture| p.is_front_cover)
}

/// The `data:` URL of a picture: its MIME type (`image/jpeg` when the tag
/// names none) and its bytes in standard base64.
pub open spec fn artwork_data_url_text(mime_type: Option<Seq<char>>, data: Seq<u8>) -> Seq<char> {
    "data:"@ + match mime_type {
        Some(m) => m,
        None => "image/jpeg"@,
    } + ";base64,"@ + crate::artwork::base64_encoded(data)
}

/// The `data:` URL of a picture (see `artwork_data_url_text`).
pub fn artwork_data_url(mime_type: Option<&str>, data: &[u8]) -> (r: String)
    requires
        data@.len() <= usize::MAX / 4 * 3,
    ensures
        r@ == artwork_data_url_text(
            match mime_type {
                Some(m) => Some(m@),
                None => None,
            },
            data@,
        ),
{
    let mime = match mime_type {
        Some(m) => m,
        None => "image/jpeg",
    };
    let head = concat("data:", mime);
    let head = concat(head.as_str(), ";base64,");
    let encoded = crate::artwork::encode_base64_standard(data);
    concat(head.as_str(), encoded.as_str())
}

/// The artwork of a track from the pictures in its tags: the `data:` URL
/// of the chosen picture (see `chosen_picture`), empty without pictures.
pub fn resolve_artwork(pictures: &Vec<EmbeddedPicture>) -> (r: String)
    requires
        forall|k: int| 0 <= k < pictures@.len() ==> pictures@[k].data@.len() <= usize::MAX / 4 * 3,
    ensures
        r@ == match chosen_picture(front_flags(pictures@)) {
            Some(i) => artwork_data_url_text(opt_text(pictures@[i].mime_type), pictures@[i].data@),
            None => Seq::<char>::empty(),
        },
{
    let ghost flags = front_flags(pictures@);
    if pictures.len() == 0 {
        return String::new();
    }
    let mut i: usize = 0;
    assert(flags.skip(0) =~= flags);
    while i < pictures.len() && !pictures[i].is_front_cover
        invariant
            i <= pictures@.len(),
            pictures@.len() > 0,
            flags == front_flags(pictures@),
            first_front_cover(flags) == match first_front_cover(flags.skip(i as int)) {
                Some(j) => Some(j + i),
                None => None,
            },
        decreases pictures@.len() - i,
    {
        assert(flags.skip(i as int)[0] == pictures@[i as int].is_front_cover);
        assert(flags.skip(i as int).drop_first() =~= flags.skip(i + 1));
        i += 1;
    }
    let chosen = if i < pictures.len() {
        assert(flags.skip(i as int)[0] == pictures@[i as int].is_front_cover);
        i
    } else {
        assert(flags.skip(i as int) =~= Seq::<bool>::empty());
        0
    };
    let picture = &pictures[chosen];
    let mime = match &picture.mime_type {
        Some(m) => Some(m.as_str()),
        None => None,
    };
    artwork_data_url(mime, picture.data.as_slice())
}


/// Whether a character belongs to standard base64 text (the alphabet or
/// the `=` padding).
pub open spec fn is_base64_char(c: char) -> bool {
    ||| crate::text::is_ascii_alphanumeric(c)
    ||| c == '+'
    ||| c == '/'
    ||| c == '='
}

/// Base64 text is made of base64 characters, and is empty only for no
/// bytes.
proof fn lemma_base64_text(b: Seq<u8>)
    ensures
        forall|k: int|
            0 <= k < crate::artwork::base64_encoded(b).len() ==> is_base64_char(
                #[trigger] crate::artwork::base64_encoded(b)[k],
            ),
        b.len() > 0 <==> crate::artwork::base64_encoded(b).len() > 0,
    decreases b.len(),
{
    if b.len() > 0 {
        let x = b[0] as int;
        let y = if b.len() > 1 {
            b[1] as int
        } else {
            0
        };
        let z = if b.len() > 2 {
            b[2] as int
        } else {
            0
        };
        assert forall|v: int| 0 <= v < 64 implies is_base64_char(#[trigger] crate::artwork::base64_digit(v)) by {
            if v < 26 {
                assert((65 + v) as u32 as char == crate::artwork::base64_digit(v));
            }
        }
        assert(0 <= x / 4 < 64);
        assert(0 <= (x % 4) * 16 + y / 16 < 64);
        assert(0 <= (y % 16) * 4 < 64);
        assert(0 <= (y % 16) * 4 + z / 64 < 64);
        assert(0 <= z % 64 < 64);
        if b.len() > 2 {
            lemma_base64_text(b.skip(3));
        }
    }
}

/// Whether a MIME type is written plainly: not empty, in lower case, with
/// no whitespace, comma or semicolon.
pub open spec fn plain_mime(m: Seq<char>) -> bool {
    &&& m.len() > 0
    &&& crate::text::lower_seq(m) == m
    &&& forall|k: int| 0 <= k < m.len() ==> !crate::text::is_ws(#[trigger] m[k]) && m[k] != ',' && m[k] != ';'
}

/// A cover's `data:` URL reads back as what it was made of: read as
/// stored artwork, the URL of a picture with a plainly written MIME type
/// and some bytes is already trimmed, and gives that MIME type and the
/// base64 text of those bytes as its payload.
pub proof fn law_cover_data_url_reads_back(mime: Seq<char>, data: Seq<u8>)
    requires
        plain_mime(mime),
        data.len() > 0,
    ensures
        trim_seq(artwork_data_url_text(Some(mime), data)) == artwork_data_url_text(Some(mime), data),
        crate::artwork::data_url_parts(artwork_data_url_text(Some(mime), data)) == Some(
            (mime, crate::artwork::base64_encoded(data)),
        ),
{
    reveal_strlit("data:");
    reveal_strlit(";base64,");
    reveal_strlit(";base64");
    let enc = crate::artwork::base64_encoded(data);
    lemma_base64_text(data);
    let url = artwork_data_url_text(Some(mime), data);
    let n = mime.len() as int;
    let p = 5 + n + 7;
    assert(url.len() == p + 1 + enc.len());
    assert forall|k: int| 0 <= k < enc.len() implies !crate::text::is_ws(#[trigger] enc[k]) && enc[k] != ',' by {
        assert(is_base64_char(enc[k]));
    }
    // The URL is already trimmed.
    assert(url[0] == 'd');
    assert(url.last() == enc.last());
    assert(crate::text::trim_start_seq(url) == url);
    assert(crate::text::trim_end_seq(url) == url);
    // Its first comma ends the metadata.
    assert forall|k: int| 0 <= k < p implies url[k] != ',' by {
        if 5 <= k < 5 + n {
            assert(url[k] == mime[k - 5]);
        }
    }
    assert(url[p] == ',');
    crate::text::lemma_first_index_of(url, ',', p);
    let metadata = url.take(p);
    assert(metadata =~= "data:"@ + mime + ";base64"@);
    assert(crate::text::lower_seq(metadata) =~= metadata) by {
        assert forall|k: int| 0 <= k < metadata.len() implies crate::text::ascii_lower(#[trigger] metadata[k]) == metadata[k] by {
            if 5 <= k < 5 + n {
                assert(metadata[k] == mime[k - 5]);
                assert(crate::text::lower_seq(mime)[k - 5] == mime[k - 5]);
            }
        }
    }
    assert(crate::text::has_prefix(metadata, "data:"@)) by {
        assert(metadata.subrange(0, 5) =~= "data:"@);
    }
    assert(crate::text::occurs_at(metadata, ";base64"@, 5 + n)) by {
        assert(metadata.subrange(5 + n, 5 + n + 7) =~= ";base64"@);
    }
    // The payload is the base64 text.
    assert(url.skip(p + 1) =~= enc);
    assert(crate::text::trim_start_seq(enc) == enc);
    assert(crate::text::trim_end_seq(enc) == enc);
    // The MIME type is read back.
    let rest = metadata.skip(5);
    assert(rest =~= mime + ";base64"@);
    assert forall|k: int| 0 <= k < n implies rest[k] != ';' by {
        assert(rest[k] == mime[k]);
    }
    crate::text::lemma_first_index_of(rest, ';', n);
    assert(crate::text::before_first(rest, ';') =~= mime);
    assert(crate::text::trim_start_seq(mime) == mime);
    assert(crate::text::trim_end_seq(mime) == mime);
}

} // verus!
