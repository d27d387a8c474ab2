//! Which audio files and content types the player accepts, and their MIME types.
use vstd::prelude::*;
use crate::text::{
    after_last, before_first, chars_of, first_index_of, is_ws, last_index_of, trim_end_seq, trim_start_seq, lower_seq, one_of, rfind_char, split_first,
    split_last, str_eq, str_in, string_from_range, strip_leading, strip_trailing, to_ascii_lowercase,
    trim, trim_end_matches, trim_seq, trim_start_matches,
};

verus! {

/// An extension as the format tables read it: trimmed, without leading dots,
/// ASCII lower-cased.
pub open spec fn normalized_extension(extension: Seq<char>) -> Seq<char> {
    lower_seq(strip_leading(trim_seq(extension), '.'))
}

/// The extensions that the player decodes.
pub open spec fn supported_extensions() -> Seq<Seq<char>> {
    seq![
        "mp3"@, "mp2"@, "mp1"@, "mpa"@, "wav"@, "wave"@, "flac"@, "ogg"@, "oga"@, "m4a"@,
        "m4b"@, "m4r"@, "mp4"@, "aac"@, "adts"@, "aif"@, "aiff"@, "aifc"@, "caf"@, "mka"@,
        "dsf"@, "dff"@,
    ]
}

/// The DSD container extensions.
pub open spec fn dsd_extensions() -> Seq<Seq<char>> {
    seq!["dsf"@, "dff"@]
}

/// The content types (without parameters) that the player accepts.
pub open spec fn supported_content_types() -> Seq<Seq<char>> {
    seq![
        "audio/mpeg"@, "audio/mp3"@, "audio/wav"@, "audio/wave"@, "audio/x-wav"@,
        "audio/flac"@, "audio/x-flac"@, "audio/ogg"@, "audio/mp4"@, "audio/x-m4a"@,
        "audio/aac"@, "audio/aacp"@, "audio/x-aac"@, "audio/aif"@, "audio/aiff"@,
        "audio/x-aiff"@, "audio/x-caf"@, "audio/caf"@, "audio/x-matroska"@, "audio/dsd"@,
        "audio/x-dsd"@, "audio/x-dsf"@, "audio/x-dff"@,
    ]
}

/// A content type as the table reads it: the part before the first `;`,
/// trimmed and ASCII lower-cased.
pub open spec fn normalized_content_type(content_type: Seq<char>) -> Seq<char> {
    lower_seq(trim_seq(before_first(content_type, ';')))
}

/// The MIME type of a normalized extension, or the empty string.
pub open spec fn mime_for(e: Seq<char>) -> Seq<char> {
    if one_of(e, seq!["mp3"@, "mp2"@, "mp1"@, "mpa"@]) {
        "audio/mpeg"@
    } else if one_of(e, seq!["wav"@, "wave"@]) {
        "audio/wav"@
    } else if e == "flac"@ {
        "audio/flac"@
    } else if one_of(e, seq!["ogg"@, "oga"@]) {
        "audio/ogg"@
    } else if one_of(e, seq!["m4a"@, "m4b"@, "m4r"@, "mp4"@]) {
        "audio/mp4"@
    } else if one_of(e, seq!["aac"@, "adts"@]) {
        "audio/aac"@
    } else if one_of(e, seq!["aif"@, "aiff"@, "aifc"@]) {
        "audio/aiff"@
    } else if e == "caf"@ {
        "audio/x-caf"@
    } else if e == "mka"@ {
        "audio/x-matroska"@
    } else if e == "dsf"@ {
        "audio/x-dsf"@
    } else if e == "dff"@ {
        "audio/x-dff"@
    } else {
        ""@
    }
}

/// The last component of a path, `/` and `\` both counting as separators.
pub open spec fn path_file_name(path: Seq<char>) -> Seq<char> {
    let trimmed = strip_trailing(strip_trailing(path, '/'), '\\');
    after_last(after_last(trimmed, '/'), '\\')
}

fn normalize_extension(extension: &str) -> (r: String)
    ensures
        r@ == normalized_extension(extension@),
{
    let trimmed = trim(extension);
    let stripped = trim_start_matches(trimmed.as_str(), '.');
    to_ascii_lowercase(stripped.as_str())
}

/// Whether the player decodes files with this extension (leading dots,
/// surrounding whitespace and ASCII case are ignored).
pub fn is_supported_audio_extension(extension: &str) -> (r: bool)
    ensures
        r == one_of(normalized_extension(extension@), supported_extensions()),
{
    let extension = normalize_extension(extension);
    let options: [&str; 22] = [
        "mp3", "mp2", "mp1", "mpa", "wav", "wave", "flac", "ogg", "oga", "m4a", "m4b", "m4r",
        "mp4", "aac", "adts", "aif", "aiff", "aifc", "caf", "mka", "dsf", "dff",
    ];
    let r = str_in(extension.as_str(), &options);
    proof {
        let opts = options@.map_values(|o: &str| o@);
        assert(opts =~= supported_extensions());
        if r {
            let i = choose|i: int| 0 <= i < options@.len() && options@[i]@ == extension@;
            assert(opts[i] == extension@);
        }
        if one_of(extension@, supported_extensions()) {
            let i = choose|i: int| 0 <= i < supported_extensions().len() && supported_extensions()[i] == extension@;
            assert(options@[i]@ == opts[i]);
        }
    }
    r
}

/// Whether the file at this path has an extension (as `Path::extension`
/// reads it) that the player decodes.
pub fn is_supported_audio_path(path: &str) -> (r: bool)
    ensures
        r == match crate::sidecar_search::path_extension_text(path@) {
            Some(e) => one_of(normalized_extension(e), supported_extensions()),
            None => false,
        },
{
    match crate::sidecar_search::extension_of(path) {
        Some(extension) => is_supported_audio_extension(extension.as_str()),
        None => false,
    }
}

/// Whether the file at this path is a DSD container (`.dsf` or `.dff`).
pub fn is_dsd_audio_path(path: &str) -> (r: bool)
    ensures
        r == match crate::sidecar_search::path_extension_text(path@) {
            Some(e) => one_of(normalized_extension(e), dsd_extensions()),
            None => false,
        },
{
    match crate::sidecar_search::extension_of(path) {
        Some(extension) => is_dsd_audio_extension(extension.as_str()),
        None => false,
    }
}

/// Whether this extension names a DSD container (`dsf` or `dff`).
pub fn is_dsd_audio_extension(extension: &str) -> (r: bool)
    ensures
        r == one_of(normalized_extension(extension@), dsd_extensions()),
{
    let extension = normalize_extension(extension);
    let r = str_eq(extension.as_str(), "dsf") || str_eq(extension.as_str(), "dff");
    proof {
        if r {
            if extension@ == "dsf"@ {
                assert(dsd_extensions()[0] == extension@);
            } else {
                assert(dsd_extensions()[1] == extension@);
            }
        }
    }
    r
}

/// Whether the player accepts this content type; parameters after `;` are
/// ignored, as are surrounding whitespace and ASCII case.
pub fn is_supported_audio_content_type(content_type: &str) -> (r: bool)
    ensures
        r == one_of(normalized_content_type(content_type@), supported_content_types()),
{
    let head = split_first(content_type, ';');
    let trimmed = trim(head.as_str());
    let normalized = to_ascii_lowercase(trimmed.as_str());
    let options: [&str; 23] = [
        "audio/mpeg", "audio/mp3", "audio/wav", "audio/wave", "audio/x-wav", "audio/flac",
        "audio/x-flac", "audio/ogg", "audio/mp4", "audio/x-m4a", "audio/aac", "audio/aacp",
        "audio/x-aac", "audio/aif", "audio/aiff", "audio/x-aiff", "audio/x-caf", "audio/caf",
        "audio/x-matroska", "audio/dsd", "audio/x-dsd", "audio/x-dsf", "audio/x-dff",
    ];
    let r = str_in(normalized.as_str(), &options);
    proof {
        let opts = options@.map_values(|o: &str| o@);
        assert(opts =~= supported_content_types());
        if r {
            let i = choose|i: int| 0 <= i < options@.len() && options@[i]@ == normalized@;
            assert(opts[i] == normalized@);
        }
        if one_of(normalized@, supported_content_types()) {
            let i = choose|i: int| 0 <= i < supported_content_types().len() && supported_content_types()[i] == normalized@;
            assert(options@[i]@ == opts[i]);
        }
    }
    r
}

/// The MIME type for an extension, or the empty string when the extension is
/// not one that the player decodes.
pub fn mime_type_for_extension(extension: &str) -> (r: &'static str)
    ensures
        r@ == mime_for(normalized_extension(extension@)),
{
    let e = normalize_extension(extension);
    let e = e.as_str();
    if str_in(e, &["mp3", "mp2", "mp1", "mpa"]) {
        "audio/mpeg"
    } else if str_in(e, &["wav", "wave"]) {
        "audio/wav"
    } else if str_eq(e, "flac") {
        "audio/flac"
    } else if str_in(e, &["ogg", "oga"]) {
        "audio/ogg"
    } else if str_in(e, &["m4a", "m4b", "m4r", "mp4"]) {
        "audio/mp4"
    } else if str_in(e, &["aac", "adts"]) {
        "audio/aac"
    } else if str_in(e, &["aif", "aiff", "aifc"]) {
        "audio/aiff"
    } else if str_eq(e, "caf") {
        "audio/x-caf"
    } else if str_eq(e, "mka") {
        "audio/x-matroska"
    } else if str_eq(e, "dsf") {
        "audio/x-dsf"
    } else if str_eq(e, "dff") {
        "audio/x-dff"
    } else {
        ""
    }
}

/// Every DSD container extension is a supported audio extension.
pub proof fn law_dsd_extensions_are_supported(e: Seq<char>)
    ensures
        one_of(e, dsd_extensions()) ==> one_of(e, supported_extensions()),
{
    if one_of(e, dsd_extensions()) {
        let i = choose|i: int| 0 <= i < dsd_extensions().len() && dsd_extensions()[i] == e;
        assert(supported_extensions()[20 + i] == e);
    }
}

/// The MIME table and the extension table agree: an extension has a MIME
/// type exactly when the player decodes it.
pub proof fn law_mime_types_cover_supported_extensions(e: Seq<char>)
    ensures
        one_of(e, supported_extensions()) <==> mime_for(e).len() > 0,
{
    reveal_strlit("mp3");
    reveal_strlit("mp2");
    reveal_strlit("mp1");
    reveal_strlit("mpa");
    reveal_strlit("wav");
    reveal_strlit("wave");
    reveal_strlit("flac");
    reveal_strlit("ogg");
    reveal_strlit("oga");
    reveal_strlit("m4a");
    reveal_strlit("m4b");
    reveal_strlit("m4r");
    reveal_strlit("mp4");
    reveal_strlit("aac");
    reveal_strlit("adts");
    reveal_strlit("aif");
    reveal_strlit("aiff");
    reveal_strlit("aifc");
    reveal_strlit("caf");
    reveal_strlit("mka");
    reveal_strlit("dsf");
    reveal_strlit("dff");
    reveal_strlit("");
    reveal_strlit("audio/mpeg");
    reveal_strlit("audio/wav");
    reveal_strlit("audio/flac");
    reveal_strlit("audio/ogg");
    reveal_strlit("audio/mp4");
    reveal_strlit("audio/aac");
    reveal_strlit("audio/aiff");
    reveal_strlit("audio/x-caf");
    reveal_strlit("audio/x-matroska");
    reveal_strlit("audio/x-dsf");
    reveal_strlit("audio/x-dff");
    if one_of(e, supported_extensions()) {
        let i = choose|i: int| 0 <= i < supported_extensions().len() && supported_extensions()[i] == e;
        assert(mime_for(e).len() > 0);
    }
    if mime_for(e).len() > 0 {
        if one_of(e, seq!["mp3"@, "mp2"@, "mp1"@, "mpa"@]) {
            let i = choose|i: int| 0 <= i < 4 && seq!["mp3"@, "mp2"@, "mp1"@, "mpa"@][i] == e;
            assert(supported_extensions()[i] == e);
        } else if one_of(e, seq!["wav"@, "wave"@]) {
            let i = choose|i: int| 0 <= i < 2 && seq!["wav"@, "wave"@][i] == e;
            assert(supported_extensions()[4 + i] == e);
        } else if e == "flac"@ {
            assert(supported_extensions()[6] == e);
        } else if one_of(e, seq!["ogg"@, "oga"@]) {
            let i = choose|i: int| 0 <= i < 2 && seq!["ogg"@, "oga"@][i] == e;
            assert(supported_extensions()[7 + i] == e);
        } else if one_of(e, seq!["m4a"@, "m4b"@, "m4r"@, "mp4"@]) {
            let i = choose|i: int| 0 <= i < 4 && seq!["m4a"@, "m4b"@, "m4r"@, "mp4"@][i] == e;
            assert(supported_extensions()[9 + i] == e);
        } else if one_of(e, seq!["aac"@, "adts"@]) {
            let i = choose|i: int| 0 <= i < 2 && seq!["aac"@, "adts"@][i] == e;
            assert(supported_extensions()[13 + i] == e);
        } else if one_of(e, seq!["aif"@, "aiff"@, "aifc"@]) {
            let i = choose|i: int| 0 <= i < 3 && seq!["aif"@, "aiff"@, "aifc"@][i] == e;
            assert(supported_extensions()[15 + i] == e);
        } else if e == "caf"@ {
            assert(supported_extensions()[18] == e);
        } else if e == "mka"@ {
            assert(supported_extensions()[19] == e);
        } else if e == "dsf"@ {
            assert(supported_extensions()[20] == e);
        } else if e == "dff"@ {
            assert(supported_extensions()[21] == e);
        }
    }
}

/// A content type without `;`, whitespace or ASCII capitals reads as itself.
proof fn lemma_plain_content_type(m: Seq<char>)
    requires
        forall|k: int| 0 <= k < m.len() ==> (#[trigger] m[k]) != ';' && !is_ws(m[k]) && !('A' <= m[k] && m[k] <= 'Z'),
    ensures
        normalized_content_type(m) == m,
{
    lemma_no_semicolon(m);
    assert(trim_start_seq(m) == m);
    assert(trim_end_seq(m) == m);
    assert(lower_seq(m) =~= m);
}

proof fn lemma_no_semicolon(m: Seq<char>)
    requires
        forall|k: int| 0 <= k < m.len() ==> (#[trigger] m[k]) != ';',
    ensures
        first_index_of(m, ';') is None,
    decreases m.len(),
{
    if m.len() > 0 {
        assert forall|k: int| 0 <= k < m.drop_first().len() implies (#[trigger] m.drop_first()[k]) != ';' by {
            assert(m.drop_first()[k] == m[k + 1]);
        }
        lemma_no_semicolon(m.drop_first());
    }
}

/// The MIME type of an extension is given exactly for the extensions that the
/// player decodes, and every such MIME type is a content type that the player
/// accepts.
pub proof fn law_mime_type_of_a_supported_extension_is_accepted(extension: Seq<char>)
    ensures
        one_of(normalized_extension(extension), supported_extensions()) <==> mime_for(
            normalized_extension(extension),
        ).len() > 0,
        mime_for(normalized_extension(extension)).len() > 0 ==> one_of(
            normalized_content_type(mime_for(normalized_extension(extension))),
            supported_content_types(),
        ),
{
    let e = normalized_extension(extension);
    law_mime_types_cover_supported_extensions(e);
    let m = mime_for(e);
    if m.len() > 0 {
        reveal_strlit("audio/mpeg");
        reveal_strlit("audio/wav");
        reveal_strlit("audio/flac");
        reveal_strlit("audio/ogg");
        reveal_strlit("audio/mp4");
        reveal_strlit("audio/aac");
        reveal_strlit("audio/aiff");
        reveal_strlit("audio/x-caf");
        reveal_strlit("audio/x-matroska");
        reveal_strlit("audio/x-dsf");
        reveal_strlit("audio/x-dff");
        reveal_strlit("");
        let types = supported_content_types();
        let i: int = if m == "audio/mpeg"@ {
            0
        } else if m == "audio/wav"@ {
            2
        } else if m == "audio/flac"@ {
            5
        } else if m == "audio/ogg"@ {
            7
        } else if m == "audio/mp4"@ {
            8
        } else if m == "audio/aac"@ {
            10
        } else if m == "audio/aiff"@ {
            14
        } else if m == "audio/x-caf"@ {
            16
        } else if m == "audio/x-matroska"@ {
            18
        } else if m == "audio/x-dsf"@ {
            21
        } else {
            22
        };
        assert(types[i] == m);
        lemma_plain_content_type(m);
    }
}

/// Every extension of the player's formats is decoded and gets its MIME
/// type, whatever dots, surrounding whitespace and ASCII case it is written
/// with: MPEG audio (`mp3`, `mp2`, `mp1`, `mpa`), WAVE (`wav`, `wave`),
/// FLAC, Ogg (`ogg`, `oga`), MPEG-4 (`m4a`, `m4b`, `m4r`, `mp4`), AAC (`aac`,
/// `adts`), AIFF (`aif`, `aiff`, `aifc`), CAF, Matroska audio (`mka`) and
/// DSD (`dsf`, `dff`).
pub proof fn law_known_formats_play_with_their_mime_types(extension: Seq<char>)
    ensures
        ({
            let e = normalized_extension(extension);
            &&& (e == "mp3"@ || e == "mp2"@ || e == "mp1"@ || e == "mpa"@) ==> one_of(e, supported_extensions())
                && mime_for(e) == "audio/mpeg"@
            &&& (e == "wav"@ || e == "wave"@) ==> one_of(e, supported_extensions()) && mime_for(e) == "audio/wav"@
            &&& e == "flac"@ ==> one_of(e, supported_extensions()) && mime_for(e) == "audio/flac"@
            &&& (e == "ogg"@ || e == "oga"@) ==> one_of(e, supported_extensions()) && mime_for(e) == "audio/ogg"@
            &&& (e == "m4a"@ || e == "m4b"@ || e == "m4r"@ || e == "mp4"@) ==> one_of(e, supported_extensions())
                && mime_for(e) == "audio/mp4"@
            &&& (e == "aac"@ || e == "adts"@) ==> one_of(e, supported_extensions()) && mime_for(e) == "audio/aac"@
            &&& (e == "aif"@ || e == "aiff"@ || e == "aifc"@) ==> one_of(e, supported_extensions())
                && mime_for(e) == "audio/aiff"@
            &&& e == "caf"@ ==> one_of(e, supported_extensions()) && mime_for(e) == "audio/x-caf"@
            &&& e == "mka"@ ==> one_of(e, supported_extensions()) && mime_for(e) == "audio/x-matroska"@
            &&& e == "dsf"@ ==> one_of(e, supported_extensions()) && one_of(e, dsd_extensions())
                && mime_for(e) == "audio/x-dsf"@
            &&& e == "dff"@ ==> one_of(e, supported_extensions()) && one_of(e, dsd_extensions())
                && mime_for(e) == "audio/x-dff"@
        }),
{
    let e = normalized_extension(extension);
    law_mime_types_cover_supported_extensions(e);
    reveal_strlit("mp3");
    reveal_strlit("mp2");
    reveal_strlit("mp1");
    reveal_strlit("mpa");
    reveal_strlit("wav");
    reveal_strlit("wave");
    reveal_strlit("flac");
    reveal_strlit("ogg");
    reveal_strlit("oga");
    reveal_strlit("m4a");
    reveal_strlit("m4b");
    reveal_strlit("m4r");
    reveal_strlit("mp4");
    reveal_strlit("aac");
    reveal_strlit("adts");
    reveal_strlit("aif");
    reveal_strlit("aiff");
    reveal_strlit("aifc");
    reveal_strlit("caf");
    reveal_strlit("mka");
    reveal_strlit("dsf");
    reveal_strlit("dff");
    let table = supported_extensions();
    if e == "mp3"@ { assert(table[0] == e); }
    if e == "mp2"@ { assert(table[1] == e); }
    if e == "mp1"@ { assert(table[2] == e); }
    if e == "mpa"@ { assert(table[3] == e); }
    if e == "wav"@ { assert(table[4] == e); }
    if e == "wave"@ { assert(table[5] == e); }
    if e == "flac"@ { assert(table[6] == e); }
    if e == "ogg"@ { assert(table[7] == e); }
    if e == "oga"@ { assert(table[8] == e); }
    if e == "m4a"@ { assert(table[9] == e); }
    if e == "m4b"@ { assert(table[10] == e); }
    if e == "m4r"@ { assert(table[11] == e); }
    if e == "mp4"@ { assert(table[12] == e); }
    if e == "aac"@ { assert(table[13] == e); }
    if e == "adts"@ { assert(table[14] == e); }
    if e == "aif"@ { assert(table[15] == e); }
    if e == "aiff"@ { assert(table[16] == e); }
    if e == "aifc"@ { assert(table[17] == e); }
    if e == "caf"@ { assert(table[18] == e); }
    if e == "mka"@ { assert(table[19] == e); }
    if e == "dsf"@ { assert(table[20] == e); assert(dsd_extensions()[0] == e); }
    if e == "dff"@ { assert(table[21] == e); assert(dsd_extensions()[1] == e); }
    lemma_mime_table(e);
}

proof fn lemma_mime_table(e: Seq<char>)
    ensures
        (e == "mp3"@ || e == "mp2"@ || e == "mp1"@ || e == "mpa"@) ==> mime_for(e) == "audio/mpeg"@,
        (e == "wav"@ || e == "wave"@) ==> mime_for(e) == "audio/wav"@,
        e == "flac"@ ==> mime_for(e) == "audio/flac"@,
        (e == "ogg"@ || e == "oga"@) ==> mime_for(e) == "audio/ogg"@,
        (e == "m4a"@ || e == "m4b"@ || e == "m4r"@ || e == "mp4"@) ==> mime_for(e) == "audio/mp4"@,
        (e == "aac"@ || e == "adts"@) ==> mime_for(e) == "audio/aac"@,
        (e == "aif"@ || e == "aiff"@ || e == "aifc"@) ==> mime_for(e) == "audio/aiff"@,
        e == "caf"@ ==> mime_for(e) == "audio/x-caf"@,
        e == "mka"@ ==> mime_for(e) == "audio/x-matroska"@,
        e == "dsf"@ ==> mime_for(e) == "audio/x-dsf"@,
        e == "dff"@ ==> mime_for(e) == "audio/x-dff"@,
{
    reveal_strlit("aac");
    reveal_strlit("adts");
    reveal_strlit("aif");
    reveal_strlit("aifc");
    reveal_strlit("aiff");
    reveal_strlit("caf");
    reveal_strlit("dff");
    reveal_strlit("dsf");
    reveal_strlit("flac");
    reveal_strlit("m4a");
    reveal_strlit("m4b");
    reveal_strlit("m4r");
    reveal_strlit("mka");
    reveal_strlit("mp1");
    reveal_strlit("mp2");
    reveal_strlit("mp3");
    reveal_strlit("mp4");
    reveal_strlit("mpa");
    reveal_strlit("oga");
    reveal_strlit("ogg");
    reveal_strlit("wav");
    reveal_strlit("wave");
    if e == "mp3"@ {
        assert(seq!["mp3"@, "mp2"@, "mp1"@, "mpa"@][0] == e);
    }
    if e == "mp2"@ {
        assert(seq!["mp3"@, "mp2"@, "mp1"@, "mpa"@][1] == e);
    }
    if e == "mp1"@ {
        assert(seq!["mp3"@, "mp2"@, "mp1"@, "mpa"@][2] == e);
    }
    if e == "mpa"@ {
        assert(seq!["mp3"@, "mp2"@, "mp1"@, "mpa"@][3] == e);
    }
    if e == "wav"@ {
        assert("mp3"@[0] != "wav"@[0]);
        assert("mp2"@[0] != "wav"@[0]);
        assert("mp1"@[0] != "wav"@[0]);
        assert("mpa"@[0] != "wav"@[0]);
        lemma_not_one_of4(e, "mp3"@, "mp2"@, "mp1"@, "mpa"@);
        assert(seq!["wav"@, "wave"@][0] == e);
    }
    if e == "wave"@ {
        assert("mp3"@.len() != "wave"@.len());
        assert("mp2"@.len() != "wave"@.len());
        assert("mp1"@.len() != "wave"@.len());
        assert("mpa"@.len() != "wave"@.len());
        lemma_not_one_of4(e, "mp3"@, "mp2"@, "mp1"@, "mpa"@);
        assert(seq!["wav"@, "wave"@][1] == e);
    }
    if e == "flac"@ {
        assert("mp3"@.len() != "flac"@.len());
        assert("mp2"@.len() != "flac"@.len());
        assert("mp1"@.len() != "flac"@.len());
        assert("mpa"@.len() != "flac"@.len());
        lemma_not_one_of4(e, "mp3"@, "mp2"@, "mp1"@, "mpa"@);
        assert("wav"@.len() != "flac"@.len());
        assert("wave"@[0] != "flac"@[0]);
        lemma_not_one_of2(e, "wav"@, "wave"@);
    }
    if e == "ogg"@ {
        assert("mp3"@[0] != "ogg"@[0]);
        assert("mp2"@[0] != "ogg"@[0]);
        assert("mp1"@[0] != "ogg"@[0]);
        assert("mpa"@[0] != "ogg"@[0]);
        lemma_not_one_of4(e, "mp3"@, "mp2"@, "mp1"@, "mpa"@);
        assert("wav"@[0] != "ogg"@[0]);
        assert("wave"@.len() != "ogg"@.len());
        lemma_not_one_of2(e, "wav"@, "wave"@);
        assert("flac"@.len() != "ogg"@.len());
        assert(seq!["ogg"@, "oga"@][0] == e);
    }
    if e == "oga"@ {
        assert("mp3"@[0] != "oga"@[0]);
        assert("mp2"@[0] != "oga"@[0]);
        assert("mp1"@[0] != "oga"@[0]);
        assert("mpa"@[0] != "oga"@[0]);
        lemma_not_one_of4(e, "mp3"@, "mp2"@, "mp1"@, "mpa"@);
        assert("wav"@[0] != "oga"@[0]);
        assert("wave"@.len() != "oga"@.len());
        lemma_not_one_of2(e, "wav"@, "wave"@);
        assert("flac"@.len() != "oga"@.len());
        assert(seq!["ogg"@, "oga"@][1] == e);
    }
    if e == "m4a"@ {
        assert("mp3"@[1] != "m4a"@[1]);
        assert("mp2"@[1] != "m4a"@[1]);
        assert("mp1"@[1] != "m4a"@[1]);
        assert("mpa"@[1] != "m4a"@[1]);
        lemma_not_one_of4(e, "mp3"@, "mp2"@, "mp1"@, "mpa"@);
        assert("wav"@[0] != "m4a"@[0]);
        assert("wave"@.len() != "m4a"@.len());
        lemma_not_one_of2(e, "wav"@, "wave"@);
        assert("flac"@.len() != "m4a"@.len());
        assert("ogg"@[0] != "m4a"@[0]);
        assert("oga"@[0] != "m4a"@[0]);
        lemma_not_one_of2(e, "ogg"@, "oga"@);
        assert(seq!["m4a"@, "m4b"@, "m4r"@, "mp4"@][0] == e);
    }
    if e == "m4b"@ {
        assert("mp3"@[1] != "m4b"@[1]);
        assert("mp2"@[1] != "m4b"@[1]);
        assert("mp1"@[1] != "m4b"@[1]);
        assert("mpa"@[1] != "m4b"@[1]);
        lemma_not_one_of4(e, "mp3"@, "mp2"@, "mp1"@, "mpa"@);
        assert("wav"@[0] != "m4b"@[0]);
        assert("wave"@.len() != "m4b"@.len());
        lemma_not_one_of2(e, "wav"@, "wave"@);
        assert("flac"@.len() != "m4b"@.len());
        assert("ogg"@[0] != "m4b"@[0]);
        assert("oga"@[0] != "m4b"@[0]);
        lemma_not_one_of2(e, "ogg"@, "oga"@);
        assert(seq!["m4a"@, "m4b"@, "m4r"@, "mp4"@][1] == e);
    }
    if e == "m4r"@ {
        assert("mp3"@[1] != "m4r"@[1]);
        assert("mp2"@[1] != "m4r"@[1]);
        assert("mp1"@[1] != "m4r"@[1]);
        assert("mpa"@[1] != "m4r"@[1]);
        lemma_not_one_of4(e, "mp3"@, "mp2"@, "mp1"@, "mpa"@);
        assert("wav"@[0] != "m4r"@[0]);
        assert("wave"@.len() != "m4r"@.len());
        lemma_not_one_of2(e, "wav"@, "wave"@);
        assert("flac"@.len() != "m4r"@.len());
        assert("ogg"@[0] != "m4r"@[0]);
        assert("oga"@[0] != "m4r"@[0]);
        lemma_not_one_of2(e, "ogg"@, "oga"@);
        assert(seq!["m4a"@, "m4b"@, "m4r"@, "mp4"@][2] == e);
    }
    if e == "mp4"@ {
        assert("mp3"@[2] != "mp4"@[2]);
        assert("mp2"@[2] != "mp4"@[2]);
        assert("mp1"@[2] != "mp4"@[2]);
        assert("mpa"@[2] != "mp4"@[2]);
        lemma_not_one_of4(e, "mp3"@, "mp2"@, "mp1"@, "mpa"@);
        assert("wav"@[0] != "mp4"@[0]);
        assert("wave"@.len() != "mp4"@.len());
        lemma_not_one_of2(e, "wav"@, "wave"@);
        assert("flac"@.len() != "mp4"@.len());
        assert("ogg"@[0] != "mp4"@[0]);
        assert("oga"@[0] != "mp4"@[0]);
        lemma_not_one_of2(e, "ogg"@, "oga"@);
        assert(seq!["m4a"@, "m4b"@, "m4r"@, "mp4"@][3] == e);
    }
    if e == "aac"@ {
        assert("mp3"@[0] != "aac"@[0]);
        assert("mp2"@[0] != "aac"@[0]);
        assert("mp1"@[0] != "aac"@[0]);
        assert("mpa"@[0] != "aac"@[0]);
        lemma_not_one_of4(e, "mp3"@, "mp2"@, "mp1"@, "mpa"@);
        assert("wav"@[0] != "aac"@[0]);
        assert("wave"@.len() != "aac"@.len());
        lemma_not_one_of2(e, "wav"@, "wave"@);
        assert("flac"@.len() != "aac"@.len());
        assert("ogg"@[0] != "aac"@[0]);
        assert("oga"@[0] != "aac"@[0]);
        lemma_not_one_of2(e, "ogg"@, "oga"@);
        assert("m4a"@[0] != "aac"@[0]);
        assert("m4b"@[0] != "aac"@[0]);
        assert("m4r"@[0] != "aac"@[0]);
        assert("mp4"@[0] != "aac"@[0]);
        lemma_not_one_of4(e, "m4a"@, "m4b"@, "m4r"@, "mp4"@);
        assert(seq!["aac"@, "adts"@][0] == e);
    }
    if e == "adts"@ {
        assert("mp3"@.len() != "adts"@.len());
        assert("mp2"@.len() != "adts"@.len());
        assert("mp1"@.len() != "adts"@.len());
        assert("mpa"@.len() != "adts"@.len());
        lemma_not_one_of4(e, "mp3"@, "mp2"@, "mp1"@, "mpa"@);
        assert("wav"@.len() != "adts"@.len());
        assert("wave"@[0] != "adts"@[0]);
        lemma_not_one_of2(e, "wav"@, "wave"@);
        assert("flac"@[0] != "adts"@[0]);
        assert("ogg"@.len() != "adts"@.len());
        assert("oga"@.len() != "adts"@.len());
        lemma_not_one_of2(e, "ogg"@, "oga"@);
        assert("m4a"@.len() != "adts"@.len());
        assert("m4b"@.len() != "adts"@.len());
        assert("m4r"@.len() != "adts"@.len());
        assert("mp4"@.len() != "adts"@.len());
        lemma_not_one_of4(e, "m4a"@, "m4b"@, "m4r"@, "mp4"@);
        assert(seq!["aac"@, "adts"@][1] == e);
    }
    if e == "aif"@ {
        assert("mp3"@[0] != "aif"@[0]);
        assert("mp2"@[0] != "aif"@[0]);
        assert("mp1"@[0] != "aif"@[0]);
        assert("mpa"@[0] != "aif"@[0]);
        lemma_not_one_of4(e, "mp3"@, "mp2"@, "mp1"@, "mpa"@);
        assert("wav"@[0] != "aif"@[0]);
        assert("wave"@.len() != "aif"@.len());
        lemma_not_one_of2(e, "wav"@, "wave"@);
        assert("flac"@.len() != "aif"@.len());
        assert("ogg"@[0] != "aif"@[0]);
        assert("oga"@[0] != "aif"@[0]);
        lemma_not_one_of2(e, "ogg"@, "oga"@);
        assert("m4a"@[0] != "aif"@[0]);
        assert("m4b"@[0] != "aif"@[0]);
        assert("m4r"@[0] != "aif"@[0]);
        assert("mp4"@[0] != "aif"@[0]);
        lemma_not_one_of4(e, "m4a"@, "m4b"@, "m4r"@, "mp4"@);
        assert("aac"@[1] != "aif"@[1]);
        assert("adts"@.len() != "aif"@.len());
        lemma_not_one_of2(e, "aac"@, "adts"@);
        assert(seq!["aif"@, "aiff"@, "aifc"@][0] == e);
    }
    if e == "aiff"@ {
        assert("mp3"@.len() != "aiff"@.len());
        assert("mp2"@.len() != "aiff"@.len());
        assert("mp1"@.len() != "aiff"@.len());
        assert("mpa"@.len() != "aiff"@.len());
        lemma_not_one_of4(e, "mp3"@, "mp2"@, "mp1"@, "mpa"@);
        assert("wav"@.len() != "aiff"@.len());
        assert("wave"@[0] != "aiff"@[0]);
        lemma_not_one_of2(e, "wav"@, "wave"@);
        assert("flac"@[0] != "aiff"@[0]);
        assert("ogg"@.len() != "aiff"@.len());
        assert("oga"@.len() != "aiff"@.len());
        lemma_not_one_of2(e, "ogg"@, "oga"@);
        assert("m4a"@.len() != "aiff"@.len());
        assert("m4b"@.len() != "aiff"@.len());
        assert("m4r"@.len() != "aiff"@.len());
        assert("mp4"@.len() != "aiff"@.len());
        lemma_not_one_of4(e, "m4a"@, "m4b"@, "m4r"@, "mp4"@);
        assert("aac"@.len() != "aiff"@.len());
        assert("adts"@[1] != "aiff"@[1]);
        lemma_not_one_of2(e, "aac"@, "adts"@);
        assert(seq!["aif"@, "aiff"@, "aifc"@][1] == e);
    }
    if e == "aifc"@ {
        assert("mp3"@.len() != "aifc"@.len());
        assert("mp2"@.len() != "aifc"@.len());
        assert("mp1"@.len() != "aifc"@.len());
        assert("mpa"@.len() != "aifc"@.len());
        lemma_not_one_of4(e, "mp3"@, "mp2"@, "mp1"@, "mpa"@);
        assert("wav"@.len() != "aifc"@.len());
        assert("wave"@[0] != "aifc"@[0]);
        lemma_not_one_of2(e, "wav"@, "wave"@);
        assert("flac"@[0] != "aifc"@[0]);
        assert("ogg"@.len() != "aifc"@.len());
        assert("oga"@.len() != "aifc"@.len());
        lemma_not_one_of2(e, "ogg"@, "oga"@);
        assert("m4a"@.len() != "aifc"@.len());
        assert("m4b"@.len() != "aifc"@.len());
        assert("m4r"@.len() != "aifc"@.len());
        assert("mp4"@.len() != "aifc"@.len());
        lemma_not_one_of4(e, "m4a"@, "m4b"@, "m4r"@, "mp4"@);
        assert("aac"@.len() != "aifc"@.len());
        assert("adts"@[1] != "aifc"@[1]);
        lemma_not_one_of2(e, "aac"@, "adts"@);
        assert(seq!["aif"@, "aiff"@, "aifc"@][2] == e);
    }
    if e == "caf"@ {
        assert("mp3"@[0] != "caf"@[0]);
        assert("mp2"@[0] != "caf"@[0]);
        assert("mp1"@[0] != "caf"@[0]);
        assert("mpa"@[0] != "caf"@[0]);
        lemma_not_one_of4(e, "mp3"@, "mp2"@, "mp1"@, "mpa"@);
        assert("wav"@[0] != "caf"@[0]);
        assert("wave"@.len() != "caf"@.len());
        lemma_not_one_of2(e, "wav"@, "wave"@);
        assert("flac"@.len() != "caf"@.len());
        assert("ogg"@[0] != "caf"@[0]);
        assert("oga"@[0] != "caf"@[0]);
        lemma_not_one_of2(e, "ogg"@, "oga"@);
        assert("m4a"@[0] != "caf"@[0]);
        assert("m4b"@[0] != "caf"@[0]);
        assert("m4r"@[0] != "caf"@[0]);
        assert("mp4"@[0] != "caf"@[0]);
        lemma_not_one_of4(e, "m4a"@, "m4b"@, "m4r"@, "mp4"@);
        assert("aac"@[0] != "caf"@[0]);
        assert("adts"@.len() != "caf"@.len());
        lemma_not_one_of2(e, "aac"@, "adts"@);
        assert("aif"@[0] != "caf"@[0]);
        assert("aiff"@.len() != "caf"@.len());
        assert("aifc"@.len() != "caf"@.len());
        lemma_not_one_of3(e, "aif"@, "aiff"@, "aifc"@);
    }
    if e == "mka"@ {
        assert("mp3"@[1] != "mka"@[1]);
        assert("mp2"@[1] != "mka"@[1]);
        assert("mp1"@[1] != "mka"@[1]);
        assert("mpa"@[1] != "mka"@[1]);
        lemma_not_one_of4(e, "mp3"@, "mp2"@, "mp1"@, "mpa"@);
        assert("wav"@[0] != "mka"@[0]);
        assert("wave"@.len() != "mka"@.len());
        lemma_not_one_of2(e, "wav"@, "wave"@);
        assert("flac"@.len() != "mka"@.len());
        assert("ogg"@[0] != "mka"@[0]);
        assert("oga"@[0] != "mka"@[0]);
        lemma_not_one_of2(e, "ogg"@, "oga"@);
        assert("m4a"@[1] != "mka"@[1]);
        assert("m4b"@[1] != "mka"@[1]);
        assert("m4r"@[1] != "mka"@[1]);
        assert("mp4"@[1] != "mka"@[1]);
        lemma_not_one_of4(e, "m4a"@, "m4b"@, "m4r"@, "mp4"@);
        assert("aac"@[0] != "mka"@[0]);
        assert("adts"@.len() != "mka"@.len());
        lemma_not_one_of2(e, "aac"@, "adts"@);
        assert("aif"@[0] != "mka"@[0]);
        assert("aiff"@.len() != "mka"@.len());
        assert("aifc"@.len() != "mka"@.len());
        lemma_not_one_of3(e, "aif"@, "aiff"@, "aifc"@);
        assert("caf"@[0] != "mka"@[0]);
    }
    if e == "dsf"@ {
        assert("mp3"@[0] != "dsf"@[0]);
        assert("mp2"@[0] != "dsf"@[0]);
        assert("mp1"@[0] != "dsf"@[0]);
        assert("mpa"@[0] != "dsf"@[0]);
        lemma_not_one_of4(e, "mp3"@, "mp2"@, "mp1"@, "mpa"@);
        assert("wav"@[0] != "dsf"@[0]);
        assert("wave"@.len() != "dsf"@.len());
        lemma_not_one_of2(e, "wav"@, "wave"@);
        assert("flac"@.len() != "dsf"@.len());
        assert("ogg"@[0] != "dsf"@[0]);
        assert("oga"@[0] != "dsf"@[0]);
        lemma_not_one_of2(e, "ogg"@, "oga"@);
        assert("m4a"@[0] != "dsf"@[0]);
        assert("m4b"@[0] != "dsf"@[0]);
        assert("m4r"@[0] != "dsf"@[0]);
        assert("mp4"@[0] != "dsf"@[0]);
        lemma_not_one_of4(e, "m4a"@, "m4b"@, "m4r"@, "mp4"@);
        assert("aac"@[0] != "dsf"@[0]);
        assert("adts"@.len() != "dsf"@.len());
        lemma_not_one_of2(e, "aac"@, "adts"@);
        assert("aif"@[0] != "dsf"@[0]);
        assert("aiff"@.len() != "dsf"@.len());
        assert("aifc"@.len() != "dsf"@.len());
        lemma_not_one_of3(e, "aif"@, "aiff"@, "aifc"@);
        assert("caf"@[0] != "dsf"@[0]);
        assert("mka"@[0] != "dsf"@[0]);
    }
    if e == "dff"@ {
        assert("mp3"@[0] != "dff"@[0]);
        assert("mp2"@[0] != "dff"@[0]);
        assert("mp1"@[0] != "dff"@[0]);
        assert("mpa"@[0] != "dff"@[0]);
        lemma_not_one_of4(e, "mp3"@, "mp2"@, "mp1"@, "mpa"@);
        assert("wav"@[0] != "dff"@[0]);
        assert("wave"@.len() != "dff"@.len());
        lemma_not_one_of2(e, "wav"@, "wave"@);
        assert("flac"@.len() != "dff"@.len());
        assert("ogg"@[0] != "dff"@[0]);
        assert("oga"@[0] != "dff"@[0]);
        lemma_not_one_of2(e, "ogg"@, "oga"@);
        assert("m4a"@[0] != "dff"@[0]);
        assert("m4b"@[0] != "dff"@[0]);
        assert("m4r"@[0] != "dff"@[0]);
        assert("mp4"@[0] != "dff"@[0]);
        lemma_not_one_of4(e, "m4a"@, "m4b"@, "m4r"@, "mp4"@);
        assert("aac"@[0] != "dff"@[0]);
        assert("adts"@.len() != "dff"@.len());
        lemma_not_one_of2(e, "aac"@, "adts"@);
        assert("aif"@[0] != "dff"@[0]);
        assert("aiff"@.len() != "dff"@.len());
        assert("aifc"@.len() != "dff"@.len());
        lemma_not_one_of3(e, "aif"@, "aiff"@, "aifc"@);
        assert("caf"@[0] != "dff"@[0]);
        assert("mka"@[0] != "dff"@[0]);
        assert("dsf"@[1] != "dff"@[1]);
    }
}

proof fn lemma_not_one_of2(e: Seq<char>, a: Seq<char>, b: Seq<char>)
    requires
        a != e,
        b != e,
    ensures
        !one_of(e, seq![a, b]),
{
}

proof fn lemma_not_one_of3(e: Seq<char>, a: Seq<char>, b: Seq<char>, c: Seq<char>)
    requires
        a != e,
        b != e,
        c != e,
    ensures
        !one_of(e, seq![a, b, c]),
{
}

proof fn lemma_not_one_of4(e: Seq<char>, a: Seq<char>, b: Seq<char>, c: Seq<char>, d: Seq<char>)
    requires
        a != e,
        b != e,
        c != e,
        d != e,
    ensures
        !one_of(e, seq![a, b, c, d]),
{
}

} // verus!
