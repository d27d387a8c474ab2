//! How well the name of a lyric sidecar file matches a track: names are
//! compared after folding them to lower-case words, as word sets, and
//! against the track's file name, title and artist.
use vstd::prelude::*;
use crate::text::{
    ascii_lower, chars_of, contains_seq, is_ascii_alphanumeric, is_ws, lower_seq, opt_text,
    present_seq, string_from_chars, text_lt, trim, trim_seq,
};

verus! {

/// Whether `char::is_alphanumeric` holds of `c` (Unicode `Alphabetic` or
/// `Numeric`).
pub uninterp spec fn alphanumeric(c: char) -> bool;

/// Whether `c` is alphabetic or numeric in Unicode (`char::is_alphanumeric`).
/// The contract names the answer by `alphanumeric` and states it for ASCII,
/// where it holds of letters and digits only.
#[verifier::external_body]
fn char_is_alphanumeric(c: char) -> (r: bool)
    ensures
        r == alphanumeric(c),
        (c as u32) < 128 ==> r == is_ascii_alphanumeric(c),
{
    c.is_alphanumeric()
}

/// The characters that `char::to_lowercase` gives for `c`.
pub uninterp spec fn lowercase_of(c: char) -> Seq<char>;

/// The lower-case mapping of `c` (`char::to_lowercase`), one or more
/// characters. The contract names them by `lowercase_of` and states them
/// for ASCII, where the mapping is ASCII lower-casing.
#[verifier::external_body]
fn char_lowercase(c: char) -> (r: Vec<char>)
    ensures
        r@ == lowercase_of(c),
        (c as u32) < 128 ==> r@ == seq![ascii_lower(c)],
{
    c.to_lowercase().collect()
}

/// Folding a name to words, up to its end: each alphanumeric character
/// lower-cased, each run of other characters one space; the flag says
/// whether the last thing written was a space (true at the start).
pub open spec fn folded_words(s: Seq<char>) -> (Seq<char>, bool)
    decreases s.len(),
{
    if s.len() == 0 {
        (seq![], true)
    } else {
        let (out, spaced) = folded_words(s.drop_last());
        let c = s.last();
        if alphanumeric(c) {
            (out + lowercase_of(c), false)
        } else if !spaced {
            (out.push(' '), true)
        } else {
            (out, spaced)
        }
    }
}

/// A name folded to lower-case words separated by single spaces, trimmed.
pub open spec fn sidecar_match_text(s: Seq<char>) -> Seq<char> {
    trim_seq(folded_words(s).0)
}

/// A name folded to lower-case words separated by single spaces (see
/// `sidecar_match_text`).
pub fn normalize_sidecar_match_text(value: &str) -> (r: String)
    ensures
        r@ == sidecar_match_text(value@),
{
    let v = chars_of(value);
    let mut out: Vec<char> = Vec::new();
    let mut spaced = true;
    let mut i: usize = 0;
    assert(v@.take(0) =~= Seq::<char>::empty());
    while i < v.len()
        invariant
            i <= v.len(),
            folded_words(v@.take(i as int)) == (out@, spaced),
        decreases v.len() - i,
    {
        assert(v@.take(i + 1).drop_last() =~= v@.take(i as int));
        assert(v@.take(i + 1).last() == v@[i as int]);
        let c = v[i];
        if char_is_alphanumeric(c) {
            let lower = char_lowercase(c);
            let ghost before = out@;
            let mut k: usize = 0;
            while k < lower.len()
                invariant
                    k <= lower@.len(),
                    out@ == before + lower@.take(k as int),
                decreases lower@.len() - k,
            {
                out.push(lower[k]);
                assert(lower@.take(k + 1) =~= lower@.take(k as int).push(lower@[k as int]));
                assert(before + lower@.take(k + 1) =~= (before + lower@.take(k as int)).push(
                    lower@[k as int],
                ));
                k += 1;
            }
            assert(lower@.take(lower@.len() as int) =~= lower@);
            spaced = false;
        } else if !spaced {
            out.push(' ');
            spaced = true;
        }
        i += 1;
    }
    assert(v@.take(v@.len() as int) =~= v@);
    let folded = string_from_chars(&out);
    trim(folded.as_str())
}


/// The words of `s` as `str::split_whitespace` gives them: the runs of
/// characters other than whitespace, in order.
pub open spec fn ws_words(s: Seq<char>) -> Seq<Seq<char>>
    decreases s.len(),
{
    if s.len() == 0 {
        seq![]
    } else {
        let before = ws_words(s.drop_last());
        let c = s.last();
        if is_ws(c) {
            before
        } else if s.len() >= 2 && !is_ws(s[s.len() - 2]) {
            before.update(before.len() - 1, before.last().push(c))
        } else {
            before.push(seq![c])
        }
    }
}

/// A text that ends in a word has at least one word.
proof fn lemma_ws_words_nonempty(s: Seq<char>)
    requires
        s.len() > 0,
        !is_ws(s.last()),
    ensures
        ws_words(s).len() > 0,
    decreases s.len(),
{
    if s.len() >= 2 && !is_ws(s[s.len() - 2]) {
        assert(s.drop_last().last() == s[s.len() - 2]);
        lemma_ws_words_nonempty(s.drop_last());
    }
}

/// The words of `s` (see `ws_words`).
pub fn split_whitespace_words(s: &str) -> (r: Vec<String>)
    ensures
        crate::text::texts(r@) == ws_words(s@),
{
    let v = chars_of(s);
    let mut out: Vec<String> = Vec::new();
    let mut word: Vec<char> = Vec::new();
    let mut in_word = false;
    let mut i: usize = 0;
    assert(v@.take(0) =~= Seq::<char>::empty());
    assert(crate::text::texts(out@) =~= Seq::<Seq<char>>::empty());
    while i < v.len()
        invariant
            i <= v.len(),
            in_word == (i > 0 && !is_ws(v@[i - 1])),
            in_word ==> word@.len() > 0,
            ws_words(v@.take(i as int)) == if in_word {
                crate::text::texts(out@).push(word@)
            } else {
                crate::text::texts(out@)
            },
        decreases v.len() - i,
    {
        let ghost prefix = v@.take(i + 1);
        assert(prefix.drop_last() =~= v@.take(i as int));
        assert(prefix.last() == v@[i as int]);
        let c = v[i];
        if crate::text::char_is_ws(c) {
            if in_word {
                let ghost before = out@;
                out.push(string_from_chars(&word));
                assert(crate::text::texts(out@) =~= crate::text::texts(before).push(word@));
                word = Vec::new();
            }
            in_word = false;
        } else {
            if in_word {
                assert(prefix[prefix.len() - 2] == v@[i - 1]);
                let ghost w = word@;
                word.push(c);
                assert(crate::text::texts(out@).push(w).update(
                    crate::text::texts(out@).len() as int,
                    w.push(c),
                ) =~= crate::text::texts(out@).push(word@));
            } else {
                if i > 0 {
                    assert(prefix[prefix.len() - 2] == v@[i - 1]);
                }
                word = Vec::new();
                word.push(c);
                assert(word@ =~= seq![c]);
            }
            in_word = true;
        }
        i += 1;
    }
    assert(v@.take(v@.len() as int) =~= v@);
    if in_word {
        let ghost before = out@;
        out.push(string_from_chars(&word));
        assert(crate::text::texts(out@) =~= crate::text::texts(before).push(word@));
    }
    out
}

/// How many of `sorted` sort no later than `x`.
pub open spec fn count_not_after(sorted: Seq<Seq<char>>, x: Seq<char>) -> nat
    decreases sorted.len(),
{
    if sorted.len() == 0 {
        0
    } else {
        count_not_after(sorted.drop_last(), x) + if !text_lt(x, sorted.last()) {
            1nat
        } else {
            0nat
        }
    }
}

/// The texts in text order: each placed after every earlier one that
/// sorts no later (`sort` on strings).
pub open spec fn sorted_texts(items: Seq<Seq<char>>) -> Seq<Seq<char>>
    decreases items.len(),
{
    if items.len() == 0 {
        seq![]
    } else {
        let prev = sorted_texts(items.drop_last());
        prev.insert(count_not_after(prev, items.last()) as int, items.last())
    }
}

proof fn lemma_count_not_after_bound(sorted: Seq<Seq<char>>, x: Seq<char>)
    ensures
        count_not_after(sorted, x) <= sorted.len(),
    decreases sorted.len(),
{
    if sorted.len() > 0 {
        lemma_count_not_after_bound(sorted.drop_last(), x);
    }
}

proof fn lemma_sorted_texts_len(items: Seq<Seq<char>>)
    ensures
        sorted_texts(items).len() == items.len(),
    decreases items.len(),
{
    if items.len() > 0 {
        lemma_sorted_texts_len(items.drop_last());
        lemma_count_not_after_bound(sorted_texts(items.drop_last()), items.last());
    }
}

/// The texts in text order (see `sorted_texts`).
pub fn sort_texts(items: &Vec<String>) -> (r: Vec<String>)
    ensures
        crate::text::texts(r@) == sorted_texts(crate::text::texts(items@)),
{
    let ghost all = crate::text::texts(items@);
    let mut out: Vec<String> = Vec::new();
    let mut i: usize = 0;
    assert(all.take(0) =~= Seq::<Seq<char>>::empty());
    assert(crate::text::texts(out@) =~= Seq::<Seq<char>>::empty());
    while i < items.len()
        invariant
            i <= items@.len(),
            all == crate::text::texts(items@),
            crate::text::texts(out@) == sorted_texts(all.take(i as int)),
        decreases items@.len() - i,
    {
        let ghost prefix = all.take(i + 1);
        assert(prefix.drop_last() =~= all.take(i as int));
        assert(prefix.last() == items@[i as int]@);
        let ghost prev = crate::text::texts(out@);
        proof {
            lemma_count_not_after_bound(prev, items@[i as int]@);
        }
        let mut at: usize = 0;
        let mut k: usize = 0;
        assert(prev.take(0) =~= Seq::<Seq<char>>::empty());
        while k < out.len()
            invariant
                k <= out@.len(),
                i < items@.len(),
                prev == crate::text::texts(out@),
                at <= k,
                at == count_not_after(prev.take(k as int), items@[i as int]@),
            decreases out@.len() - k,
        {
            assert(prev.take(k + 1).drop_last() =~= prev.take(k as int));
            assert(prev.take(k + 1).last() == out@[k as int]@);
            if !crate::text::text_less(items[i].as_str(), out[k].as_str()) {
                at += 1;
            }
            k += 1;
        }
        assert(prev.take(out@.len() as int) =~= prev);
        let ghost before = out@;
        out.insert(at, items[i].clone());
        assert(crate::text::texts(out@) =~= crate::text::texts(before).insert(
            at as int,
            items@[i as int]@,
        ));
        i += 1;
    }
    assert(all.take(items@.len() as int) =~= all);
    out
}

/// Words joined by single spaces.
pub open spec fn joined_words(words: Seq<Seq<char>>) -> Seq<char>
    decreases words.len(),
{
    if words.len() == 0 {
        seq![]
    } else if words.len() == 1 {
        words[0]
    } else {
        joined_words(words.drop_last()) + seq![' '] + words.last()
    }
}

/// Words joined by single spaces.
pub fn join_words(words: &Vec<String>) -> (r: String)
    ensures
        r@ == joined_words(crate::text::texts(words@)),
{
    let ghost all = crate::text::texts(words@);
    if words.len() == 0 {
        return String::new();
    }
    let mut out: Vec<char> = chars_of(words[0].as_str());
    let mut k: usize = 1;
    assert(all.take(1) =~= seq![words@[0]@]);
    while k < words.len()
        invariant
            1 <= k <= words@.len(),
            all == crate::text::texts(words@),
            out@ == joined_words(all.take(k as int)),
        decreases words@.len() - k,
    {
        let ghost before = out@;
        out.push(' ');
        let w = chars_of(words[k].as_str());
        let mut j: usize = 0;
        while j < w.len()
            invariant
                j <= w@.len(),
                out@ == before + seq![' '] + w@.take(j as int),
            decreases w@.len() - j,
        {
            out.push(w[j]);
            assert(w@.take(j + 1) =~= w@.take(j as int).push(w@[j as int]));
            assert(before + seq![' '] + w@.take(j + 1) =~= (before + seq![' '] + w@.take(j as int)).push(
                w@[j as int],
            ));
            j += 1;
        }
        assert(w@.take(w@.len() as int) =~= w@);
        assert(all.take(k + 1).drop_last() =~= all.take(k as int));
        assert(all.take(k + 1).last() == words@[k as int]@);
        k += 1;
    }
    assert(all.take(words@.len() as int) =~= all);
    string_from_chars(&out)
}

/// The words of a name, folded and in text order, joined by spaces: two
/// names with the same words in any order share it.
pub open spec fn token_signature(s: Seq<char>) -> Seq<char> {
    joined_words(sorted_texts(ws_words(sidecar_match_text(s))))
}

/// The word signature of a name (see `token_signature`).
pub fn build_token_signature(value: &str) -> (r: String)
    ensures
        r@ == token_signature(value@),
{
    let folded = normalize_sidecar_match_text(value);
    let words = split_whitespace_words(folded.as_str());
    let sorted = sort_texts(&words);
    join_words(&sorted)
}


/// What `Path::file_stem` gives for the path written as `s`.
pub uninterp spec fn path_file_stem(s: Seq<char>) -> Option<Seq<char>>;

/// The stem of the path written as `path` (`Path::file_stem`): its last
/// component without its extension. The contract names it by
/// `path_file_stem`.
#[verifier::external_body]
pub(crate) fn file_stem_of(path: &str) -> (r: Option<String>)
    ensures
        opt_text(r) == path_file_stem(path@),
{
    match std::path::Path::new(path).file_stem() {
        Some(stem) => Some(stem.to_string_lossy().into_owned()),
        None => None,
    }
}

/// A file name without its extension, trimmed; the trimmed name itself
/// when it has no stem left; `None` when blank.
pub open spec fn stripped_extension(value: Seq<char>) -> Option<Seq<char>> {
    let t = trim_seq(value);
    if t.len() == 0 {
        None
    } else {
        Some(
            match path_file_stem(t) {
                Some(stem) => if trim_seq(stem).len() > 0 {
                    trim_seq(stem)
                } else {
                    t
                },
                None => t,
            },
        )
    }
}

/// A file name without its extension (see `stripped_extension`).
pub fn strip_extension(value: &str) -> (r: Option<String>)
    ensures
        opt_text(r) == stripped_extension(value@),
{
    let t = trim(value);
    if t.as_str().is_empty() {
        return None;
    }
    match file_stem_of(t.as_str()) {
        Some(stem) => {
            let s = trim(stem.as_str());
            if s.as_str().is_empty() {
                Some(t)
            } else {
                Some(s)
            }
        },
        None => Some(t),
    }
}

/// What a track is known by when its lyrics are looked up, each trimmed.
pub struct LyricsLookupHints {
    pub title: String,
    pub artist: String,
    pub album: String,
    pub file_name: String,
}

/// Two values joined by `separator`, both trimmed; `None` when either is
/// blank.
pub open spec fn combined_values(left: Seq<char>, right: Seq<char>, separator: Seq<char>) -> Option<Seq<char>> {
    if trim_seq(left).len() > 0 && trim_seq(right).len() > 0 {
        Some(trim_seq(left) + separator + trim_seq(right))
    } else {
        None
    }
}

/// The names a sidecar may carry, in order of preference: the audio
/// file's stem, the file name hint without extension, the title, the
/// artist, the album, and artist and title joined either way by ` - ` or
/// by a space.
pub open spec fn lookup_candidates(audio_stem: Seq<char>, h: LyricsLookupHints) -> Seq<Option<Seq<char>>> {
    seq![
        Some(audio_stem),
        stripped_extension(h.file_name@),
        present_seq(Some(h.title@)),
        present_seq(Some(h.artist@)),
        present_seq(Some(h.album@)),
        combined_values(h.artist@, h.title@, " - "@),
        combined_values(h.title@, h.artist@, " - "@),
        combined_values(h.artist@, h.title@, " "@),
        combined_values(h.title@, h.artist@, " "@),
    ]
}

/// The present values folded to words, each once, without empty ones.
pub open spec fn distinct_folded(values: Seq<Option<Seq<char>>>) -> Seq<Seq<char>>
    decreases values.len(),
{
    if values.len() == 0 {
        seq![]
    } else {
        let before = distinct_folded(values.drop_last());
        match values.last() {
            Some(v) => {
                let n = sidecar_match_text(v);
                if n.len() == 0 || before.contains(n) {
                    before
                } else {
                    before.push(n)
                }
            },
            None => before,
        }
    }
}

/// The names a sidecar may carry, folded, each once.
pub open spec fn lookup_ordered_names(audio_stem: Seq<char>, h: LyricsLookupHints) -> Seq<Seq<char>> {
    distinct_folded(lookup_candidates(audio_stem, h))
}

/// The word signatures of names, each once, without empty ones.
pub open spec fn distinct_signatures(names: Seq<Seq<char>>) -> Seq<Seq<char>>
    decreases names.len(),
{
    if names.len() == 0 {
        seq![]
    } else {
        let before = distinct_signatures(names.drop_last());
        let sig = token_signature(names.last());
        if sig.len() == 0 || before.contains(sig) {
            before
        } else {
            before.push(sig)
        }
    }
}

/// The texts of a list of optional strings.
pub open spec fn opt_texts(values: Seq<Option<String>>) -> Seq<Option<Seq<char>>> {
    values.map_values(|v: Option<String>| opt_text(v))
}

/// The names a sidecar may carry, folded, each once (see
/// `lookup_ordered_names`).
pub fn collect_lookup_ordered_names(audio_stem: &str, hints: &LyricsLookupHints) -> (r: Vec<String>)
    ensures
        crate::text::texts(r@) == lookup_ordered_names(audio_stem@, *hints),
{
    let mut candidates: Vec<Option<String>> = Vec::new();
    candidates.push(Some(crate::text::to_owned(audio_stem)));
    candidates.push(strip_extension(hints.file_name.as_str()));
    candidates.push(crate::lyrics::non_empty_lookup_value(hints.title.as_str()));
    candidates.push(crate::lyrics::non_empty_lookup_value(hints.artist.as_str()));
    candidates.push(crate::lyrics::non_empty_lookup_value(hints.album.as_str()));
    candidates.push(crate::lyrics::combine_lookup_values(hints.artist.as_str(), hints.title.as_str(), " - "));
    candidates.push(crate::lyrics::combine_lookup_values(hints.title.as_str(), hints.artist.as_str(), " - "));
    candidates.push(crate::lyrics::combine_lookup_values(hints.artist.as_str(), hints.title.as_str(), " "));
    candidates.push(crate::lyrics::combine_lookup_values(hints.title.as_str(), hints.artist.as_str(), " "));
    let ghost cs = opt_texts(candidates@);
    assert(cs =~= lookup_candidates(audio_stem@, *hints));
    let mut names: Vec<String> = Vec::new();
    let mut i: usize = 0;
    assert(cs.take(0) =~= Seq::<Option<Seq<char>>>::empty());
    assert(crate::text::texts(names@) =~= Seq::<Seq<char>>::empty());
    while i < candidates.len()
        invariant
            i <= candidates@.len(),
            cs == opt_texts(candidates@),
            crate::text::texts(names@) == distinct_folded(cs.take(i as int)),
        decreases candidates@.len() - i,
    {
        assert(cs.take(i + 1).drop_last() =~= cs.take(i as int));
        assert(cs.take(i + 1).last() == opt_text(candidates@[i as int]));
        match &candidates[i] {
            Some(v) => {
                let n = normalize_sidecar_match_text(v.as_str());
                if !n.as_str().is_empty() && !crate::text::contains_text(&names, n.as_str()) {
                    let ghost before = names@;
                    names.push(n);
                    assert(crate::text::texts(names@) =~= crate::text::texts(before).push(
                        sidecar_match_text(v@),
                    ));
                }
            },
            None => {},
        }
        i += 1;
    }
    assert(cs.take(candidates@.len() as int) =~= cs);
    names
}

/// The word signatures of the names a sidecar may carry, each once.
pub fn collect_lookup_token_signatures(audio_stem: &str, hints: &LyricsLookupHints) -> (r: Vec<String>)
    ensures
        crate::text::texts(r@) == distinct_signatures(lookup_ordered_names(audio_stem@, *hints)),
{
    let names = collect_lookup_ordered_names(audio_stem, hints);
    let ghost ns = crate::text::texts(names@);
    let mut out: Vec<String> = Vec::new();
    let mut i: usize = 0;
    assert(ns.take(0) =~= Seq::<Seq<char>>::empty());
    assert(crate::text::texts(out@) =~= Seq::<Seq<char>>::empty());
    while i < names.len()
        invariant
            i <= names@.len(),
            ns == crate::text::texts(names@),
            crate::text::texts(out@) == distinct_signatures(ns.take(i as int)),
        decreases names@.len() - i,
    {
        assert(ns.take(i + 1).drop_last() =~= ns.take(i as int));
        assert(ns.take(i + 1).last() == names@[i as int]@);
        let sig = build_token_signature(names[i].as_str());
        if !sig.as_str().is_empty() && !crate::text::contains_text(&out, sig.as_str()) {
            let ghost before = out@;
            out.push(sig);
            assert(crate::text::texts(out@) =~= crate::text::texts(before).push(
                token_signature(names@[i as int]@),
            ));
        }
        i += 1;
    }
    assert(ns.take(names@.len() as int) =~= ns);
    out
}


/// `base` less the penalty, at least 0.
pub open spec fn penalized(base: nat, penalty: nat) -> nat {
    if base > penalty {
        (base - penalty) as nat
    } else {
        0
    }
}

/// The larger of two scores.
pub open spec fn max_nat(a: nat, b: nat) -> nat {
    if a >= b {
        a
    } else {
        b
    }
}

/// The best of the match scores that hold, less the folder's cost: 1000
/// for the same stem, 940 for a lookup name, 900 for its words in any
/// order, 860 for the title, 780 for a name holding title and artist.
pub open spec fn best_of_matches(
    same_stem: bool,
    named: bool,
    worded: bool,
    titled: bool,
    holds_title: bool,
    penalty: nat,
) -> nat {
    let s1 = if same_stem {
        penalized(1000, penalty)
    } else {
        0
    };
    let s2 = if named {
        max_nat(s1, penalized(940, penalty))
    } else {
        s1
    };
    let s3 = if worded {
        max_nat(s2, penalized(900, penalty))
    } else {
        s2
    };
    let s4 = if titled {
        max_nat(s3, penalized(860, penalty))
    } else {
        s3
    };
    if holds_title {
        max_nat(s4, penalized(780, penalty))
    } else {
        s4
    }
}

/// How well a sidecar file matches a track, from the stems of both files,
/// the sidecar's extension and the rank of its folder (each rank costs
/// 24): the best of the matches that hold (see `best_of_matches`), where
/// the stems compare in any ASCII case, the lookup names and their word
/// signatures are those of the audio stem and the hints, and the title
/// and artist compare folded; 8 more for an `lrc` file that matches at
/// all. No stem, or a sidecar stem without words, scores 0.
pub open spec fn sidecar_score(
    candidate_stem: Option<Seq<char>>,
    audio_stem: Option<Seq<char>>,
    extension: Option<Seq<char>>,
    directory_rank: nat,
    h: LyricsLookupHints,
) -> nat {
    match (candidate_stem, audio_stem) {
        (Some(cs), Some(au)) => {
            let nc = sidecar_match_text(cs);
            let nt = sidecar_match_text(h.title@);
            let na = sidecar_match_text(h.artist@);
            let base = best_of_matches(
                lower_seq(cs) == lower_seq(au),
                lookup_ordered_names(au, h).contains(nc),
                distinct_signatures(lookup_ordered_names(au, h)).contains(token_signature(cs)),
                nt.len() > 0 && nc == nt,
                nt.len() > 0 && contains_seq(nc, nt) && (na.len() == 0 || contains_seq(nc, na)),
                directory_rank * 24,
            );
            if nc.len() == 0 {
                0
            } else if base > 0 && (extension matches Some(e) && lower_seq(e) == "lrc"@) {
                base + 8
            } else {
                base
            }
        },
        _ => 0,
    }
}

/// `base` less `penalty`, at least 0.
fn penalized_score(base: u16, penalty: u16) -> (r: u16)
    ensures
        r == penalized(base as nat, penalty as nat),
{
    if base > penalty {
        base - penalty
    } else {
        0
    }
}

/// The best of the match scores that hold (see `best_of_matches`).
fn best_match_score(
    same_stem: bool,
    named: bool,
    worded: bool,
    titled: bool,
    holds_title: bool,
    penalty: u16,
) -> (r: u16)
    ensures
        r as nat == best_of_matches(same_stem, named, worded, titled, holds_title, penalty as nat),
        r <= 1000,
{
    let mut score: u16 = 0;
    if same_stem {
        score = penalized_score(1000, penalty);
    }
    if named {
        let p = penalized_score(940, penalty);
        if p > score {
            score = p;
        }
    }
    if worded {
        let p = penalized_score(900, penalty);
        if p > score {
            score = p;
        }
    }
    if titled {
        let p = penalized_score(860, penalty);
        if p > score {
            score = p;
        }
    }
    if holds_title {
        let p = penalized_score(780, penalty);
        if p > score {
            score = p;
        }
    }
    score
}

/// Whether `e` is `lrc` in any ASCII case.
fn is_lrc_extension(extension: Option<&str>) -> (r: bool)
    ensures
        r == (extension matches Some(e) && lower_seq(e@) == "lrc"@),
{
    match extension {
        Some(e) => {
            let lower = crate::text::to_ascii_lowercase(e);
            crate::text::str_eq(lower.as_str(), "lrc")
        },
        None => false,
    }
}

/// How well a sidecar file matches a track (see `sidecar_score`).
pub fn score_sidecar_match(
    candidate_stem: Option<&str>,
    audio_stem: Option<&str>,
    extension: Option<&str>,
    directory_rank: u8,
    hints: &LyricsLookupHints,
) -> (r: u16)
    ensures
        r as nat == sidecar_score(
            match candidate_stem {
                Some(c) => Some(c@),
                None => None,
            },
            match audio_stem {
                Some(a) => Some(a@),
                None => None,
            },
            match extension {
                Some(e) => Some(e@),
                None => None,
            },
            directory_rank as nat,
            *hints,
        ),
{
    let (cs, au) = match (candidate_stem, audio_stem) {
        (Some(cs), Some(au)) => (cs, au),
        _ => return 0,
    };
    let nc = normalize_sidecar_match_text(cs);
    if nc.as_str().is_empty() {
        return 0;
    }
    let nt = normalize_sidecar_match_text(hints.title.as_str());
    let na = normalize_sidecar_match_text(hints.artist.as_str());
    let names = collect_lookup_ordered_names(au, hints);
    let signatures = collect_lookup_token_signatures(au, hints);
    let signature = build_token_signature(cs);
    let lower_c = crate::text::to_ascii_lowercase(cs);
    let lower_a = crate::text::to_ascii_lowercase(au);
    let same_stem = crate::text::str_eq(lower_c.as_str(), lower_a.as_str());
    let named = crate::text::contains_text(&names, nc.as_str());
    let worded = crate::text::contains_text(&signatures, signature.as_str());
    let titled = !nt.as_str().is_empty() && crate::text::str_eq(nc.as_str(), nt.as_str());
    let holds_title = !nt.as_str().is_empty() && crate::text::contains(nc.as_str(), nt.as_str()) && (
    na.as_str().is_empty() || crate::text::contains(nc.as_str(), na.as_str()));
    let penalty: u16 = (directory_rank as u16) * 24;
    let base = best_match_score(same_stem, named, worded, titled, holds_title, penalty);
    if base > 0 && is_lrc_extension(extension) {
        base + 8
    } else {
        base
    }
}


/// The text hints of a lyrics request, each trimmed (empty when absent).
pub fn create_lookup_hints(
    title: Option<&str>,
    artist: Option<&str>,
    album: Option<&str>,
    file_name: Option<&str>,
) -> (r: LyricsLookupHints)
    ensures
        r.title@ == crate::text::trim_seq(
            match title {
                Some(t) => t@,
                None => Seq::<char>::empty(),
            },
        ),
        r.artist@ == crate::text::trim_seq(
            match artist {
                Some(t) => t@,
                None => Seq::<char>::empty(),
            },
        ),
        r.album@ == crate::text::trim_seq(
            match album {
                Some(t) => t@,
                None => Seq::<char>::empty(),
            },
        ),
        r.file_name@ == crate::text::trim_seq(
            match file_name {
                Some(t) => t@,
                None => Seq::<char>::empty(),
            },
        ),
{
    proof {
        crate::text::lemma_trim_idempotent(Seq::<char>::empty());
        assert(crate::text::trim_seq(Seq::<char>::empty()) =~= Seq::<char>::empty());
    }
    LyricsLookupHints {
        title: crate::lyrics::normalize_lookup_text(title),
        artist: crate::lyrics::normalize_lookup_text(artist),
        album: crate::lyrics::normalize_lookup_text(album),
        file_name: crate::lyrics::normalize_lookup_text(file_name),
    }
}

proof fn lemma_penalized_antitone(base: nat, p1: nat, p2: nat)
    requires
        p1 <= p2,
    ensures
        penalized(base, p2) <= penalized(base, p1),
{
}

proof fn lemma_best_of_matches_antitone(
    same_stem: bool,
    named: bool,
    worded: bool,
    titled: bool,
    holds_title: bool,
    p1: nat,
    p2: nat,
)
    requires
        p1 <= p2,
    ensures
        best_of_matches(same_stem, named, worded, titled, holds_title, p2) <= best_of_matches(
            same_stem,
            named,
            worded,
            titled,
            holds_title,
            p1,
        ),
{
    lemma_penalized_antitone(1000, p1, p2);
    lemma_penalized_antitone(940, p1, p2);
    lemma_penalized_antitone(900, p1, p2);
    lemma_penalized_antitone(860, p1, p2);
    lemma_penalized_antitone(780, p1, p2);
}

/// A sidecar in a better-ranked folder never scores lower than the same
/// sidecar name in a worse-ranked folder.
pub proof fn law_nearer_folders_never_score_lower(
    candidate_stem: Option<Seq<char>>,
    audio_stem: Option<Seq<char>>,
    extension: Option<Seq<char>>,
    rank: nat,
    farther_rank: nat,
    hints: LyricsLookupHints,
)
    requires
        rank <= farther_rank,
    ensures
        sidecar_score(candidate_stem, audio_stem, extension, farther_rank, hints) <= sidecar_score(
            candidate_stem,
            audio_stem,
            extension,
            rank,
            hints,
        ),
{
    match (candidate_stem, audio_stem) {
        (Some(cs), Some(au)) => {
            let nc = sidecar_match_text(cs);
            let nt = sidecar_match_text(hints.title@);
            let na = sidecar_match_text(hints.artist@);
            assert(rank * 24 <= farther_rank * 24) by (nonlinear_arith)
                requires
                    rank <= farther_rank,
            ;
            lemma_best_of_matches_antitone(
                lower_seq(cs) == lower_seq(au),
                lookup_ordered_names(au, hints).contains(nc),
                distinct_signatures(lookup_ordered_names(au, hints)).contains(token_signature(cs)),
                nt.len() > 0 && nc == nt,
                nt.len() > 0 && contains_seq(nc, nt) && (na.len() == 0 || contains_seq(nc, na)),
                rank * 24,
                farther_rank * 24,
            );
        },
        _ => {},
    }
}

/// A sidecar whose stem is the track's own stem (in any ASCII case), and
/// that has words to match, scores at least as high as any other sidecar of
/// the same extension in a folder of the same or a worse rank.
pub proof fn law_own_stem_scores_highest(
    own_stem: Seq<char>,
    other_stem: Option<Seq<char>>,
    audio_stem: Seq<char>,
    extension: Option<Seq<char>>,
    rank: nat,
    other_rank: nat,
    hints: LyricsLookupHints,
)
    requires
        lower_seq(own_stem) == lower_seq(audio_stem),
        sidecar_match_text(own_stem).len() > 0,
        rank <= other_rank,
    ensures
        sidecar_score(other_stem, Some(audio_stem), extension, other_rank, hints) <= sidecar_score(
            Some(own_stem),
            Some(audio_stem),
            extension,
            rank,
            hints,
        ),
{
    law_nearer_folders_never_score_lower(other_stem, Some(audio_stem), extension, rank, other_rank, hints);
    match other_stem {
        Some(cs) => {
            let au = audio_stem;
            let nc = sidecar_match_text(cs);
            let nt = sidecar_match_text(hints.title@);
            let na = sidecar_match_text(hints.artist@);
            let p = rank * 24;
            let other_base = best_of_matches(
                lower_seq(cs) == lower_seq(au),
                lookup_ordered_names(au, hints).contains(nc),
                distinct_signatures(lookup_ordered_names(au, hints)).contains(token_signature(cs)),
                nt.len() > 0 && nc == nt,
                nt.len() > 0 && contains_seq(nc, nt) && (na.len() == 0 || contains_seq(nc, na)),
                p,
            );
            assert(other_base <= penalized(1000, p));
            let no = sidecar_match_text(own_stem);
            let own_base = best_of_matches(
                true,
                lookup_ordered_names(au, hints).contains(no),
                distinct_signatures(lookup_ordered_names(au, hints)).contains(token_signature(own_stem)),
                nt.len() > 0 && no == nt,
                nt.len() > 0 && contains_seq(no, nt) && (na.len() == 0 || contains_seq(no, na)),
                p,
            );
            assert(own_base >= penalized(1000, p));
        },
        None => {},
    }
}

} // verus!
