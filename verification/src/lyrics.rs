//! Lyrics: where they come from and what kind they are, and the text
//! handling of lyric lookups and display lines. Timed lines carry float
//! timestamps and stay outside the library.
use vstd::prelude::*;
use crate::text::{concat, lower_seq, present_seq, str_eq, texts, to_ascii_lowercase, trim, trim_seq};

verus! {

/// Whether lyrics were found for a track.
#[derive(Debug, Clone, Copy, PartialEq, Eq, Structural)]
pub enum LyricsStatus {
    Missing,
    Resolved,
}

/// Where a track's lyrics come from.
#[derive(Debug, Clone, Copy, PartialEq, Eq, Structural)]
pub enum LyricsSourceKind {
    SidecarLrc,
    SidecarText,
    EmbeddedSynced,
    EmbeddedText,
}

/// Whether lyrics carry timestamps.
#[derive(Debug, Clone, Copy, PartialEq, Eq, Structural)]
pub enum LyricsContentKind {
    Synced,
    Unsynced,
}

/// A sidecar file is an LRC file when its extension is `lrc` in any ASCII
/// case, else plain text.
pub fn detect_sidecar_source_kind(extension: Option<&str>) -> (r: LyricsSourceKind)
    ensures
        r == match extension {
            Some(e) => if lower_seq(e@) == "lrc"@ {
                LyricsSourceKind::SidecarLrc
            } else {
                LyricsSourceKind::SidecarText
            },
            None => LyricsSourceKind::SidecarText,
        },
{
    match extension {
        Some(e) => {
            let lower = to_ascii_lowercase(e);
            if str_eq(lower.as_str(), "lrc") {
                LyricsSourceKind::SidecarLrc
            } else {
                LyricsSourceKind::SidecarText
            }
        },
        None => LyricsSourceKind::SidecarText,
    }
}

/// The rank of a sidecar file by its extension: `lrc` first, then `txt`,
/// anything else last.
pub fn sidecar_rank(extension: Option<&str>) -> (r: u8)
    ensures
        r == match extension {
            Some(e) => if lower_seq(e@) == "lrc"@ {
                0u8
            } else if lower_seq(e@) == "txt"@ {
                1u8
            } else {
                9u8
            },
            None => 9u8,
        },
{
    match extension {
        Some(e) => {
            let lower = to_ascii_lowercase(e);
            if str_eq(lower.as_str(), "lrc") {
                0
            } else if str_eq(lower.as_str(), "txt") {
                1
            } else {
                9
            }
        },
        None => 9,
    }
}

/// A lookup hint, trimmed (empty when absent).
pub fn normalize_lookup_text(value: Option<&str>) -> (r: String)
    ensures
        r@ == match value {
            Some(v) => trim_seq(v@),
            None => Seq::<char>::empty(),
        },
{
    match value {
        Some(v) => trim(v),
        None => String::new(),
    }
}

/// A lookup value trimmed, `None` when blank.
pub fn non_empty_lookup_value(value: &str) -> (r: Option<String>)
    ensures
        crate::text::opt_text(r) == present_seq(Some(value@)),
{
    crate::catalog_db::normalized_non_empty_text(value)
}

/// Two lookup values joined by `separator`, both trimmed; `None` when
/// either is blank.
pub fn combine_lookup_values(left: &str, right: &str, separator: &str) -> (r: Option<String>)
    ensures
        match r {
            Some(v) => trim_seq(left@).len() > 0 && trim_seq(right@).len() > 0 && v@ == trim_seq(
                left@,
            ) + separator@ + trim_seq(right@),
            None => trim_seq(left@).len() == 0 || trim_seq(right@).len() == 0,
        },
{
    let l = trim(left);
    let r = trim(right);
    if l.as_str().is_empty() || r.as_str().is_empty() {
        return None;
    }
    let head = concat(l.as_str(), separator);
    Some(concat(head.as_str(), r.as_str()))
}

/// `lines` without the empty lines at either end.
pub open spec fn trimmed_edge_lines(lines: Seq<Seq<char>>) -> Seq<Seq<char>>
    decreases lines.len(),
{
    if lines.len() > 0 && lines[0].len() == 0 {
        trimmed_edge_lines(lines.drop_first())
    } else if lines.len() > 0 && lines.last().len() == 0 {
        trimmed_edge_lines(lines.drop_last())
    } else {
        lines
    }
}

proof fn lemma_trimmed_edges(lines: Seq<Seq<char>>, s: int, e: int)
    requires
        0 <= s <= e <= lines.len(),
        forall|k: int| 0 <= k < s ==> lines[k].len() == 0,
        forall|k: int| e <= k < lines.len() ==> lines[k].len() == 0,
        s == e || (lines[s].len() > 0 && lines[e - 1].len() > 0),
    ensures
        trimmed_edge_lines(lines) == lines.subrange(s, e),
    decreases lines.len(),
{
    if lines.len() > 0 && lines[0].len() == 0 {
        assert(s > 0 || s == e);
        if s == e && s == 0 {
            lemma_trimmed_edges(lines.drop_first(), 0, 0);
            assert(lines.subrange(0, 0) =~= lines.drop_first().subrange(0, 0));
        } else {
            lemma_trimmed_edges(lines.drop_first(), s - 1, e - 1);
            assert(lines.drop_first().subrange(s - 1, e - 1) =~= lines.subrange(s, e));
        }
    } else if lines.len() > 0 && lines.last().len() == 0 {
        if s == e && e == lines.len() {
            lemma_trimmed_edges(lines.drop_last(), s - 1, s - 1);
            assert(lines.drop_last().subrange(s - 1, s - 1) =~= lines.subrange(s, e));
        } else {
            assert(e < lines.len());
            lemma_trimmed_edges(lines.drop_last(), s, e);
            assert(lines.drop_last().subrange(s, e) =~= lines.subrange(s, e));
        }
    } else {
        if lines.len() > 0 {
            assert(s == 0 || s == e);
            assert(e == lines.len() || s == e);
        }
        if s == e {
            assert(lines.len() == 0 || s == 0);
        }
        assert(lines.subrange(s, e) =~= lines);
    }
}

/// `lines` without the empty lines at either end.
pub fn trim_empty_edge_lines(lines: Vec<String>) -> (r: Vec<String>)
    ensures
        texts(r@) == trimmed_edge_lines(texts(lines@)),
{
    let mut s: usize = 0;
    let mut e: usize = lines.len();
    while s < e && lines[s].as_str().is_empty()
        invariant
            s <= e == lines@.len(),
            forall|k: int| 0 <= k < s ==> lines@[k]@.len() == 0,
        decreases e - s,
    {
        s += 1;
    }
    while e > s && lines[e - 1].as_str().is_empty()
        invariant
            s <= e <= lines@.len(),
            forall|k: int| 0 <= k < s ==> lines@[k]@.len() == 0,
            s == e || s == lines@.len() || lines@[s as int]@.len() > 0,
            forall|k: int| e <= k < lines@.len() ==> lines@[k]@.len() == 0,
        decreases e - s,
    {
        e -= 1;
    }
    proof {
        lemma_trimmed_edges(texts(lines@), s as int, e as int);
    }
    let mut out: Vec<String> = Vec::new();
    let mut k: usize = s;
    while k < e
        invariant
            s <= k <= e <= lines@.len(),
            texts(out@) == texts(lines@).subrange(s as int, k as int),
        decreases e - k,
    {
        let ghost before = out@;
        let item = lines[k].clone();
        out.push(item);
        assert(texts(out@) =~= texts(before).push(lines@[k as int]@));
        assert(texts(lines@).subrange(s as int, k + 1) =~= texts(lines@).subrange(s as int, k as int).push(
            lines@[k as int]@,
        ));
        k += 1;
    }
    out
}

/// The lines joined by line breaks.
pub open spec fn joined_lines(lines: Seq<Seq<char>>) -> Seq<char>
    decreases lines.len(),
{
    if lines.len() == 0 {
        seq![]
    } else if lines.len() == 1 {
        lines[0]
    } else {
        joined_lines(lines.drop_last()) + seq!['\n'] + lines.last()
    }
}

/// The lines joined by line breaks.
pub fn join_display_lines(lines: Vec<String>) -> (r: String)
    ensures
        r@ == joined_lines(texts(lines@)),
{
    if lines.len() == 0 {
        return String::new();
    }
    let mut out = lines[0].clone();
    let mut k: usize = 1;
    assert(texts(lines@).take(1) =~= seq![lines@[0]@]);
    while k < lines.len()
        invariant
            1 <= k <= lines@.len(),
            out@ == joined_lines(texts(lines@).take(k as int)),
        decreases lines@.len() - k,
    {
        proof {
            reveal_strlit("\n");
        }
        let with_break = concat(out.as_str(), "\n");
        out = concat(with_break.as_str(), lines[k].as_str());
        assert(texts(lines@).take(k + 1).drop_last() =~= texts(lines@).take(k as int));
        k += 1;
    }
    assert(texts(lines@).take(lines@.len() as int) =~= texts(lines@));
    out
}

} // verus!
