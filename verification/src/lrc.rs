//! Lyric text in the LRC format: line breaks, metadata tags, and timestamps
//! held in whole milliseconds.
//!
//! A timestamp tag reads `[mm:ss.xx]` or `[hh:mm:ss.xx]` (a comma may stand
//! for the point). Hours and minutes are whole decimal numbers; seconds may
//! carry a fraction, which is rounded half up to the millisecond. Times
//! saturate at `i64::MAX` milliseconds.
use vstd::prelude::*;
use crate::lyrics::{LyricsContentKind, LyricsSourceKind};
use crate::text::{
    chars_of, first_index_of, is_ascii_digit, lower_seq, string_from_chars, string_from_range,
    strip_leading, strip_trailing, trim, trim_end_matches, trim_seq, trim_start_matches,
};

verus! {

/// The byte-order mark, which lyric text may carry at either end.
pub const BYTE_ORDER_MARK: char = '\u{feff}';

/// The largest time in milliseconds; longer times saturate to it.
pub const MAX_TIME_MS: u64 = 9223372036854775807;

/// `s` with every `\r\n` and every other `\r` turned into `\n`.
pub open spec fn unify_breaks(s: Seq<char>) -> Seq<char>
    decreases s.len(),
{
    if s.len() == 0 {
        s
    } else if s[0] == '\r' && s.len() > 1 && s[1] == '\n' {
        seq!['\n'] + unify_breaks(s.skip(2))
    } else if s[0] == '\r' {
        seq!['\n'] + unify_breaks(s.drop_first())
    } else {
        seq![s[0]] + unify_breaks(s.drop_first())
    }
}

/// `v` with every `\r\n` and every other `\r` turned into `\n`.
fn unify_line_breaks(v: &Vec<char>) -> (r: Vec<char>)
    ensures
        r@ == unify_breaks(v@),
{
    let mut out: Vec<char> = Vec::new();
    let mut i: usize = 0;
    assert(v@.skip(0) =~= v@);
    while i < v.len()
        invariant
            i <= v.len(),
            unify_breaks(v@) == out@ + unify_breaks(v@.skip(i as int)),
        decreases v.len() - i,
    {
        let ghost rest = v@.skip(i as int);
        let ghost before = out@;
        if v[i] == '\r' && i + 1 < v.len() && v[i + 1] == '\n' {
            assert(rest.skip(2) =~= v@.skip(i + 2));
            out.push('\n');
            assert(out@ + unify_breaks(v@.skip(i + 2)) =~= before + unify_breaks(rest));
            i += 2;
        } else {
            assert(rest.drop_first() =~= v@.skip(i + 1));
            if v[i] == '\r' {
                out.push('\n');
            } else {
                out.push(v[i]);
            }
            assert(out@ + unify_breaks(v@.skip(i + 1)) =~= before + unify_breaks(rest));
            i += 1;
        }
    }
    assert(v@.skip(i as int) =~= Seq::<char>::empty());
    assert(out@ + Seq::<char>::empty() =~= out@);
    out
}

/// A lyric text as it is shown: line breaks unified, byte-order marks at
/// either end dropped, and trimmed.
pub open spec fn normalized_lyric_text(s: Seq<char>) -> Seq<char> {
    trim_seq(strip_trailing(strip_leading(unify_breaks(s), BYTE_ORDER_MARK), BYTE_ORDER_MARK))
}

/// A lyric text as it is shown: line breaks unified, byte-order marks at
/// either end dropped, and trimmed.
pub fn normalize_lyric_line_text(value: &str) -> (r: String)
    ensures
        r@ == normalized_lyric_text(value@),
{
    let v = chars_of(value);
    let unified = string_from_chars(&unify_line_breaks(&v));
    let head = trim_start_matches(unified.as_str(), BYTE_ORDER_MARK);
    let both = trim_end_matches(head.as_str(), BYTE_ORDER_MARK);
    trim(both.as_str())
}

/// The pieces of `s` between the `c` characters (`s.split(c)`); there is
/// always at least one.
pub open spec fn split_pieces(s: Seq<char>, c: char) -> Seq<Seq<char>>
    decreases s.len(),
{
    if s.len() == 0 {
        seq![seq![]]
    } else {
        let before = split_pieces(s.drop_last(), c);
        if s.last() == c {
            before.push(seq![])
        } else {
            before.update(before.len() - 1, before.last().push(s.last()))
        }
    }
}

/// There is always at least one piece.
pub proof fn lemma_split_pieces_nonempty(s: Seq<char>, c: char)
    ensures
        split_pieces(s, c).len() >= 1,
    decreases s.len(),
{
    if s.len() > 0 {
        lemma_split_pieces_nonempty(s.drop_last(), c);
    }
}

/// The lines of a text without carriage returns, as `str::lines` gives
/// them: the pieces between line breaks, without the empty piece after a
/// final line break.
pub open spec fn text_lines(s: Seq<char>) -> Seq<Seq<char>> {
    if s.len() == 0 {
        seq![]
    } else if s.last() == '\n' {
        split_pieces(s, '\n').drop_last()
    } else {
        split_pieces(s, '\n')
    }
}

/// The pieces of `v` between the `c` characters.
fn split_chars(v: &Vec<char>, c: char) -> (r: Vec<String>)
    ensures
        crate::text::texts(r@) == split_pieces(v@, c),
{
    let mut out: Vec<String> = Vec::new();
    let mut start: usize = 0;
    let mut i: usize = 0;
    assert(v@.take(0) =~= Seq::<char>::empty());
    assert(crate::text::texts(out@).push(v@.subrange(0, 0)) =~= seq![Seq::<char>::empty()]);
    while i < v.len()
        invariant
            start <= i <= v.len(),
            split_pieces(v@.take(i as int), c) == crate::text::texts(out@).push(
                v@.subrange(start as int, i as int),
            ),
        decreases v.len() - i,
    {
        let ghost before = out@;
        assert(v@.take(i + 1).drop_last() =~= v@.take(i as int));
        assert(v@.take(i + 1).last() == v@[i as int]);
        if v[i] == c {
            let piece = string_from_range(v, start, i);
            out.push(piece);
            assert(crate::text::texts(out@) =~= crate::text::texts(before).push(
                v@.subrange(start as int, i as int),
            ));
            assert(v@.subrange(i + 1, i + 1) =~= Seq::<char>::empty());
            start = i + 1;
        } else {
            assert(v@.subrange(start as int, i + 1) =~= v@.subrange(start as int, i as int).push(
                v@[i as int],
            ));
            assert(crate::text::texts(before).push(v@.subrange(start as int, i as int)).update(
                crate::text::texts(before).len() as int,
                v@.subrange(start as int, i + 1),
            ) =~= crate::text::texts(before).push(v@.subrange(start as int, i + 1)));
        }
        i += 1;
    }
    assert(v@.take(v@.len() as int) =~= v@);
    let last = string_from_range(v, start, v.len());
    let ghost before = out@;
    out.push(last);
    assert(crate::text::texts(out@) =~= crate::text::texts(before).push(
        v@.subrange(start as int, v@.len() as int),
    ));
    out
}

/// The pieces of `s` between the `c` characters (`s.split(c)`).
pub fn split_text_pieces(s: &str, c: char) -> (r: Vec<String>)
    ensures
        crate::text::texts(r@) == split_pieces(s@, c),
{
    split_chars(&chars_of(s), c)
}

/// The lines of `s` (see `text_lines`).
pub fn split_text_lines(s: &str) -> (r: Vec<String>)
    ensures
        crate::text::texts(r@) == text_lines(s@),
{
    let v = chars_of(s);
    if v.len() == 0 {
        let empty: Vec<String> = Vec::new();
        assert(crate::text::texts(empty@) =~= Seq::<Seq<char>>::empty());
        return empty;
    }
    let mut pieces = split_chars(&v, '\n');
    if v[v.len() - 1] == '\n' {
        proof {
            lemma_split_pieces_nonempty(v@, '\n');
        }
        let ghost before = pieces@;
        pieces.pop();
        assert(crate::text::texts(pieces@) =~= crate::text::texts(before).drop_last());
    }
    pieces
}


/// Whether every character of `s` is an ASCII digit.
pub open spec fn all_digits(s: Seq<char>) -> bool {
    forall|k: int| 0 <= k < s.len() ==> is_ascii_digit(s[k])
}

/// The number that the decimal digits `s` write.
pub open spec fn digits_value(s: Seq<char>) -> nat
    decreases s.len(),
{
    if s.len() == 0 {
        0
    } else {
        digits_value(s.drop_last()) * 10 + ((s.last() as int) - 48) as nat
    }
}

/// `n`, or `cap` when `n` is larger.
pub open spec fn capped(n: nat, cap: nat) -> nat {
    if n <= cap {
        n
    } else {
        cap
    }
}

/// Saturating first and scaling and adding after gives what saturating
/// at the end gives.
proof fn lemma_capped_step(a: nat, k: nat, b: nat, cap: nat)
    requires
        k >= 1,
    ensures
        capped(capped(a, cap) * k + b, cap) == capped(a * k + b, cap),
{
    if a > cap {
        assert(cap * k >= cap) by (nonlinear_arith)
            requires
                k >= 1,
        ;
        assert(a * k >= cap * k) by (nonlinear_arith)
            requires
                k >= 1,
                a > cap,
        ;
    }
}

/// The value of the digit `c`.
fn digit_of(c: char) -> (d: u64)
    requires
        is_ascii_digit(c),
    ensures
        d == (c as int) - 48,
{
    ((c as u32) - 48) as u64
}

/// Whether `v[lo..hi]` holds only ASCII digits.
fn digits_in(v: &Vec<char>, lo: usize, hi: usize) -> (r: bool)
    requires
        lo <= hi <= v.len(),
    ensures
        r == all_digits(v@.subrange(lo as int, hi as int)),
{
    let mut i = lo;
    while i < hi
        invariant
            lo <= i <= hi <= v.len(),
            all_digits(v@.subrange(lo as int, i as int)),
        decreases hi - i,
    {
        if !('0' <= v[i] && v[i] <= '9') {
            assert(v@.subrange(lo as int, hi as int)[i - lo] == v@[i as int]);
            return false;
        }
        assert forall|k: int| 0 <= k < i + 1 - lo implies is_ascii_digit(
            #[trigger] v@.subrange(lo as int, i + 1)[k],
        ) by {
            if k < i - lo {
                assert(v@.subrange(lo as int, i + 1)[k] == v@.subrange(lo as int, i as int)[k]);
            }
        }
        i += 1;
    }
    true
}

/// The value of the digits `v[lo..hi]`, or `cap` when that is larger.
fn capped_digits_value(v: &Vec<char>, lo: usize, hi: usize, cap: u64) -> (r: u64)
    requires
        lo <= hi <= v.len(),
        all_digits(v@.subrange(lo as int, hi as int)),
    ensures
        r == capped(digits_value(v@.subrange(lo as int, hi as int)), cap as nat),
{
    let mut acc: u64 = 0;
    let mut i = lo;
    assert(v@.subrange(lo as int, lo as int) =~= Seq::<char>::empty());
    while i < hi
        invariant
            lo <= i <= hi <= v.len(),
            all_digits(v@.subrange(lo as int, hi as int)),
            acc == capped(digits_value(v@.subrange(lo as int, i as int)), cap as nat),
        decreases hi - i,
    {
        let ghost prefix = v@.subrange(lo as int, i as int);
        let ghost next = v@.subrange(lo as int, i + 1);
        assert(next.drop_last() =~= prefix);
        assert(next.last() == v@[i as int]);
        assert(v@.subrange(lo as int, hi as int)[i - lo] == v@[i as int]);
        let d = digit_of(v[i]);
        assert(digits_value(next) == digits_value(prefix) * 10 + d);
        proof {
            lemma_capped_step(digits_value(prefix), 10, d as nat, cap as nat);
        }
        let wide: u128 = (acc as u128) * 10 + (d as u128);
        if wide >= cap as u128 {
            acc = cap;
        } else {
            acc = wide as u64;
        }
        i += 1;
    }
    acc
}

/// The fraction digits `f` (those after the point) in milliseconds: the
/// first three digits, rounded up when the fourth is 5 or more.
pub open spec fn fraction_ms(f: Seq<char>) -> nat {
    digits_value((f + seq!['0', '0', '0']).take(3)) + if f.len() > 3 && f[3] >= '5' {
        1nat
    } else {
        0nat
    }
}

/// The milliseconds of `v[lo..hi]` read as fraction digits.
fn fraction_millis(v: &Vec<char>, lo: usize, hi: usize) -> (r: u64)
    requires
        lo <= hi <= v.len(),
        all_digits(v@.subrange(lo as int, hi as int)),
    ensures
        r == fraction_ms(v@.subrange(lo as int, hi as int)),
        r <= 1000,
{
    let ghost f = v@.subrange(lo as int, hi as int);
    let ghost padded = (f + seq!['0', '0', '0']).take(3);
    let n = hi - lo;
    let d0: u64 = if n > 0 {
        assert(f[0] == v@[lo as int]);
        digit_of(v[lo])
    } else {
        0
    };
    let d1: u64 = if n > 1 {
        assert(f[1] == v@[lo + 1]);
        digit_of(v[lo + 1])
    } else {
        0
    };
    let d2: u64 = if n > 2 {
        assert(f[2] == v@[lo + 2]);
        digit_of(v[lo + 2])
    } else {
        0
    };
    let up: u64 = if n > 3 && v[lo + 3] >= '5' {
        assert(f[3] == v@[lo + 3]);
        1
    } else {
        if n > 3 {
            assert(f[3] == v@[lo + 3]);
        }
        0
    };
    proof {
        assert(padded.len() == 3);
        assert(padded[0] == if n > 0 { f[0] } else { '0' });
        assert(padded[1] == if n > 1 { f[1] } else { '0' });
        assert(padded[2] == if n > 2 { f[2] } else { '0' });
        let p1 = padded.drop_last().drop_last();
        let p2 = padded.drop_last();
        assert(p1.drop_last() =~= Seq::<char>::empty());
        assert(digits_value(p1.drop_last()) == 0);
        assert(p1.last() == padded[0]);
        assert(digits_value(p1) == d0);
        assert(p2.drop_last() =~= p1);
        assert(p2.last() == padded[1]);
        assert(digits_value(p2) == d0 * 10 + d1);
        assert(padded.drop_last() =~= p2);
        assert(digits_value(padded) == (d0 * 10 + d1) * 10 + d2);
    }
    d0 * 100 + d1 * 10 + d2 + up
}


/// A whole-number field: one or more decimal digits.
pub open spec fn whole_field(s: Seq<char>) -> Option<nat> {
    if s.len() > 0 && all_digits(s) {
        Some(digits_value(s))
    } else {
        None
    }
}

/// The milliseconds that a seconds field writes: whole seconds, then
/// optionally a point and fraction digits, with at least one digit in all.
pub open spec fn seconds_field_ms(s: Seq<char>) -> Option<nat> {
    match first_index_of(s, '.') {
        None => if s.len() > 0 && all_digits(s) {
            Some(digits_value(s) * 1000)
        } else {
            None
        },
        Some(p) => {
            let whole = s.take(p);
            let frac = s.skip(p + 1);
            if all_digits(whole) && all_digits(frac) && whole.len() + frac.len() > 0 {
                Some(digits_value(whole) * 1000 + fraction_ms(frac))
            } else {
                None
            }
        },
    }
}

/// `s` with each comma read as a decimal point.
pub open spec fn comma_as_point(s: Seq<char>) -> Seq<char> {
    s.map_values(|c: char| if c == ',' { '.' } else { c })
}

/// The time that the content of a timestamp tag gives, in milliseconds,
/// saturated at `MAX_TIME_MS`: `minutes:seconds` or `hours:minutes:seconds`.
pub open spec fn lrc_timestamp_ms(tag: Seq<char>) -> Option<nat> {
    let parts = split_pieces(comma_as_point(trim_seq(tag)), ':');
    if parts.len() == 2 {
        match (whole_field(parts[0]), seconds_field_ms(parts[1])) {
            (Some(m), Some(sec)) => Some(capped(m * 60000 + sec, MAX_TIME_MS as nat)),
            _ => None,
        }
    } else if parts.len() == 3 {
        match (whole_field(parts[0]), whole_field(parts[1]), seconds_field_ms(parts[2])) {
            (Some(h), Some(m), Some(sec)) => Some(
                capped(h * 3600000 + m * 60000 + sec, MAX_TIME_MS as nat),
            ),
            _ => None,
        }
    } else {
        None
    }
}

/// The whole-number field `s`, saturated at `MAX_TIME_MS`.
fn whole_field_value(s: &str) -> (r: Option<u64>)
    ensures
        match whole_field(s@) {
            Some(n) => r is Some && r->0 == capped(n, MAX_TIME_MS as nat),
            None => r is None,
        },
{
    let v = chars_of(s);
    assert(v@.subrange(0, v@.len() as int) =~= v@);
    if v.len() > 0 && digits_in(&v, 0, v.len()) {
        Some(capped_digits_value(&v, 0, v.len(), MAX_TIME_MS))
    } else {
        None
    }
}

/// The seconds field `s` in milliseconds, saturated at `MAX_TIME_MS`.
fn seconds_field_value(s: &str) -> (r: Option<u64>)
    ensures
        match seconds_field_ms(s@) {
            Some(n) => r is Some && r->0 == capped(n, MAX_TIME_MS as nat),
            None => r is None,
        },
{
    let v = chars_of(s);
    let n = v.len();
    assert(v@.subrange(0, n as int) =~= v@);
    match crate::text::find_char(&v, '.') {
        None => {
            if n > 0 && digits_in(&v, 0, n) {
                let w = capped_digits_value(&v, 0, n, MAX_TIME_MS);
                proof {
                    lemma_capped_step(digits_value(v@), 1000, 0, MAX_TIME_MS as nat);
                }
                let total: u128 = (w as u128) * 1000;
                if total >= MAX_TIME_MS as u128 {
                    Some(MAX_TIME_MS)
                } else {
                    Some(total as u64)
                }
            } else {
                None
            }
        },
        Some(p) => {
            assert(v@.take(p as int) =~= v@.subrange(0, p as int));
            assert(v@.skip(p + 1) =~= v@.subrange(p + 1, n as int));
            if digits_in(&v, 0, p) && digits_in(&v, p + 1, n) && p + (n - p - 1) > 0 {
                let w = capped_digits_value(&v, 0, p, MAX_TIME_MS);
                let f = fraction_millis(&v, p + 1, n);
                proof {
                    lemma_capped_step(
                        digits_value(v@.take(p as int)),
                        1000,
                        f as nat,
                        MAX_TIME_MS as nat,
                    );
                }
                let total: u128 = (w as u128) * 1000 + (f as u128);
                if total >= MAX_TIME_MS as u128 {
                    Some(MAX_TIME_MS)
                } else {
                    Some(total as u64)
                }
            } else {
                None
            }
        },
    }
}

/// `v` with each comma read as a decimal point.
fn commas_to_points(v: &Vec<char>) -> (r: Vec<char>)
    ensures
        r@ == comma_as_point(v@),
{
    let mut out: Vec<char> = Vec::new();
    let mut i: usize = 0;
    while i < v.len()
        invariant
            i <= v.len(),
            out@ == comma_as_point(v@.take(i as int)),
        decreases v.len() - i,
    {
        if v[i] == ',' {
            out.push('.');
        } else {
            out.push(v[i]);
        }
        assert(comma_as_point(v@.take(i + 1)) =~= comma_as_point(v@.take(i as int)).push(
            if v@[i as int] == ',' {
                '.'
            } else {
                v@[i as int]
            },
        ));
        i += 1;
    }
    assert(v@.take(v@.len() as int) =~= v@);
    out
}

/// The time that the content of a timestamp tag gives, in milliseconds
/// (see `lrc_timestamp_ms`); `None` when it is no timestamp.
pub fn parse_lrc_timestamp(value: &str) -> (r: Option<u64>)
    ensures
        match lrc_timestamp_ms(value@) {
            Some(n) => r is Some && r->0 == n,
            None => r is None,
        },
{
    let t = trim(value);
    let v = commas_to_points(&chars_of(t.as_str()));
    let parts = split_chars(&v, ':');
    let ghost pieces = split_pieces(comma_as_point(trim_seq(value@)), ':');
    assert(crate::text::texts(parts@) == pieces);
    if parts.len() == 2 {
        assert(parts@[0]@ == pieces[0]);
        assert(parts@[1]@ == pieces[1]);
        let m = whole_field_value(parts[0].as_str());
        let sec = seconds_field_value(parts[1].as_str());
        match (m, sec) {
            (Some(m), Some(sec)) => {
                proof {
                    let mm = whole_field(pieces[0])->0;
                    let ss = seconds_field_ms(pieces[1])->0;
                    lemma_capped_step(ss, 1, (m * 60000) as nat, MAX_TIME_MS as nat);
                    lemma_capped_step(mm, 60000, ss, MAX_TIME_MS as nat);
                }
                let total: u128 = (m as u128) * 60000 + (sec as u128);
                if total >= MAX_TIME_MS as u128 {
                    Some(MAX_TIME_MS)
                } else {
                    Some(total as u64)
                }
            },
            _ => None,
        }
    } else if parts.len() == 3 {
        assert(parts@[0]@ == pieces[0]);
        assert(parts@[1]@ == pieces[1]);
        assert(parts@[2]@ == pieces[2]);
        let h = whole_field_value(parts[0].as_str());
        let m = whole_field_value(parts[1].as_str());
        let sec = seconds_field_value(parts[2].as_str());
        match (h, m, sec) {
            (Some(h), Some(m), Some(sec)) => {
                proof {
                    let hh = whole_field(pieces[0])->0;
                    let mm = whole_field(pieces[1])->0;
                    let ss = seconds_field_ms(pieces[2])->0;
                    lemma_capped_step(ss, 1, (h * 3600000 + m * 60000) as nat, MAX_TIME_MS as nat);
                    lemma_capped_step(mm, 60000, (h * 3600000 + ss) as nat, MAX_TIME_MS as nat);
                    lemma_capped_step(hh, 3600000, (mm * 60000 + ss) as nat, MAX_TIME_MS as nat);
                }
                let total: u128 = (h as u128) * 3600000 + (m as u128) * 60000 + (sec as u128);
                if total >= MAX_TIME_MS as u128 {
                    Some(MAX_TIME_MS)
                } else {
                    Some(total as u64)
                }
            },
            _ => None,
        }
    } else {
        None
    }
}


/// The number that `s` writes as `i64` parsing reads it: an optional sign,
/// then one or more decimal digits; `None` outside the range of `i64`.
pub open spec fn parsed_i64(s: Seq<char>) -> Option<int> {
    let signed = s.len() > 0 && (s[0] == '+' || s[0] == '-');
    let digits = if signed {
        s.drop_first()
    } else {
        s
    };
    if digits.len() > 0 && all_digits(digits) {
        let n = if signed && s[0] == '-' {
            -(digits_value(digits) as int)
        } else {
            digits_value(digits) as int
        };
        if i64::MIN <= n && n <= i64::MAX {
            Some(n)
        } else {
            None
        }
    } else {
        None
    }
}

/// `s` read as an `i64` (see `parsed_i64`).
pub fn parse_i64(s: &str) -> (r: Option<i64>)
    ensures
        match parsed_i64(s@) {
            Some(n) => r is Some && r->0 == n,
            None => r is None,
        },
{
    let v = chars_of(s);
    let n = v.len();
    let signed = n > 0 && (v[0] == '+' || v[0] == '-');
    let start: usize = if signed {
        1
    } else {
        0
    };
    assert(v@.subrange(start as int, n as int) =~= (if signed {
        v@.drop_first()
    } else {
        v@
    }));
    if start < n && digits_in(&v, start, n) {
        let mag = capped_digits_value(&v, start, n, 9223372036854775809u64);
        if signed && v[0] == '-' {
            if mag == 9223372036854775808u64 {
                Some(i64::MIN)
            } else if mag < 9223372036854775808u64 {
                Some(-(mag as i64))
            } else {
                None
            }
        } else {
            if mag <= 9223372036854775807u64 {
                Some(mag as i64)
            } else {
                None
            }
        }
    } else {
        None
    }
}

/// The metadata that LRC tags set.
pub struct LrcMetadata {
    pub title: String,
    pub artist: String,
    pub album: String,
    pub by: String,
    pub language: String,
    pub offset_ms: i64,
}

/// The text of `LrcMetadata`.
pub struct LrcMetadataView {
    pub title: Seq<char>,
    pub artist: Seq<char>,
    pub album: Seq<char>,
    pub by: Seq<char>,
    pub language: Seq<char>,
    pub offset_ms: int,
}

impl View for LrcMetadata {
    type V = LrcMetadataView;

    open spec fn view(&self) -> LrcMetadataView {
        LrcMetadataView {
            title: self.title@,
            artist: self.artist@,
            album: self.album@,
            by: self.by@,
            language: self.language@,
            offset_ms: self.offset_ms as int,
        }
    }
}

impl LrcMetadata {
    /// No metadata: empty texts and no offset.
    pub fn new() -> (r: LrcMetadata)
        ensures
            r@ == empty_metadata(),
    {
        LrcMetadata {
            title: String::new(),
            artist: String::new(),
            album: String::new(),
            by: String::new(),
            language: String::new(),
            offset_ms: 0,
        }
    }
}

/// No metadata: empty texts and no offset.
pub open spec fn empty_metadata() -> LrcMetadataView {
    LrcMetadataView {
        title: seq![],
        artist: seq![],
        album: seq![],
        by: seq![],
        language: seq![],
        offset_ms: 0,
    }
}

/// What the metadata tag with content `tag` makes of `m`; `None` when it
/// is no metadata tag. The key before the first colon is read trimmed and
/// in any ASCII case; the value after it is trimmed. `ti`, `ar`, `al`,
/// `by` and `lang` (or `la`) set a text, `offset` sets the offset (0 when
/// it is no `i64`), and `re`, `ve`, `tool` and `length` are known and
/// change nothing.
pub open spec fn applied_metadata_tag(m: LrcMetadataView, tag: Seq<char>) -> Option<LrcMetadataView> {
    match first_index_of(tag, ':') {
        None => None,
        Some(i) => {
            let key = lower_seq(trim_seq(tag.take(i)));
            let value = trim_seq(tag.skip(i + 1));
            if key == "ti"@ {
                Some(LrcMetadataView { title: value, ..m })
            } else if key == "ar"@ {
                Some(LrcMetadataView { artist: value, ..m })
            } else if key == "al"@ {
                Some(LrcMetadataView { album: value, ..m })
            } else if key == "by"@ {
                Some(LrcMetadataView { by: value, ..m })
            } else if key == "lang"@ || key == "la"@ {
                Some(LrcMetadataView { language: value, ..m })
            } else if key == "offset"@ {
                Some(
                    LrcMetadataView {
                        offset_ms: match parsed_i64(value) {
                            Some(n) => n,
                            None => 0,
                        },
                        ..m
                    },
                )
            } else if key == "re"@ || key == "ve"@ || key == "tool"@ || key == "length"@ {
                Some(m)
            } else {
                None
            }
        },
    }
}

/// Applies the metadata tag with content `tag_content` to `meta`, and says
/// whether it was one (see `applied_metadata_tag`).
pub fn apply_lrc_metadata_tag(tag_content: &str, meta: &mut LrcMetadata) -> (r: bool)
    ensures
        match applied_metadata_tag(old(meta)@, tag_content@) {
            Some(m) => r && final(meta)@ == m,
            None => !r && final(meta)@ == old(meta)@,
        },
{
    let v = chars_of(tag_content);
    let i = match crate::text::find_char(&v, ':') {
        Some(i) => i,
        None => return false,
    };
    assert(v@.take(i as int) =~= v@.subrange(0, i as int));
    assert(v@.skip(i + 1) =~= v@.subrange(i + 1, v@.len() as int));
    let raw_key = string_from_range(&v, 0, i);
    let raw_value = string_from_range(&v, i + 1, v.len());
    let key = crate::text::to_ascii_lowercase(trim(raw_key.as_str()).as_str());
    let value = trim(raw_value.as_str());
    let k = key.as_str();
    if crate::text::str_eq(k, "ti") {
        meta.title = value;
    } else if crate::text::str_eq(k, "ar") {
        meta.artist = value;
    } else if crate::text::str_eq(k, "al") {
        meta.album = value;
    } else if crate::text::str_eq(k, "by") {
        meta.by = value;
    } else if crate::text::str_eq(k, "lang") || crate::text::str_eq(k, "la") {
        meta.language = value;
    } else if crate::text::str_eq(k, "offset") {
        meta.offset_ms = match parse_i64(value.as_str()) {
            Some(n) => n,
            None => 0,
        };
    } else if crate::text::str_eq(k, "re") || crate::text::str_eq(k, "ve") || crate::text::str_eq(
        k,
        "tool",
    ) || crate::text::str_eq(k, "length") {
    } else {
        return false;
    }
    true
}


/// A found character lies inside the text.
pub proof fn lemma_first_index_in_range(s: Seq<char>, c: char)
    ensures
        first_index_of(s, c) matches Some(i) ==> 0 <= i < s.len() && s[i] == c,
    decreases s.len(),
{
    if s.len() > 0 && s[0] != c {
        lemma_first_index_in_range(s.drop_first(), c);
    }
}

/// What reading the leading tags of a line gives: the times of its
/// timestamp tags in order, the text after its tags, whether a tag was
/// read, and the metadata after the metadata tags.
pub struct LrcLineScan {
    pub timestamps: Seq<nat>,
    pub text: Seq<char>,
    pub consumed_tag: bool,
    pub metadata: LrcMetadataView,
}

/// Reads leading `[..]` tags off `rest` while each is a timestamp or a
/// metadata tag; whitespace after a tag is skipped. Reading stops at the
/// first `[` without a `]`, at a tag that is neither, or at other text.
pub open spec fn scanned_tags(rest: Seq<char>, m: LrcMetadataView) -> LrcLineScan
    decreases rest.len(),
{
    let stop = LrcLineScan { timestamps: seq![], text: rest, consumed_tag: false, metadata: m };
    if rest.len() > 0 && rest[0] == '[' {
        let inner = rest.drop_first();
        match first_index_of(inner, ']') {
            None => stop,
            Some(c) => {
                proof {
                    lemma_first_index_in_range(inner, ']');
                    crate::text::lemma_trim_start_clean(inner.skip(c + 1));
                }
                let tag = trim_seq(inner.take(c));
                let after = crate::text::trim_start_seq(inner.skip(c + 1));
                match lrc_timestamp_ms(tag) {
                    Some(t) => {
                        let next = scanned_tags(after, m);
                        LrcLineScan {
                            timestamps: seq![t] + next.timestamps,
                            consumed_tag: true,
                            ..next
                        }
                    },
                    None => match applied_metadata_tag(m, tag) {
                        Some(m2) => {
                            let next = scanned_tags(after, m2);
                            LrcLineScan { consumed_tag: true, ..next }
                        },
                        None => stop,
                    },
                }
            },
        }
    } else {
        stop
    }
}

/// One LRC line read: its timestamps, its text, and whether a tag was read.
pub struct ParsedLrcLine {
    pub timestamps: Vec<u64>,
    pub text: String,
    pub consumed_tag: bool,
}

/// The times of a list of timestamps.
pub open spec fn time_values(times: Seq<u64>) -> Seq<nat> {
    times.map_values(|t: u64| t as nat)
}

/// Index of the first `c` in `v` at or after `from`.
fn find_char_from(v: &Vec<char>, from: usize, c: char) -> (r: Option<usize>)
    requires
        from <= v.len(),
    ensures
        match first_index_of(v@.skip(from as int), c) {
            Some(i) => r == Some((from + i) as usize),
            None => r is None,
        },
{
    let mut i = from;
    while i < v.len()
        invariant
            from <= i <= v.len(),
            forall|k: int| from <= k < i ==> v@[k] != c,
        decreases v.len() - i,
    {
        if v[i] == c {
            proof {
                assert forall|k: int| 0 <= k < i - from implies v@.skip(from as int)[k] != c by {
                    assert(v@.skip(from as int)[k] == v@[from + k]);
                }
                crate::text::lemma_first_index_of(v@.skip(from as int), c, i - from);
            }
            return Some(i);
        }
        i += 1;
    }
    proof {
        assert forall|k: int| 0 <= k < v@.skip(from as int).len() implies v@.skip(from as int)[k]
            != c by {
            assert(v@.skip(from as int)[k] == v@[from + k]);
        }
        crate::text::lemma_first_index_none(v@.skip(from as int), c);
    }
    None
}

/// The first index at or after `from` where `v` has no whitespace.
fn skip_whitespace_from(v: &Vec<char>, from: usize) -> (j: usize)
    requires
        from <= v.len(),
    ensures
        from <= j <= v.len(),
        v@.skip(j as int) == crate::text::trim_start_seq(v@.skip(from as int)),
{
    let mut j = from;
    while j < v.len() && crate::text::char_is_ws(v[j])
        invariant
            from <= j <= v.len(),
            crate::text::trim_start_seq(v@.skip(from as int)) == crate::text::trim_start_seq(
                v@.skip(j as int),
            ),
        decreases v.len() - j,
    {
        assert(v@.skip(j as int).drop_first() =~= v@.skip(j + 1));
        assert(v@.skip(j as int)[0] == v@[j as int]);
        j += 1;
    }
    if j < v.len() {
        assert(v@.skip(j as int)[0] == v@[j as int]);
    }
    j
}

/// Reads the leading tags of one LRC line (trimmed first) into its
/// timestamps and text; metadata tags update `meta` (see `scanned_tags`).
pub fn parse_lrc_line(line: &str, meta: &mut LrcMetadata) -> (r: ParsedLrcLine)
    ensures
        time_values(r.timestamps@) == scanned_tags(trim_seq(line@), old(meta)@).timestamps,
        r.text@ == scanned_tags(trim_seq(line@), old(meta)@).text,
        r.consumed_tag == scanned_tags(trim_seq(line@), old(meta)@).consumed_tag,
        final(meta)@ == scanned_tags(trim_seq(line@), old(meta)@).metadata,
{
    let t = trim(line);
    let v = chars_of(t.as_str());
    let ghost total = scanned_tags(v@, meta@);
    let mut pos: usize = 0;
    let mut stamps: Vec<u64> = Vec::new();
    let mut consumed = false;
    let mut scanning = true;
    assert(v@.skip(0) =~= v@);
    assert(time_values(stamps@) + total.timestamps =~= total.timestamps);
    while scanning
        invariant
            pos <= v.len(),
            total.timestamps == time_values(stamps@) + scanned_tags(
                v@.skip(pos as int),
                meta@,
            ).timestamps,
            total.text == scanned_tags(v@.skip(pos as int), meta@).text,
            total.metadata == scanned_tags(v@.skip(pos as int), meta@).metadata,
            total.consumed_tag == (consumed || scanned_tags(
                v@.skip(pos as int),
                meta@,
            ).consumed_tag),
            !scanning ==> scanned_tags(v@.skip(pos as int), meta@) == (LrcLineScan {
                timestamps: seq![],
                text: v@.skip(pos as int),
                consumed_tag: false,
                metadata: meta@,
            }),
        decreases (v.len() - pos) * 2 + if scanning {
            1int
        } else {
            0int
        },
    {
        let ghost rest = v@.skip(pos as int);
        let ghost m = meta@;
        if pos < v.len() && v[pos] == '[' {
            assert(rest[0] == v@[pos as int]);
            let ghost inner = rest.drop_first();
            assert(inner =~= v@.skip(pos + 1));
            match find_char_from(&v, pos + 1, ']') {
                None => {
                    scanning = false;
                },
                Some(c) => {
                    proof {
                        lemma_first_index_in_range(inner, ']');
                    }
                    let ghost ci = (c - pos - 1) as int;
                    assert(inner.take(ci) =~= v@.subrange(pos + 1, c as int));
                    assert(inner.skip(ci + 1) =~= v@.skip(c + 1));
                    let tag = trim(string_from_range(&v, pos + 1, c).as_str());
                    match parse_lrc_timestamp(tag.as_str()) {
                        Some(ts) => {
                            let ghost before = stamps@;
                            stamps.push(ts);
                            consumed = true;
                            let next = skip_whitespace_from(&v, c + 1);
                            assert(time_values(stamps@) =~= time_values(before).push(ts as nat));
                            assert(time_values(before) + (seq![ts as nat] + scanned_tags(
                                v@.skip(next as int),
                                m,
                            ).timestamps) =~= time_values(stamps@) + scanned_tags(
                                v@.skip(next as int),
                                m,
                            ).timestamps);
                            pos = next;
                        },
                        None => {
                            if apply_lrc_metadata_tag(tag.as_str(), meta) {
                                consumed = true;
                                let next = skip_whitespace_from(&v, c + 1);
                                pos = next;
                            } else {
                                scanning = false;
                            }
                        },
                    }
                },
            }
        } else {
            scanning = false;
        }
    }
    let text = string_from_range(&v, pos, v.len());
    assert(v@.skip(pos as int) =~= v@.subrange(pos as int, v@.len() as int));
    assert(time_values(stamps@) + Seq::<nat>::empty() =~= time_values(stamps@));
    ParsedLrcLine { timestamps: stamps, text, consumed_tag: consumed }
}


/// A timed lyric line: when it starts, in milliseconds, and its text.
pub struct TimedLyricEntry {
    pub start_ms: u64,
    pub text: String,
}

/// The times and texts of timed lyric lines.
pub open spec fn timed_view(entries: Seq<TimedLyricEntry>) -> Seq<(nat, Seq<char>)> {
    entries.map_values(|e: TimedLyricEntry| (e.start_ms as nat, e.text@))
}

/// A lyric text read line by line: its metadata, its timed lines in the
/// order they were read, and the lines it shows.
pub struct ParsedLyricsText {
    pub title: String,
    pub artist: String,
    pub album: String,
    pub by: String,
    pub language: String,
    pub offset_ms: i64,
    pub timed_entries: Vec<TimedLyricEntry>,
    pub display_lines: Vec<String>,
}

/// The model of a read lyric text.
pub struct LyricsParseView {
    pub metadata: LrcMetadataView,
    pub timed: Seq<(nat, Seq<char>)>,
    pub display: Seq<Seq<char>>,
}

impl View for ParsedLyricsText {
    type V = LyricsParseView;

    open spec fn view(&self) -> LyricsParseView {
        LyricsParseView {
            metadata: LrcMetadataView {
                title: self.title@,
                artist: self.artist@,
                album: self.album@,
                by: self.by@,
                language: self.language@,
                offset_ms: self.offset_ms as int,
            },
            timed: timed_view(self.timed_entries@),
            display: crate::text::texts(self.display_lines@),
        }
    }
}

/// What reading one more line does. Trailing NUL characters are dropped
/// first. A line with timestamps adds one timed entry per timestamp and
/// one shown line, all with its text normalized; a line of tags and
/// nothing else adds nothing; any other line is shown as it is,
/// normalized. Metadata tags count in every case.
pub open spec fn parse_step(state: LyricsParseView, raw_line: Seq<char>) -> LyricsParseView {
    let line = strip_trailing(raw_line, '\0');
    let scan = scanned_tags(trim_seq(line), state.metadata);
    if scan.timestamps.len() > 0 {
        let text = normalized_lyric_text(scan.text);
        LyricsParseView {
            metadata: scan.metadata,
            timed: state.timed + scan.timestamps.map_values(|t: nat| (t, text)),
            display: state.display.push(text),
        }
    } else if scan.consumed_tag && trim_seq(scan.text).len() == 0 {
        LyricsParseView { metadata: scan.metadata, ..state }
    } else {
        LyricsParseView {
            metadata: scan.metadata,
            display: state.display.push(normalized_lyric_text(line)),
            ..state
        }
    }
}

/// Reading the lines in order, from no metadata and no lines.
pub open spec fn parse_lines(lines: Seq<Seq<char>>) -> LyricsParseView
    decreases lines.len(),
{
    if lines.len() == 0 {
        LyricsParseView { metadata: empty_metadata(), timed: seq![], display: seq![] }
    } else {
        parse_step(parse_lines(lines.drop_last()), lines.last())
    }
}

/// A lyric text read: normalized as a whole, then read line by line.
pub open spec fn parsed_lyrics(raw: Seq<char>) -> LyricsParseView {
    parse_lines(text_lines(normalized_lyric_text(raw)))
}

/// Reads a lyric text in the LRC format (see `parsed_lyrics`).
pub fn parse_lyrics_text(raw_text: &str) -> (r: ParsedLyricsText)
    ensures
        r@ == parsed_lyrics(raw_text@),
{
    let normalized = normalize_lyric_line_text(raw_text);
    let lines = split_text_lines(normalized.as_str());
    let ghost all = crate::text::texts(lines@);
    let mut meta = LrcMetadata::new();
    let mut timed: Vec<TimedLyricEntry> = Vec::new();
    let mut display: Vec<String> = Vec::new();
    let mut i: usize = 0;
    assert(all.take(0) =~= Seq::<Seq<char>>::empty());
    assert(timed_view(timed@) =~= Seq::<(nat, Seq<char>)>::empty());
    assert(crate::text::texts(display@) =~= Seq::<Seq<char>>::empty());
    while i < lines.len()
        invariant
            i <= lines@.len(),
            all == crate::text::texts(lines@),
            parse_lines(all.take(i as int)) == (LyricsParseView {
                metadata: meta@,
                timed: timed_view(timed@),
                display: crate::text::texts(display@),
            }),
        decreases lines@.len() - i,
    {
        let ghost state = LyricsParseView {
            metadata: meta@,
            timed: timed_view(timed@),
            display: crate::text::texts(display@),
        };
        assert(all.take(i + 1).drop_last() =~= all.take(i as int));
        assert(all.take(i + 1).last() == lines@[i as int]@);
        let line = trim_end_matches(lines[i].as_str(), '\0');
        let scan = parse_lrc_line(line.as_str(), &mut meta);
        if scan.timestamps.len() > 0 {
            let text = normalize_lyric_line_text(scan.text.as_str());
            let ghost before = timed_view(timed@);
            let ghost stamps = time_values(scan.timestamps@);
            let mut j: usize = 0;
            assert(stamps.take(0).map_values(|t: nat| (t, text@)) =~= Seq::<(nat, Seq<char>)>::empty());
            assert(before + Seq::<(nat, Seq<char>)>::empty() =~= before);
            while j < scan.timestamps.len()
                invariant
                    j <= scan.timestamps@.len(),
                    stamps == time_values(scan.timestamps@),
                    timed_view(timed@) == before + stamps.take(j as int).map_values(
                        |t: nat| (t, text@),
                    ),
                decreases scan.timestamps@.len() - j,
            {
                let ghost prior = timed@;
                timed.push(TimedLyricEntry { start_ms: scan.timestamps[j], text: text.clone() });
                assert(timed_view(timed@) =~= timed_view(prior).push(
                    (scan.timestamps@[j as int] as nat, text@),
                ));
                assert(stamps.take(j + 1).map_values(|t: nat| (t, text@)) =~= stamps.take(
                    j as int,
                ).map_values(|t: nat| (t, text@)).push((stamps[j as int], text@)));
                j += 1;
            }
            assert(stamps.take(stamps.len() as int) =~= stamps);
            let ghost shown = display@;
            display.push(text);
            assert(crate::text::texts(display@) =~= crate::text::texts(shown).push(text@));
        } else if scan.consumed_tag && trim(scan.text.as_str()).as_str().is_empty() {
        } else {
            let ghost shown = display@;
            display.push(normalize_lyric_line_text(line.as_str()));
            assert(crate::text::texts(display@) =~= crate::text::texts(shown).push(
                normalized_lyric_text(line@),
            ));
        }
        i += 1;
    }
    assert(all.take(lines@.len() as int) =~= all);
    ParsedLyricsText {
        title: meta.title,
        artist: meta.artist,
        album: meta.album,
        by: meta.by,
        language: meta.language,
        offset_ms: meta.offset_ms,
        timed_entries: timed,
        display_lines: display,
    }
}


/// How many of `order` have a start no later than `s`.
pub open spec fn count_no_later(order: Seq<usize>, starts: Seq<nat>, s: nat) -> nat
    decreases order.len(),
{
    if order.len() == 0 {
        0
    } else {
        count_no_later(order.drop_last(), starts, s) + if starts[order.last() as int] <= s {
            1nat
        } else {
            0nat
        }
    }
}

/// The indices of `starts` ordered by start, earlier indices first among
/// equal starts: each index goes after every earlier index whose start is
/// no later than its own.
pub open spec fn start_order(starts: Seq<nat>) -> Seq<usize>
    decreases starts.len(),
{
    if starts.len() == 0 {
        seq![]
    } else {
        let prev = start_order(starts.drop_last());
        prev.insert(
            count_no_later(prev, starts, starts.last()) as int,
            (starts.len() - 1) as usize,
        )
    }
}

/// `count_no_later` never exceeds the length.
proof fn lemma_count_no_later_bound(order: Seq<usize>, starts: Seq<nat>, s: nat)
    ensures
        count_no_later(order, starts, s) <= order.len(),
    decreases order.len(),
{
    if order.len() > 0 {
        lemma_count_no_later_bound(order.drop_last(), starts, s);
    }
}

/// `start_order` has one index per start, each an index of `starts`.
proof fn lemma_start_order_len(starts: Seq<nat>)
    ensures
        start_order(starts).len() == starts.len(),
        forall|j: int| 0 <= j < starts.len() ==> start_order(starts)[j] < starts.len(),
    decreases starts.len(),
{
    if starts.len() > 0 {
        let prev = start_order(starts.drop_last());
        lemma_start_order_len(starts.drop_last());
        lemma_count_no_later_bound(prev, starts, starts.last());
        let at = count_no_later(prev, starts, starts.last()) as int;
        assert forall|j: int| 0 <= j < starts.len() implies start_order(starts)[j] < starts.len() by {
            if j < at {
                assert(start_order(starts)[j] == prev[j]);
            } else if j > at {
                assert(start_order(starts)[j] == prev[j - 1]);
            }
        }
    }
}

/// The indices of `starts` ordered by start, stably (see `start_order`).
fn order_by_start(starts: &Vec<u64>) -> (r: Vec<usize>)
    ensures
        r@ == start_order(time_values(starts@)),
{
    let ghost sv = time_values(starts@);
    let mut order: Vec<usize> = Vec::new();
    let mut i: usize = 0;
    assert(sv.take(0) =~= Seq::<nat>::empty());
    while i < starts.len()
        invariant
            i <= starts@.len(),
            sv == time_values(starts@),
            order@ == start_order(sv.take(i as int)),
        decreases starts@.len() - i,
    {
        let ghost prefix = sv.take(i + 1);
        assert(prefix.drop_last() =~= sv.take(i as int));
        proof {
            lemma_start_order_len(sv.take(i as int));
        }
        let s = starts[i];
        let mut at: usize = 0;
        let mut k: usize = 0;
        assert(order@.take(0) =~= Seq::<usize>::empty());
        while k < order.len()
            invariant
                k <= order@.len() == i,
                i < starts@.len(),
                prefix == sv.take(i + 1),
                sv == time_values(starts@),
                forall|j: int| 0 <= j < order@.len() ==> order@[j] < i,
                at == count_no_later(order@.take(k as int), prefix, s as nat),
                at <= k,
            decreases order@.len() - k,
        {
            assert(order@.take(k + 1).drop_last() =~= order@.take(k as int));
            assert(prefix[order@[k as int] as int] == starts@[order@[k as int] as int] as nat);
            if starts[order[k]] <= s {
                at += 1;
            }
            k += 1;
        }
        assert(order@.take(order@.len() as int) =~= order@);
        proof {
            lemma_count_no_later_bound(order@, prefix, s as nat);
        }
        order.insert(at, i);
        i += 1;
    }
    assert(sv.take(starts@.len() as int) =~= sv);
    order
}


/// How far apart, in milliseconds, two timed lines may start and still be
/// shown as one line with its translation.
pub const BILINGUAL_TOLERANCE_MS: u64 = 80;

/// A time moved by `offset`, kept within `0..=MAX_TIME_MS`.
pub open spec fn shifted_ms(t: nat, offset: int) -> nat {
    if t + offset < 0 {
        0
    } else if t + offset > MAX_TIME_MS {
        MAX_TIME_MS as nat
    } else {
        (t + offset) as nat
    }
}

/// Whether two times lie within the tolerance of each other.
pub open spec fn within_tolerance(a: nat, b: nat) -> bool {
    a <= b + BILINGUAL_TOLERANCE_MS && b <= a + BILINGUAL_TOLERANCE_MS
}

/// The first position of each group of timed lines: a line joins the group
/// before it when it starts within the tolerance of that group's first
/// line, and opens a new group otherwise.
pub open spec fn group_heads(times: Seq<nat>) -> Seq<int>
    decreases times.len(),
{
    if times.len() == 0 {
        seq![]
    } else {
        let heads = group_heads(times.drop_last());
        if heads.len() > 0 && within_tolerance(times.last(), times[heads.last()]) {
            heads
        } else {
            heads.push(times.len() - 1)
        }
    }
}

/// Where group `g` ends: where the next one begins, or at the end.
pub open spec fn group_end(heads: Seq<int>, g: int, n: int) -> int {
    if g + 1 < heads.len() {
        heads[g + 1]
    } else {
        n
    }
}

/// The first of `texts[k..hi]` with more than whitespace, else `default`.
pub open spec fn first_shown_from(texts: Seq<Seq<char>>, k: int, hi: int, default: int) -> int
    decreases hi - k,
{
    if k >= hi {
        default
    } else if trim_seq(texts[k]).len() > 0 {
        k
    } else {
        first_shown_from(texts, k + 1, hi, default)
    }
}

/// The texts normalized, each once, in order, without the empty ones.
pub open spec fn unique_shown_texts(items: Seq<Seq<char>>) -> Seq<Seq<char>>
    decreases items.len(),
{
    if items.len() == 0 {
        seq![]
    } else {
        let before = unique_shown_texts(items.drop_last());
        let t = normalized_lyric_text(items.last());
        if t.len() == 0 || before.contains(t) {
            before
        } else {
            before.push(t)
        }
    }
}

/// A lyric line as it is shown, in milliseconds.
pub struct LyricsLineView {
    pub index: nat,
    pub text: Seq<char>,
    pub start_ms: Option<nat>,
    pub end_ms: Option<nat>,
    pub translated: Seq<char>,
    pub roman: Seq<char>,
}

/// The line that group `g` shows: the first of its lines with more than
/// whitespace (else its first line) with that line's time.
pub open spec fn group_primary(texts: Seq<Seq<char>>, heads: Seq<int>, g: int) -> int {
    first_shown_from(texts, heads[g], group_end(heads, g, texts.len() as int), heads[g])
}

/// The shown lines of timed lines already in order, with their texts and
/// (shifted) times: one line per group, its other lines' texts joined as
/// its translation, and each line ending where the next one starts, when
/// that is no earlier.
pub open spec fn grouped_lines(texts: Seq<Seq<char>>, times: Seq<nat>) -> Seq<LyricsLineView> {
    let heads = group_heads(times);
    Seq::new(
        heads.len(),
        |g: int|
            {
                let p = group_primary(texts, heads, g);
                let lo = heads[g];
                let hi = group_end(heads, g, texts.len() as int);
                LyricsLineView {
                    index: g as nat,
                    text: texts[p],
                    start_ms: Some(times[p]),
                    end_ms: if g + 1 < heads.len() && times[group_primary(texts, heads, g + 1)]
                        >= times[p] {
                        Some(times[group_primary(texts, heads, g + 1)])
                    } else {
                        None
                    },
                    translated: crate::lyrics::joined_lines(
                        unique_shown_texts(texts.subrange(lo, hi).remove(p - lo)),
                    ),
                    roman: seq![],
                }
            },
    )
}

/// The starts of timed entries.
pub open spec fn entry_starts(entries: Seq<(nat, Seq<char>)>) -> Seq<nat> {
    entries.map_values(|e: (nat, Seq<char>)| e.0)
}

/// The shown lines of timed entries (start and text each): ordered by
/// start (stably), moved by the offset, then grouped (see
/// `grouped_lines`).
pub open spec fn synced_lines(entries: Seq<(nat, Seq<char>)>, offset: int) -> Seq<LyricsLineView> {
    let order = start_order(entry_starts(entries));
    grouped_lines(
        order.map_values(|k: usize| entries[k as int].1),
        order.map_values(|k: usize| shifted_ms(entries[k as int].0, offset)),
    )
}

/// The shape of `group_heads`: increasing positions, the first one 0.
proof fn lemma_group_heads_shape(times: Seq<nat>)
    ensures
        group_heads(times).len() <= times.len(),
        times.len() > 0 ==> group_heads(times).len() > 0 && group_heads(times)[0] == 0,
        forall|g: int| 0 <= g < group_heads(times).len() ==> 0 <= #[trigger] group_heads(times)[g] < times.len(),
        forall|a: int, b: int| 0 <= a < b < group_heads(times).len() ==> group_heads(times)[a] < group_heads(times)[b],
    decreases times.len(),
{
    if times.len() > 0 {
        lemma_group_heads_shape(times.drop_last());
    }
}


/// A lyric line as it is shown; times in milliseconds.
pub struct LyricsLine {
    pub index: usize,
    pub text: String,
    pub start_ms: Option<u64>,
    pub end_ms: Option<u64>,
    pub translated_lyric: String,
    pub roman_lyric: String,
}

/// A time, if any, as a number.
pub open spec fn opt_time(t: Option<u64>) -> Option<nat> {
    match t {
        Some(v) => Some(v as nat),
        None => None,
    }
}

impl View for LyricsLine {
    type V = LyricsLineView;

    open spec fn view(&self) -> LyricsLineView {
        LyricsLineView {
            index: self.index as nat,
            text: self.text@,
            start_ms: opt_time(self.start_ms),
            end_ms: opt_time(self.end_ms),
            translated: self.translated_lyric@,
            roman: self.roman_lyric@,
        }
    }
}

/// The views of a list of lines.
pub open spec fn lines_view(lines: Seq<LyricsLine>) -> Seq<LyricsLineView> {
    lines.map_values(|l: LyricsLine| l@)
}

/// The texts normalized, each once, in order, without the empty ones.
pub fn unique_non_empty_texts(items: &Vec<String>) -> (r: Vec<String>)
    ensures
        crate::text::texts(r@) == unique_shown_texts(crate::text::texts(items@)),
{
    let ghost all = crate::text::texts(items@);
    let mut out: Vec<String> = Vec::new();
    let mut i: usize = 0;
    assert(all.take(0) =~= Seq::<Seq<char>>::empty());
    assert(crate::text::texts(out@) =~= Seq::<Seq<char>>::empty());
    while i < items.len()
        invariant
            i <= items@.len(),
            all == crate::text::texts(items@),
            crate::text::texts(out@) == unique_shown_texts(all.take(i as int)),
        decreases items@.len() - i,
    {
        assert(all.take(i + 1).drop_last() =~= all.take(i as int));
        assert(all.take(i + 1).last() == items@[i as int]@);
        let t = normalize_lyric_line_text(items[i].as_str());
        if !t.as_str().is_empty() && !crate::text::contains_text(&out, t.as_str()) {
            let ghost before = out@;
            out.push(t);
            assert(crate::text::texts(out@) =~= crate::text::texts(before).push(
                normalized_lyric_text(items@[i as int]@),
            ));
        }
        i += 1;
    }
    assert(all.take(items@.len() as int) =~= all);
    out
}

/// `t` moved by `offset` within `0..=MAX_TIME_MS`.
fn shift_time(t: u64, offset: i64) -> (r: u64)
    ensures
        r == shifted_ms(t as nat, offset as int),
{
    let x: i128 = (t as i128) + (offset as i128);
    if x < 0 {
        0
    } else if x > MAX_TIME_MS as i128 {
        MAX_TIME_MS
    } else {
        x as u64
    }
}

/// The texts and shifted times of the entries, ordered by start.
fn ordered_entries(entries: &Vec<TimedLyricEntry>, offset: i64) -> (r: (Vec<String>, Vec<u64>))
    ensures
        crate::text::texts(r.0@) == start_order(entry_starts(timed_view(entries@))).map_values(
            |k: usize| timed_view(entries@)[k as int].1,
        ),
        time_values(r.1@) == start_order(entry_starts(timed_view(entries@))).map_values(
            |k: usize| shifted_ms(timed_view(entries@)[k as int].0, offset as int),
        ),
{
    let ghost ev = entry_starts(timed_view(entries@));
    let mut starts: Vec<u64> = Vec::new();
    let mut i: usize = 0;
    assert(time_values(starts@) =~= ev.take(0));
    while i < entries.len()
        invariant
            i <= entries@.len(),
            ev == entry_starts(timed_view(entries@)),
            time_values(starts@) == ev.take(i as int),
        decreases entries@.len() - i,
    {
        let ghost before = starts@;
        starts.push(entries[i].start_ms);
        assert(time_values(starts@) =~= time_values(before).push(entries@[i as int].start_ms as nat));
        assert(ev.take(i + 1) =~= ev.take(i as int).push(ev[i as int]));
        i += 1;
    }
    assert(ev.take(entries@.len() as int) =~= ev);
    let order = order_by_start(&starts);
    proof {
        lemma_start_order_len(time_values(starts@));
    }
    let ghost ts = order@.map_values(|k: usize| timed_view(entries@)[k as int].1);
    let ghost tm = order@.map_values(
        |k: usize| shifted_ms(timed_view(entries@)[k as int].0, offset as int),
    );
    let mut texts_out: Vec<String> = Vec::new();
    let mut times_out: Vec<u64> = Vec::new();
    let mut j: usize = 0;
    while j < order.len()
        invariant
            j <= order@.len() == entries@.len(),
            forall|k: int| 0 <= k < order@.len() ==> order@[k] < entries@.len(),
            ts == order@.map_values(|k: usize| timed_view(entries@)[k as int].1),
            tm == order@.map_values(
                |k: usize| shifted_ms(timed_view(entries@)[k as int].0, offset as int),
            ),
            crate::text::texts(texts_out@) == ts.take(j as int),
            time_values(times_out@) == tm.take(j as int),
        decreases order@.len() - j,
    {
        let k = order[j];
        let ghost t_before = texts_out@;
        let ghost m_before = times_out@;
        texts_out.push(entries[k].text.clone());
        times_out.push(shift_time(entries[k].start_ms, offset));
        assert(crate::text::texts(texts_out@) =~= crate::text::texts(t_before).push(
            entries@[k as int].text@,
        ));
        assert(ts.take(j + 1) =~= ts.take(j as int).push(ts[j as int]));
        assert(time_values(times_out@) =~= time_values(m_before).push(
            shifted_ms(entries@[k as int].start_ms as nat, offset as int),
        ));
        assert(tm.take(j + 1) =~= tm.take(j as int).push(tm[j as int]));
        j += 1;
    }
    assert(ts.take(order@.len() as int) =~= ts);
    assert(tm.take(order@.len() as int) =~= tm);
    (texts_out, times_out)
}

/// The positions of a list of group heads.
pub open spec fn positions(heads: Seq<usize>) -> Seq<int> {
    heads.map_values(|h: usize| h as int)
}

/// The first position of each group (see `group_heads`).
fn group_heads_of(times: &Vec<u64>) -> (r: Vec<usize>)
    ensures
        positions(r@) == group_heads(time_values(times@)),
{
    let ghost tv = time_values(times@);
    let mut heads: Vec<usize> = Vec::new();
    let mut i: usize = 0;
    assert(tv.take(0) =~= Seq::<nat>::empty());
    assert(positions(heads@) =~= Seq::<int>::empty());
    while i < times.len()
        invariant
            i <= times@.len(),
            tv == time_values(times@),
            positions(heads@) == group_heads(tv.take(i as int)),
        decreases times@.len() - i,
    {
        let ghost prefix = tv.take(i + 1);
        assert(prefix.drop_last() =~= tv.take(i as int));
        proof {
            lemma_group_heads_shape(tv.take(i as int));
        }
        let join = if heads.len() > 0 {
            let h = heads[heads.len() - 1];
            assert(positions(heads@).last() == h as int);
            assert(prefix[h as int] == times@[h as int] as nat);
            let a = times[i];
            let b = times[h];
            a as u128 <= b as u128 + BILINGUAL_TOLERANCE_MS as u128 && b as u128 <= a as u128
                + BILINGUAL_TOLERANCE_MS as u128
        } else {
            false
        };
        if !join {
            let ghost before = heads@;
            heads.push(i);
            assert(positions(heads@) =~= positions(before).push(i as int));
        }
        i += 1;
    }
    assert(tv.take(times@.len() as int) =~= tv);
    heads
}

/// The first of `texts[lo..hi]` with more than whitespace, else `lo`.
fn first_shown(texts: &Vec<String>, lo: usize, hi: usize) -> (r: usize)
    requires
        lo <= hi <= texts@.len(),
    ensures
        r as int == first_shown_from(crate::text::texts(texts@), lo as int, hi as int, lo as int),
        lo <= r && (lo < hi ==> r < hi),
{
    let ghost tv = crate::text::texts(texts@);
    let mut k = lo;
    while k < hi && trim(texts[k].as_str()).as_str().is_empty()
        invariant
            lo <= k <= hi <= texts@.len(),
            tv == crate::text::texts(texts@),
            first_shown_from(tv, lo as int, hi as int, lo as int) == first_shown_from(
                tv,
                k as int,
                hi as int,
                lo as int,
            ),
        decreases hi - k,
    {
        assert(tv[k as int] == texts@[k as int]@);
        k += 1;
    }
    if k < hi {
        assert(tv[k as int] == texts@[k as int]@);
        k
    } else {
        lo
    }
}

/// The translation of a group: the texts of `texts[lo..hi]` other than the
/// one at `p`, each once, normalized, joined by line breaks.
fn translation_of(texts: &Vec<String>, lo: usize, hi: usize, p: usize) -> (r: String)
    requires
        lo <= p < hi <= texts@.len(),
    ensures
        r@ == crate::lyrics::joined_lines(
            unique_shown_texts(
                crate::text::texts(texts@).subrange(lo as int, hi as int).remove(p - lo),
            ),
        ),
{
    let ghost tv = crate::text::texts(texts@);
    let mut others: Vec<String> = Vec::new();
    let mut k = lo;
    assert(tv.subrange(lo as int, lo as int) =~= Seq::<Seq<char>>::empty());
    while k < hi
        invariant
            lo <= k <= hi <= texts@.len(),
            lo <= p < hi,
            tv == crate::text::texts(texts@),
            crate::text::texts(others@) == if k <= p {
                tv.subrange(lo as int, k as int)
            } else {
                tv.subrange(lo as int, p as int) + tv.subrange(p + 1, k as int)
            },
        decreases hi - k,
    {
        let ghost before = others@;
        if k != p {
            others.push(texts[k].clone());
            assert(crate::text::texts(others@) =~= crate::text::texts(before).push(
                texts@[k as int]@,
            ));
        }
        if k < p {
            assert(tv.subrange(lo as int, k + 1) =~= tv.subrange(lo as int, k as int).push(
                tv[k as int],
            ));
        } else if k == p {
            assert(tv.subrange(p + 1, k + 1) =~= Seq::<Seq<char>>::empty());
            assert(tv.subrange(lo as int, p as int) + Seq::<Seq<char>>::empty() =~= tv.subrange(
                lo as int,
                p as int,
            ));
        } else {
            assert(tv.subrange(p + 1, k + 1) =~= tv.subrange(p + 1, k as int).push(tv[k as int]));
            assert(tv.subrange(lo as int, p as int) + tv.subrange(p + 1, k + 1) =~= (tv.subrange(
                lo as int,
                p as int,
            ) + tv.subrange(p + 1, k as int)).push(tv[k as int]));
        }
        k += 1;
    }
    assert(tv.subrange(lo as int, hi as int).remove(p - lo) =~= tv.subrange(lo as int, p as int)
        + tv.subrange(p + 1, hi as int));
    let unique = unique_non_empty_texts(&others);
    crate::lyrics::join_display_lines(unique)
}


/// The shown lines of timed entries, moved by `offset_ms` (see
/// `synced_lines`).
pub fn build_synced_lines(entries: Vec<TimedLyricEntry>, offset_ms: i64) -> (r: Vec<LyricsLine>)
    ensures
        lines_view(r@) == synced_lines(timed_view(entries@), offset_ms as int),
{
    let (texts, times) = ordered_entries(&entries, offset_ms);
    let heads = group_heads_of(&times);
    let ghost tv = crate::text::texts(texts@);
    let ghost tm = time_values(times@);
    let ghost hs = group_heads(tm);
    proof {
        lemma_group_heads_shape(tm);
    }
    let n = texts.len();
    let count = heads.len();
    assert(tv.len() == tm.len());
    let mut primaries: Vec<usize> = Vec::new();
    let mut g: usize = 0;
    while g < count
        invariant
            g <= count == hs.len(),
            n == tv.len() == tm.len() == texts@.len() == times@.len(),
            tv == crate::text::texts(texts@),
            tm == time_values(times@),
            hs == group_heads(tm),
            positions(heads@) == hs,
            forall|a: int| 0 <= a < hs.len() ==> 0 <= #[trigger] hs[a] < tm.len(),
            forall|a: int, b: int| 0 <= a < b < hs.len() ==> hs[a] < hs[b],
            primaries@.len() == g,
            forall|q: int|
                0 <= q < g ==> #[trigger] primaries@[q] as int == group_primary(tv, hs, q) && hs[q]
                    <= primaries@[q] < group_end(hs, q, n as int),
        decreases count - g,
    {
        assert(heads@[g as int] as int == hs[g as int]);
        let lo = heads[g];
        let hi = if g + 1 < count {
            assert(heads@[g + 1] as int == hs[g + 1]);
            heads[g + 1]
        } else {
            n
        };
        let p = first_shown(&texts, lo, hi);
        primaries.push(p);
        g += 1;
    }
    let mut lines: Vec<LyricsLine> = Vec::new();
    let ghost want = grouped_lines(tv, tm);
    let mut g: usize = 0;
    assert(lines_view(lines@) =~= want.take(0));
    while g < count
        invariant
            g <= count == hs.len() == primaries@.len(),
            n == tv.len() == tm.len() == texts@.len() == times@.len(),
            tv == crate::text::texts(texts@),
            tm == time_values(times@),
            hs == group_heads(tm),
            want == grouped_lines(tv, tm),
            positions(heads@) == hs,
            forall|a: int| 0 <= a < hs.len() ==> 0 <= #[trigger] hs[a] < tm.len(),
            forall|q: int|
                0 <= q < count ==> #[trigger] primaries@[q] as int == group_primary(tv, hs, q)
                    && hs[q] <= primaries@[q] < group_end(hs, q, n as int),
            lines_view(lines@) == want.take(g as int),
        decreases count - g,
    {
        assert(heads@[g as int] as int == hs[g as int]);
        let lo = heads[g];
        let hi = if g + 1 < count {
            assert(heads@[g + 1] as int == hs[g + 1]);
            heads[g + 1]
        } else {
            n
        };
        let p = primaries[g];
        let translated = translation_of(&texts, lo, hi, p);
        let start = times[p];
        let end = if g + 1 < count {
            let next = times[primaries[g + 1]];
            if next >= start {
                Some(next)
            } else {
                None
            }
        } else {
            None
        };
        let line = LyricsLine {
            index: g,
            text: texts[p].clone(),
            start_ms: Some(start),
            end_ms: end,
            translated_lyric: translated,
            roman_lyric: String::new(),
        };
        let ghost before = lines@;
        lines.push(line);
        assert(lines_view(lines@) =~= lines_view(before).push(want[g as int]));
        assert(want.take(g + 1) =~= want.take(g as int).push(want[g as int]));
        g += 1;
    }
    assert(want.take(count as int) =~= want);
    lines
}


/// The index of the line playing at `pos`: going through the lines in
/// order, lines without a start are passed over, the first line that
/// starts after `pos` stops the walk, and the last line reached before it
/// is the one playing (`found` until then).
pub open spec fn active_line_from(lines: Seq<LyricsLineView>, pos: nat, found: Option<nat>) -> Option<nat>
    decreases lines.len(),
{
    if lines.len() == 0 {
        found
    } else {
        match lines[0].start_ms {
            None => active_line_from(lines.drop_first(), pos, found),
            Some(s) => if pos < s {
                found
            } else {
                active_line_from(lines.drop_first(), pos, Some(lines[0].index))
            },
        }
    }
}

/// The index of the line playing at `position_ms` (see
/// `active_line_from`); `None` before the first timed line.
pub fn find_active_line_index(lines: &[LyricsLine], position_ms: u64) -> (r: Option<usize>)
    ensures
        opt_index(r) == active_line_from(lines_view(lines@), position_ms as nat, None),
{
    let ghost all = lines_view(lines@);
    let mut active: Option<usize> = None;
    let mut i: usize = 0;
    assert(all.skip(0) =~= all);
    while i < lines.len()
        invariant
            i <= lines@.len(),
            all == lines_view(lines@),
            active_line_from(all, position_ms as nat, None) == active_line_from(
                all.skip(i as int),
                position_ms as nat,
                opt_index(active),
            ),
        decreases lines@.len() - i,
    {
        assert(all.skip(i as int).drop_first() =~= all.skip(i + 1));
        assert(all.skip(i as int)[0] == lines@[i as int]@);
        match lines[i].start_ms {
            None => {},
            Some(start) => {
                if position_ms < start {
                    return active;
                }
                active = Some(lines[i].index);
            },
        }
        i += 1;
    }
    active
}

/// An index, if any, as a number.
pub open spec fn opt_index(i: Option<usize>) -> Option<nat> {
    match i {
        Some(v) => Some(v as nat),
        None => None,
    }
}

/// Lines without times, one per text, numbered in order.
pub open spec fn unsynced_lines(texts: Seq<Seq<char>>) -> Seq<LyricsLineView> {
    Seq::new(
        texts.len(),
        |k: int|
            LyricsLineView {
                index: k as nat,
                text: texts[k],
                start_ms: None,
                end_ms: None,
                translated: seq![],
                roman: seq![],
            },
    )
}

/// Lines without times, one per text, numbered in order.
pub fn build_unsynced_lines(lines: Vec<String>) -> (r: Vec<LyricsLine>)
    ensures
        lines_view(r@) == unsynced_lines(crate::text::texts(lines@)),
{
    let ghost want = unsynced_lines(crate::text::texts(lines@));
    let mut out: Vec<LyricsLine> = Vec::new();
    let mut k: usize = 0;
    assert(lines_view(out@) =~= want.take(0));
    while k < lines.len()
        invariant
            k <= lines@.len(),
            want == unsynced_lines(crate::text::texts(lines@)),
            lines_view(out@) == want.take(k as int),
        decreases lines@.len() - k,
    {
        let ghost before = out@;
        out.push(
            LyricsLine {
                index: k,
                text: lines[k].clone(),
                start_ms: None,
                end_ms: None,
                translated_lyric: String::new(),
                roman_lyric: String::new(),
            },
        );
        assert(lines_view(out@) =~= lines_view(before).push(want[k as int]));
        assert(want.take(k + 1) =~= want.take(k as int).push(want[k as int]));
        k += 1;
    }
    assert(want.take(lines@.len() as int) =~= want);
    out
}


/// Lyrics found in one place, ready to be chosen among others.
pub struct LyricsCandidate {
    pub source: LyricsSourceKind,
    pub source_path: Option<String>,
    pub kind: LyricsContentKind,
    pub text: String,
    pub lines: Vec<LyricsLine>,
    pub title: String,
    pub artist: String,
    pub album: String,
    pub by: String,
    pub language: String,
    pub offset_ms: i64,
    pub match_score: u16,
}

/// The model of a lyrics candidate.
pub struct LyricsCandidateView {
    pub source: LyricsSourceKind,
    pub source_path: Option<Seq<char>>,
    pub kind: LyricsContentKind,
    pub text: Seq<char>,
    pub lines: Seq<LyricsLineView>,
    pub metadata: LrcMetadataView,
    pub match_score: nat,
}

impl View for LyricsCandidate {
    type V = LyricsCandidateView;

    open spec fn view(&self) -> LyricsCandidateView {
        LyricsCandidateView {
            source: self.source,
            source_path: crate::text::opt_text(self.source_path),
            kind: self.kind,
            text: self.text@,
            lines: lines_view(self.lines@),
            metadata: LrcMetadataView {
                title: self.title@,
                artist: self.artist@,
                album: self.album@,
                by: self.by@,
                language: self.language@,
                offset_ms: self.offset_ms as int,
            },
            match_score: self.match_score as nat,
        }
    }
}

/// The lyrics that a text gives: when it has timed lines, the synced lines
/// of those (none only when there is nothing to show either); else one
/// plain line per shown line, none when there are none. The text shown is
/// the shown lines without empty lines at either end, joined.
pub open spec fn candidate_from_text(
    raw: Seq<char>,
    source: LyricsSourceKind,
    source_path: Option<Seq<char>>,
    match_score: nat,
) -> Option<LyricsCandidateView> {
    let parsed = parsed_lyrics(raw);
    let shown = crate::lyrics::trimmed_edge_lines(parsed.display);
    let text = crate::lyrics::joined_lines(shown);
    if parsed.timed.len() > 0 {
        let lines = synced_lines(parsed.timed, parsed.metadata.offset_ms);
        if lines.len() == 0 && text.len() == 0 {
            None
        } else {
            Some(
                LyricsCandidateView {
                    source,
                    source_path,
                    kind: LyricsContentKind::Synced,
                    text,
                    lines,
                    metadata: parsed.metadata,
                    match_score,
                },
            )
        }
    } else {
        let lines = unsynced_lines(shown);
        if lines.len() == 0 {
            None
        } else {
            Some(
                LyricsCandidateView {
                    source,
                    source_path,
                    kind: LyricsContentKind::Unsynced,
                    text,
                    lines,
                    metadata: parsed.metadata,
                    match_score,
                },
            )
        }
    }
}

/// The lyrics that a text gives (see `candidate_from_text`).
pub fn build_candidate_from_text(
    raw_text: &str,
    source: LyricsSourceKind,
    source_path: Option<String>,
    match_score: u16,
) -> (r: Option<LyricsCandidate>)
    ensures
        match candidate_from_text(
            raw_text@,
            source,
            crate::text::opt_text(source_path),
            match_score as nat,
        ) {
            Some(c) => r is Some && r->0@ == c,
            None => r is None,
        },
{
    let parsed = parse_lyrics_text(raw_text);
    let display_lines = crate::lyrics::trim_empty_edge_lines(parsed.display_lines);
    let display_text = crate::lyrics::join_display_lines(
        crate::text::clone_strings(display_lines.as_slice()),
    );
    if parsed.timed_entries.len() > 0 {
        let lines = build_synced_lines(parsed.timed_entries, parsed.offset_ms);
        if lines.len() == 0 && display_text.as_str().is_empty() {
            return None;
        }
        return Some(
            LyricsCandidate {
                source,
                source_path,
                kind: LyricsContentKind::Synced,
                text: display_text,
                lines,
                title: parsed.title,
                artist: parsed.artist,
                album: parsed.album,
                by: parsed.by,
                language: parsed.language,
                offset_ms: parsed.offset_ms,
                match_score,
            },
        );
    }
    let lines = build_unsynced_lines(display_lines);
    if lines.len() == 0 {
        return None;
    }
    Some(
        LyricsCandidate {
            source,
            source_path,
            kind: LyricsContentKind::Unsynced,
            text: display_text,
            lines,
            title: parsed.title,
            artist: parsed.artist,
            album: parsed.album,
            by: parsed.by,
            language: parsed.language,
            offset_ms: parsed.offset_ms,
            match_score,
        },
    )
}


/// How a source ranks: sidecar LRC files first, then sidecar text,
/// embedded synced lyrics, embedded text.
pub open spec fn source_rank(source: LyricsSourceKind) -> nat {
    match source {
        LyricsSourceKind::SidecarLrc => 4,
        LyricsSourceKind::SidecarText => 3,
        LyricsSourceKind::EmbeddedSynced => 2,
        LyricsSourceKind::EmbeddedText => 1,
    }
}

/// How timing ranks: synced lyrics before plain ones.
pub open spec fn timing_rank(kind: LyricsContentKind) -> nat {
    match kind {
        LyricsContentKind::Synced => 2,
        LyricsContentKind::Unsynced => 1,
    }
}

/// The score of a candidate: source rank, match score, timing rank and
/// number of lines, compared in that order.
pub fn candidate_score(candidate: &LyricsCandidate) -> (r: (u8, u16, u8, usize))
    ensures
        r.0 as nat == source_rank(candidate.source),
        r.1 == candidate.match_score,
        r.2 as nat == timing_rank(candidate.kind),
        r.3 == candidate.lines@.len(),
{
    let source_rank: u8 = match candidate.source {
        LyricsSourceKind::SidecarLrc => 4,
        LyricsSourceKind::SidecarText => 3,
        LyricsSourceKind::EmbeddedSynced => 2,
        LyricsSourceKind::EmbeddedText => 1,
    };
    let timing_rank: u8 = match candidate.kind {
        LyricsContentKind::Synced => 2,
        LyricsContentKind::Unsynced => 1,
    };
    (source_rank, candidate.match_score, timing_rank, candidate.lines.len())
}

/// `a` is at most `b` in lexicographic order.
pub open spec fn lex_le(a: Seq<int>, b: Seq<int>) -> bool
    decreases a.len(),
{
    if a.len() == 0 || b.len() == 0 {
        true
    } else if a[0] != b[0] {
        a[0] < b[0]
    } else {
        lex_le(a.drop_first(), b.drop_first())
    }
}

/// What candidates are compared by: their score, then the length of their
/// text in UTF-8 bytes, then their number of lines.
pub open spec fn preference_key(c: LyricsCandidateView) -> Seq<int> {
    seq![
        source_rank(c.source) as int,
        c.match_score as int,
        timing_rank(c.kind) as int,
        c.lines.len() as int,
        text_byte_len(c.text),
        c.lines.len() as int,
    ]
}

/// The length of a text in UTF-8 bytes, as `str::len` gives it.
pub open spec fn text_byte_len(t: Seq<char>) -> int {
    (vstd::utf8::encode_utf8(t).len() as usize) as int
}

/// The position of the chosen candidate: the last of those with the
/// highest key.
pub open spec fn preferred_index(keys: Seq<Seq<int>>) -> Option<int>
    decreases keys.len(),
{
    if keys.len() == 0 {
        None
    } else {
        match preferred_index(keys.drop_last()) {
            None => Some(keys.len() - 1),
            Some(b) => if lex_le(keys[b], keys.last()) {
                Some(keys.len() - 1)
            } else {
                Some(b)
            },
        }
    }
}

/// The keys of a list of candidates.
pub open spec fn candidate_keys(candidates: Seq<LyricsCandidate>) -> Seq<Seq<int>> {
    candidates.map_values(|c: LyricsCandidate| preference_key(c@))
}

/// Whether `a`'s key is at most `b`'s.
fn key_at_most(a: &LyricsCandidate, b: &LyricsCandidate) -> (r: bool)
    ensures
        r == lex_le(preference_key(a@), preference_key(b@)),
{
    let x = candidate_score(a);
    let y = candidate_score(b);
    let xa = a.text.as_str().len();
    let yb = b.text.as_str().len();
    let ghost ka = preference_key(a@);
    let ghost kb = preference_key(b@);
    proof {
        reveal_with_fuel(lex_le, 7);
        assert(ka.drop_first() =~= seq![ka[1], ka[2], ka[3], ka[4], ka[5]]);
        assert(kb.drop_first() =~= seq![kb[1], kb[2], kb[3], kb[4], kb[5]]);
        assert(ka.drop_first().drop_first() =~= seq![ka[2], ka[3], ka[4], ka[5]]);
        assert(kb.drop_first().drop_first() =~= seq![kb[2], kb[3], kb[4], kb[5]]);
        assert(ka.drop_first().drop_first().drop_first() =~= seq![ka[3], ka[4], ka[5]]);
        assert(kb.drop_first().drop_first().drop_first() =~= seq![kb[3], kb[4], kb[5]]);
        assert(ka.drop_first().drop_first().drop_first().drop_first() =~= seq![ka[4], ka[5]]);
        assert(kb.drop_first().drop_first().drop_first().drop_first() =~= seq![kb[4], kb[5]]);
        assert(ka.drop_first().drop_first().drop_first().drop_first().drop_first() =~= seq![ka[5]]);
        assert(kb.drop_first().drop_first().drop_first().drop_first().drop_first() =~= seq![kb[5]]);
        assert(seq![ka[5]].drop_first() =~= Seq::<int>::empty());
        assert(seq![kb[5]].drop_first() =~= Seq::<int>::empty());
        assert(lines_view(a.lines@).len() == a.lines@.len());
        assert(lines_view(b.lines@).len() == b.lines@.len());
    }
    if x.0 != y.0 {
        x.0 < y.0
    } else if x.1 != y.1 {
        x.1 < y.1
    } else if x.2 != y.2 {
        x.2 < y.2
    } else if x.3 != y.3 {
        x.3 < y.3
    } else if xa != yb {
        xa < yb
    } else {
        true
    }
}

/// The candidate to show: the last of those that rank highest (see
/// `preferred_index`); `None` when there is none.
pub fn select_best_candidate(candidates: Vec<LyricsCandidate>) -> (r: Option<LyricsCandidate>)
    ensures
        match preferred_index(candidate_keys(candidates@)) {
            Some(i) => r == Some(candidates@[i]),
            None => r is None,
        },
{
    let ghost keys = candidate_keys(candidates@);
    let mut best: Option<usize> = None;
    let mut i: usize = 0;
    assert(keys.take(0) =~= Seq::<Seq<int>>::empty());
    while i < candidates.len()
        invariant
            i <= candidates@.len(),
            keys == candidate_keys(candidates@),
            opt_position(best) == preferred_index(keys.take(i as int)),
            best matches Some(b) ==> b < i,
        decreases candidates@.len() - i,
    {
        assert(keys.take(i + 1).drop_last() =~= keys.take(i as int));
        assert(keys.take(i + 1).last() == keys[i as int]);
        match best {
            None => {
                best = Some(i);
            },
            Some(b) => {
                assert(keys.take(i + 1)[b as int] == keys[b as int]);
                if key_at_most(&candidates[b], &candidates[i]) {
                    best = Some(i);
                }
            },
        }
        i += 1;
    }
    assert(keys.take(candidates@.len() as int) =~= keys);
    match best {
        Some(b) => {
            let mut all = candidates;
            Some(all.swap_remove(b))
        },
        None => None,
    }
}

/// A position, if any, as a number.
pub open spec fn opt_position(i: Option<usize>) -> Option<int> {
    match i {
        Some(v) => Some(v as int),
        None => None,
    }
}


/// The start times of lines in order, leaving out lines without one.
pub open spec fn line_starts(lines: Seq<LyricsLineView>) -> Seq<nat>
    decreases lines.len(),
{
    if lines.len() == 0 {
        seq![]
    } else {
        let before = line_starts(lines.drop_last());
        match lines.last().start_ms {
            Some(t) => before.push(t),
            None => before,
        }
    }
}

/// How many start times of two timelines pair up: walking both in order,
/// two times within the tolerance pair up and both walks move on; otherwise
/// the walk with the earlier time moves on.
pub open spec fn matching_count(a: Seq<nat>, b: Seq<nat>) -> nat
    decreases a.len() + b.len(),
{
    if a.len() == 0 || b.len() == 0 {
        0
    } else if within_tolerance(a[0], b[0]) {
        1 + matching_count(a.drop_first(), b.drop_first())
    } else if a[0] < b[0] {
        matching_count(a.drop_first(), b)
    } else {
        matching_count(a, b.drop_first())
    }
}

/// How many times must pair up for two timelines of which the shorter has
/// `m` times: all of them up to two, else half of them rounded up, and at
/// least three.
pub open spec fn required_matches(m: nat) -> nat {
    if m <= 2 {
        m
    } else if (m + 1) / 2 >= 3 {
        ((m + 1) / 2) as nat
    } else {
        3
    }
}

/// Whether two timelines tell the same timing: the shorter has a time,
/// and enough of their times pair up.
pub open spec fn timelines_compatible(a: Seq<LyricsLineView>, b: Seq<LyricsLineView>) -> bool {
    let l = line_starts(a);
    let r = line_starts(b);
    let m = if l.len() <= r.len() {
        l.len()
    } else {
        r.len()
    };
    m > 0 && matching_count(l, r) >= required_matches(m)
}

/// The views of a list of candidates.
pub open spec fn candidate_views(cands: Seq<LyricsCandidate>) -> Seq<LyricsCandidateView> {
    cands.map_values(|c: LyricsCandidate| c@)
}

/// The positions of the synced candidates with the given source, in order.
pub open spec fn synced_positions(cands: Seq<LyricsCandidateView>, source: LyricsSourceKind) -> Seq<int>
    decreases cands.len(),
{
    if cands.len() == 0 {
        seq![]
    } else {
        let before = synced_positions(cands.drop_last(), source);
        if cands.last().source == source && cands.last().kind == LyricsContentKind::Synced {
            before.push(cands.len() - 1)
        } else {
            before
        }
    }
}

/// The members that are `base` itself or whose timeline agrees with that
/// of `base`, in order.
pub open spec fn group_around(cands: Seq<LyricsCandidateView>, members: Seq<int>, base: int) -> Seq<int>
    decreases members.len(),
{
    if members.len() == 0 {
        seq![]
    } else {
        let before = group_around(cands, members.drop_last(), base);
        let c = members.last();
        if c == base || timelines_compatible(cands[base].lines, cands[c].lines) {
            before.push(c)
        } else {
            before
        }
    }
}

/// The total length in bytes of the texts of a group.
pub open spec fn text_total(cands: Seq<LyricsCandidateView>, group: Seq<int>) -> int
    decreases group.len(),
{
    if group.len() == 0 {
        0
    } else {
        text_total(cands, group.drop_last()) + text_byte_len(cands[group.last()].text)
    }
}

/// The best of the groups around each of `bases`: the one with the most
/// members, then the most text; the first found among equals.
pub open spec fn best_group_from(cands: Seq<LyricsCandidateView>, members: Seq<int>, bases: Seq<int>) -> Seq<int>
    decreases bases.len(),
{
    if bases.len() == 0 {
        seq![]
    } else {
        let best = best_group_from(cands, members, bases.drop_last());
        let g = group_around(cands, members, bases.last());
        if g.len() > best.len() || (g.len() == best.len() && text_total(cands, g) > text_total(
            cands,
            best,
        )) {
            g
        } else {
            best
        }
    }
}

/// What a line shows: its text, then the lines of its translation and of
/// its romanization, normalized, each once, without empty ones.
pub open spec fn line_display_texts(line: LyricsLineView) -> Seq<Seq<char>> {
    unique_shown_texts(seq![line.text] + text_lines(line.translated) + text_lines(line.roman))
}

/// What lines show, line after line.
pub open spec fn shown_texts_of(lines: Seq<LyricsLineView>) -> Seq<Seq<char>>
    decreases lines.len(),
{
    if lines.len() == 0 {
        seq![]
    } else {
        shown_texts_of(lines.drop_last()) + line_display_texts(lines.last())
    }
}

/// One timed entry per text a timed line shows, at the line's start.
pub open spec fn lines_entries(lines: Seq<LyricsLineView>) -> Seq<(nat, Seq<char>)>
    decreases lines.len(),
{
    if lines.len() == 0 {
        seq![]
    } else {
        let before = lines_entries(lines.drop_last());
        match lines.last().start_ms {
            Some(t) => before + line_display_texts(lines.last()).map_values(
                |x: Seq<char>| (t, x),
            ),
            None => before,
        }
    }
}

/// The timed entries of a group's candidates, candidate after candidate.
pub open spec fn group_entries(cands: Seq<LyricsCandidateView>, group: Seq<int>) -> Seq<(nat, Seq<char>)>
    decreases group.len(),
{
    if group.len() == 0 {
        seq![]
    } else {
        group_entries(cands, group.drop_last()) + lines_entries(cands[group.last()].lines)
    }
}

/// The highest match score in a group (0 for none).
pub open spec fn max_score(cands: Seq<LyricsCandidateView>, group: Seq<int>) -> nat
    decreases group.len(),
{
    if group.len() == 0 {
        0
    } else {
        let before = max_score(cands, group.drop_last());
        let s = cands[group.last()].match_score;
        if s > before {
            s
        } else {
            before
        }
    }
}

/// Synced lyrics from one source that several candidates tell together
/// (an original and its translation): among the synced candidates of
/// `source` (at least two), the largest group whose timelines agree with
/// one of them (at least two); its lines merged as timed entries and
/// grouped again without offset; metadata from the group's preferred
/// candidate and the group's highest match score.
pub open spec fn combined_candidate(cands: Seq<LyricsCandidateView>, source: LyricsSourceKind) -> Option<LyricsCandidateView> {
    let synced = synced_positions(cands, source);
    if synced.len() < 2 {
        None
    } else {
        let best = best_group_from(cands, synced, synced);
        if best.len() < 2 {
            None
        } else {
            let base = best[preferred_index(best.map_values(|c: int| preference_key(cands[c])))->0];
            let lines = synced_lines(group_entries(cands, best), 0);
            if lines.len() == 0 {
                None
            } else {
                Some(
                    LyricsCandidateView {
                        source,
                        source_path: None,
                        kind: LyricsContentKind::Synced,
                        text: crate::lyrics::joined_lines(shown_texts_of(lines)),
                        lines,
                        metadata: cands[base].metadata,
                        match_score: max_score(cands, best),
                    },
                )
            }
        }
    }
}


/// The start times of lines in order, leaving out lines without one.
pub fn collect_synced_start_times(lines: &Vec<LyricsLine>) -> (r: Vec<u64>)
    ensures
        time_values(r@) == line_starts(lines_view(lines@)),
{
    let ghost all = lines_view(lines@);
    let mut out: Vec<u64> = Vec::new();
    let mut i: usize = 0;
    assert(all.take(0) =~= Seq::<LyricsLineView>::empty());
    assert(time_values(out@) =~= Seq::<nat>::empty());
    while i < lines.len()
        invariant
            i <= lines@.len(),
            all == lines_view(lines@),
            time_values(out@) == line_starts(all.take(i as int)),
        decreases lines@.len() - i,
    {
        assert(all.take(i + 1).drop_last() =~= all.take(i as int));
        assert(all.take(i + 1).last() == lines@[i as int]@);
        match lines[i].start_ms {
            Some(t) => {
                let ghost before = out@;
                out.push(t);
                assert(time_values(out@) =~= time_values(before).push(t as nat));
            },
            None => {},
        }
        i += 1;
    }
    assert(all.take(lines@.len() as int) =~= all);
    out
}

/// How many start times of two timelines pair up (see `matching_count`).
pub fn count_matching_timestamps(left: &Vec<u64>, right: &Vec<u64>) -> (r: usize)
    ensures
        r as nat == matching_count(time_values(left@), time_values(right@)),
{
    let ghost a = time_values(left@);
    let ghost b = time_values(right@);
    let mut li: usize = 0;
    let mut ri: usize = 0;
    let mut matches: usize = 0;
    assert(a.skip(0) =~= a);
    assert(b.skip(0) =~= b);
    while li < left.len() && ri < right.len()
        invariant
            li <= left@.len(),
            ri <= right@.len(),
            a == time_values(left@),
            b == time_values(right@),
            matches <= li,
            matching_count(a, b) == matches + matching_count(a.skip(li as int), b.skip(ri as int)),
        decreases left@.len() + right@.len() - li - ri,
    {
        let x = left[li];
        let y = right[ri];
        assert(a.skip(li as int)[0] == x as nat);
        assert(b.skip(ri as int)[0] == y as nat);
        assert(a.skip(li as int).drop_first() =~= a.skip(li + 1));
        assert(b.skip(ri as int).drop_first() =~= b.skip(ri + 1));
        if x as u128 <= y as u128 + BILINGUAL_TOLERANCE_MS as u128 && y as u128 <= x as u128
            + BILINGUAL_TOLERANCE_MS as u128 {
            matches += 1;
            li += 1;
            ri += 1;
        } else if x < y {
            li += 1;
        } else {
            ri += 1;
        }
    }
    matches
}

/// Whether two candidates' timelines tell the same timing (see
/// `timelines_compatible`).
pub fn synced_timelines_are_compatible(left: &LyricsCandidate, right: &LyricsCandidate) -> (r: bool)
    ensures
        r == timelines_compatible(left@.lines, right@.lines),
{
    let l = collect_synced_start_times(&left.lines);
    let r = collect_synced_start_times(&right.lines);
    let m = if l.len() <= r.len() {
        l.len()
    } else {
        r.len()
    };
    if m == 0 {
        return false;
    }
    let matches = count_matching_timestamps(&l, &r);
    let required = if m <= 2 {
        m
    } else if (m / 2) + (m % 2) >= 3 {
        (m / 2) + (m % 2)
    } else {
        3
    };
    assert((m / 2) + (m % 2) == (m + 1) / 2) by (nonlinear_arith);
    matches >= required
}

/// The positions of the synced candidates with the given source, in order.
fn synced_positions_of(cands: &Vec<LyricsCandidate>, source: LyricsSourceKind) -> (r: Vec<usize>)
    ensures
        positions(r@) == synced_positions(candidate_views(cands@), source),
        forall|k: int| 0 <= k < r@.len() ==> r@[k] < cands@.len(),
{
    let ghost all = candidate_views(cands@);
    let mut out: Vec<usize> = Vec::new();
    let mut i: usize = 0;
    assert(all.take(0) =~= Seq::<LyricsCandidateView>::empty());
    assert(positions(out@) =~= Seq::<int>::empty());
    while i < cands.len()
        invariant
            i <= cands@.len(),
            all == candidate_views(cands@),
            positions(out@) == synced_positions(all.take(i as int), source),
            forall|k: int| 0 <= k < out@.len() ==> out@[k] < i,
        decreases cands@.len() - i,
    {
        assert(all.take(i + 1).drop_last() =~= all.take(i as int));
        assert(all.take(i + 1).last() == cands@[i as int]@);
        if cands[i].source == source && cands[i].kind == LyricsContentKind::Synced {
            let ghost before = out@;
            out.push(i);
            assert(positions(out@) =~= positions(before).push(i as int));
        }
        i += 1;
    }
    assert(all.take(cands@.len() as int) =~= all);
    out
}

/// The members that are `base` or agree with its timeline (see
/// `group_around`).
fn group_around_of(cands: &Vec<LyricsCandidate>, members: &Vec<usize>, base: usize) -> (r: Vec<usize>)
    requires
        base < cands@.len(),
        forall|k: int| 0 <= k < members@.len() ==> members@[k] < cands@.len(),
    ensures
        positions(r@) == group_around(candidate_views(cands@), positions(members@), base as int),
        forall|k: int| 0 <= k < r@.len() ==> r@[k] < cands@.len(),
        r@.len() <= members@.len(),
{
    let ghost all = candidate_views(cands@);
    let ghost ms = positions(members@);
    let mut out: Vec<usize> = Vec::new();
    let mut i: usize = 0;
    assert(ms.take(0) =~= Seq::<int>::empty());
    assert(positions(out@) =~= Seq::<int>::empty());
    while i < members.len()
        invariant
            i <= members@.len(),
            base < cands@.len(),
            forall|k: int| 0 <= k < members@.len() ==> members@[k] < cands@.len(),
            all == candidate_views(cands@),
            ms == positions(members@),
            positions(out@) == group_around(all, ms.take(i as int), base as int),
            forall|k: int| 0 <= k < out@.len() ==> out@[k] < cands@.len(),
            out@.len() <= i,
        decreases members@.len() - i,
    {
        assert(ms.take(i + 1).drop_last() =~= ms.take(i as int));
        assert(ms.take(i + 1).last() == members@[i as int] as int);
        let c = members[i];
        if c == base || synced_timelines_are_compatible(&cands[base], &cands[c]) {
            let ghost before = out@;
            out.push(c);
            assert(positions(out@) =~= positions(before).push(c as int));
        }
        i += 1;
    }
    assert(ms.take(members@.len() as int) =~= ms);
    out
}

/// The total length in bytes of the texts of a group.
fn text_total_of(cands: &Vec<LyricsCandidate>, group: &Vec<usize>) -> (r: u128)
    requires
        forall|k: int| 0 <= k < group@.len() ==> group@[k] < cands@.len(),
    ensures
        r as int == text_total(candidate_views(cands@), positions(group@)),
{
    let ghost all = candidate_views(cands@);
    let ghost gs = positions(group@);
    let mut total: u128 = 0;
    let mut i: usize = 0;
    assert(gs.take(0) =~= Seq::<int>::empty());
    while i < group.len()
        invariant
            i <= group@.len(),
            forall|k: int| 0 <= k < group@.len() ==> group@[k] < cands@.len(),
            all == candidate_views(cands@),
            gs == positions(group@),
            total as int == text_total(all, gs.take(i as int)),
            total <= i as u128 * 0x1_0000_0000_0000_0000u128,
        decreases group@.len() - i,
    {
        assert(gs.take(i + 1).drop_last() =~= gs.take(i as int));
        assert(gs.take(i + 1).last() == group@[i as int] as int);
        let len = cands[group[i]].text.as_str().len();
        total = total + len as u128;
        i += 1;
    }
    assert(gs.take(group@.len() as int) =~= gs);
    total
}


/// What a line shows (see `line_display_texts`).
pub fn collect_line_display_texts(line: &LyricsLine) -> (r: Vec<String>)
    ensures
        crate::text::texts(r@) == line_display_texts(line@),
{
    let mut items: Vec<String> = Vec::new();
    items.push(line.text.clone());
    let translated = split_text_lines(line.translated_lyric.as_str());
    let roman = split_text_lines(line.roman_lyric.as_str());
    let ghost first = crate::text::texts(items@);
    assert(first =~= seq![line.text@]);
    let mut k: usize = 0;
    assert(crate::text::texts(translated@).take(0) =~= Seq::<Seq<char>>::empty());
    while k < translated.len()
        invariant
            k <= translated@.len(),
            crate::text::texts(items@) == seq![line.text@] + crate::text::texts(translated@).take(
                k as int,
            ),
        decreases translated@.len() - k,
    {
        let ghost before = items@;
        items.push(translated[k].clone());
        assert(crate::text::texts(items@) =~= crate::text::texts(before).push(translated@[k as int]@));
        assert(crate::text::texts(translated@).take(k + 1) =~= crate::text::texts(translated@).take(
            k as int,
        ).push(translated@[k as int]@));
        k += 1;
    }
    assert(crate::text::texts(translated@).take(translated@.len() as int) =~= crate::text::texts(
        translated@,
    ));
    let ghost second = crate::text::texts(items@);
    let mut k: usize = 0;
    assert(crate::text::texts(roman@).take(0) =~= Seq::<Seq<char>>::empty());
    assert(second + Seq::<Seq<char>>::empty() =~= second);
    while k < roman.len()
        invariant
            k <= roman@.len(),
            crate::text::texts(items@) == second + crate::text::texts(roman@).take(k as int),
        decreases roman@.len() - k,
    {
        let ghost before = items@;
        items.push(roman[k].clone());
        assert(crate::text::texts(items@) =~= crate::text::texts(before).push(roman@[k as int]@));
        assert(crate::text::texts(roman@).take(k + 1) =~= crate::text::texts(roman@).take(
            k as int,
        ).push(roman@[k as int]@));
        k += 1;
    }
    assert(crate::text::texts(roman@).take(roman@.len() as int) =~= crate::text::texts(roman@));
    unique_non_empty_texts(&items)
}

/// What lines show, line after line.
pub fn collect_lyrics_display_lines(lines: &Vec<LyricsLine>) -> (r: Vec<String>)
    ensures
        crate::text::texts(r@) == shown_texts_of(lines_view(lines@)),
{
    let ghost all = lines_view(lines@);
    let mut out: Vec<String> = Vec::new();
    let mut i: usize = 0;
    assert(all.take(0) =~= Seq::<LyricsLineView>::empty());
    assert(crate::text::texts(out@) =~= Seq::<Seq<char>>::empty());
    while i < lines.len()
        invariant
            i <= lines@.len(),
            all == lines_view(lines@),
            crate::text::texts(out@) == shown_texts_of(all.take(i as int)),
        decreases lines@.len() - i,
    {
        assert(all.take(i + 1).drop_last() =~= all.take(i as int));
        assert(all.take(i + 1).last() == lines@[i as int]@);
        let shown = collect_line_display_texts(&lines[i]);
        let ghost start = crate::text::texts(out@);
        let mut k: usize = 0;
        assert(start + crate::text::texts(shown@).take(0) =~= start);
        while k < shown.len()
            invariant
                k <= shown@.len(),
                crate::text::texts(out@) == start + crate::text::texts(shown@).take(k as int),
            decreases shown@.len() - k,
        {
            let ghost before = out@;
            out.push(shown[k].clone());
            assert(crate::text::texts(out@) =~= crate::text::texts(before).push(shown@[k as int]@));
            assert(start + crate::text::texts(shown@).take(k + 1) =~= (start + crate::text::texts(
                shown@,
            ).take(k as int)).push(shown@[k as int]@));
            k += 1;
        }
        assert(crate::text::texts(shown@).take(shown@.len() as int) =~= crate::text::texts(shown@));
        i += 1;
    }
    assert(all.take(lines@.len() as int) =~= all);
    out
}

/// Appends the timed entries of `lines` (see `lines_entries`).
fn push_lines_entries(lines: &Vec<LyricsLine>, entries: &mut Vec<TimedLyricEntry>)
    ensures
        timed_view(final(entries)@) == timed_view(old(entries)@) + lines_entries(lines_view(lines@)),
{
    let ghost all = lines_view(lines@);
    let ghost start = timed_view(entries@);
    let mut i: usize = 0;
    assert(all.take(0) =~= Seq::<LyricsLineView>::empty());
    assert(start + Seq::<(nat, Seq<char>)>::empty() =~= start);
    while i < lines.len()
        invariant
            i <= lines@.len(),
            all == lines_view(lines@),
            timed_view(entries@) == start + lines_entries(all.take(i as int)),
        decreases lines@.len() - i,
    {
        assert(all.take(i + 1).drop_last() =~= all.take(i as int));
        assert(all.take(i + 1).last() == lines@[i as int]@);
        match lines[i].start_ms {
            Some(t) => {
                let shown = collect_line_display_texts(&lines[i]);
                let ghost mid = timed_view(entries@);
                let ghost add = crate::text::texts(shown@).map_values(|x: Seq<char>| (t as nat, x));
                let mut k: usize = 0;
                assert(mid + add.take(0) =~= mid);
                while k < shown.len()
                    invariant
                        k <= shown@.len(),
                        add == crate::text::texts(shown@).map_values(
                            |x: Seq<char>| (t as nat, x),
                        ),
                        timed_view(entries@) == mid + add.take(k as int),
                    decreases shown@.len() - k,
                {
                    let ghost before = entries@;
                    entries.push(TimedLyricEntry { start_ms: t, text: shown[k].clone() });
                    assert(timed_view(entries@) =~= timed_view(before).push(
                        (t as nat, shown@[k as int]@),
                    ));
                    assert(mid + add.take(k + 1) =~= (mid + add.take(k as int)).push(add[k as int]));
                    k += 1;
                }
                assert(add.take(shown@.len() as int) =~= add);
                assert(start + lines_entries(all.take(i + 1)) =~= mid + add);
            },
            None => {},
        }
        i += 1;
    }
    assert(all.take(lines@.len() as int) =~= all);
}


/// Synced lyrics that several candidates of one source tell together, such
/// as an original and its translation (see `combined_candidate`).
pub fn build_combined_embedded_synced_candidate(
    candidates: &Vec<LyricsCandidate>,
    source: LyricsSourceKind,
) -> (r: Option<LyricsCandidate>)
    ensures
        match combined_candidate(candidate_views(candidates@), source) {
            Some(c) => r is Some && r->0@ == c,
            None => r is None,
        },
{
    let ghost cv = candidate_views(candidates@);
    let synced = synced_positions_of(candidates, source);
    if synced.len() < 2 {
        return None;
    }
    let ghost ss = positions(synced@);
    let mut best: Vec<usize> = Vec::new();
    let mut best_total: u128 = 0;
    let mut i: usize = 0;
    assert(ss.take(0) =~= Seq::<int>::empty());
    assert(positions(best@) =~= Seq::<int>::empty());
    while i < synced.len()
        invariant
            i <= synced@.len(),
            cv == candidate_views(candidates@),
            ss == positions(synced@),
            ss == synced_positions(cv, source),
            forall|k: int| 0 <= k < synced@.len() ==> synced@[k] < candidates@.len(),
            positions(best@) == best_group_from(cv, ss, ss.take(i as int)),
            forall|k: int| 0 <= k < best@.len() ==> best@[k] < candidates@.len(),
            best_total as int == text_total(cv, positions(best@)),
        decreases synced@.len() - i,
    {
        assert(ss.take(i + 1).drop_last() =~= ss.take(i as int));
        assert(ss.take(i + 1).last() == synced@[i as int] as int);
        let group = group_around_of(candidates, &synced, synced[i]);
        let total = text_total_of(candidates, &group);
        if group.len() > best.len() || (group.len() == best.len() && total > best_total) {
            best = group;
            best_total = total;
        }
        i += 1;
    }
    assert(ss.take(synced@.len() as int) =~= ss);
    if best.len() < 2 {
        return None;
    }
    let ghost bs = positions(best@);
    let ghost keys = bs.map_values(|c: int| preference_key(cv[c]));
    let mut base: usize = 0;
    let mut j: usize = 1;
    assert(keys.take(1).drop_last() =~= keys.take(0));
    assert(keys.take(0) =~= Seq::<Seq<int>>::empty());
    assert(preferred_index(keys.take(0)) == None::<int>);
    assert(preferred_index(keys.take(1)) == Some(0int));
    while j < best.len()
        invariant
            1 <= j <= best@.len(),
            cv == candidate_views(candidates@),
            bs == positions(best@),
            keys == bs.map_values(|c: int| preference_key(cv[c])),
            forall|k: int| 0 <= k < best@.len() ==> best@[k] < candidates@.len(),
            preferred_index(keys.take(j as int)) == Some(base as int),
            base < j,
        decreases best@.len() - j,
    {
        assert(keys.take(j + 1).drop_last() =~= keys.take(j as int));
        assert(keys.take(j + 1).last() == keys[j as int]);
        assert(keys.take(j + 1)[base as int] == keys[base as int]);
        assert(keys[base as int] == preference_key(candidates@[best@[base as int] as int]@));
        assert(keys[j as int] == preference_key(candidates@[best@[j as int] as int]@));
        if key_at_most(&candidates[best[base]], &candidates[best[j]]) {
            base = j;
        }
        j += 1;
    }
    assert(keys.take(best@.len() as int) =~= keys);
    let mut entries: Vec<TimedLyricEntry> = Vec::new();
    let mut score: u16 = 0;
    let mut k: usize = 0;
    assert(bs.take(0) =~= Seq::<int>::empty());
    assert(timed_view(entries@) =~= Seq::<(nat, Seq<char>)>::empty());
    while k < best.len()
        invariant
            k <= best@.len(),
            cv == candidate_views(candidates@),
            bs == positions(best@),
            forall|q: int| 0 <= q < best@.len() ==> best@[q] < candidates@.len(),
            timed_view(entries@) == group_entries(cv, bs.take(k as int)),
            score as nat == max_score(cv, bs.take(k as int)),
        decreases best@.len() - k,
    {
        assert(bs.take(k + 1).drop_last() =~= bs.take(k as int));
        assert(bs.take(k + 1).last() == best@[k as int] as int);
        let c = &candidates[best[k]];
        push_lines_entries(&c.lines, &mut entries);
        if c.match_score > score {
            score = c.match_score;
        }
        k += 1;
    }
    assert(bs.take(best@.len() as int) =~= bs);
    let lines = build_synced_lines(entries, 0);
    if lines.len() == 0 {
        return None;
    }
    let shown = collect_lyrics_display_lines(&lines);
    let text = crate::lyrics::join_display_lines(shown);
    let chosen = &candidates[best[base]];
    Some(
        LyricsCandidate {
            source,
            source_path: None,
            kind: LyricsContentKind::Synced,
            text,
            lines,
            title: chosen.title.clone(),
            artist: chosen.artist.clone(),
            album: chosen.album.clone(),
            by: chosen.by.clone(),
            language: chosen.language.clone(),
            offset_ms: chosen.offset_ms,
            match_score: score,
        },
    )
}


/// Whether `order` lists indices by start, earlier indices first among
/// equal starts.
pub open spec fn ordered_by_start(starts: Seq<nat>, order: Seq<usize>) -> bool {
    forall|a: int, b: int|
        0 <= a < b < order.len() ==> starts[order[a] as int] < starts[order[b] as int] || (
        starts[order[a] as int] == starts[order[b] as int] && order[a] < order[b])
}

/// In an order by start, the indices with a start no later than `s` come
/// first, and `count_no_later` counts them.
proof fn lemma_count_splits(order: Seq<usize>, starts: Seq<nat>, s: nat)
    requires
        ordered_by_start(starts, order),
        forall|k: int| 0 <= k < order.len() ==> order[k] < starts.len(),
    ensures
        count_no_later(order, starts, s) <= order.len(),
        forall|k: int|
            0 <= k < count_no_later(order, starts, s) ==> starts[order[k] as int] <= s,
        forall|k: int|
            count_no_later(order, starts, s) <= k < order.len() ==> starts[order[k] as int] > s,
    decreases order.len(),
{
    if order.len() > 0 {
        let prev = order.drop_last();
        assert(ordered_by_start(starts, prev)) by {
            assert forall|a: int, b: int| 0 <= a < b < prev.len() implies starts[prev[a] as int]
                < starts[prev[b] as int] || (starts[prev[a] as int] == starts[prev[b] as int]
                && prev[a] < prev[b]) by {
                assert(prev[a] == order[a] && prev[b] == order[b]);
            }
        }
        lemma_count_splits(prev, starts, s);
        let c = count_no_later(prev, starts, s);
        assert forall|k: int| 0 <= k < prev.len() implies prev[k] == order[k] by {}
        if starts[order.last() as int] <= s {
            assert forall|k: int| 0 <= k < prev.len() implies starts[order[k] as int] <= s by {
                assert(starts[order[k] as int] <= starts[order[order.len() - 1] as int]);
            }
            if c < prev.len() {
                assert(starts[prev[c as int] as int] > s);
                assert(prev[c as int] == order[c as int]);
            }
            assert(c == prev.len());
            assert(count_no_later(order, starts, s) == order.len());
            assert forall|k: int| 0 <= k < count_no_later(order, starts, s) implies starts[order[k] as int] <= s by {
                if k < prev.len() {
                    assert(starts[order[k] as int] <= starts[order[order.len() - 1] as int]);
                }
            }
        } else {
            assert(count_no_later(order, starts, s) == c);
            assert forall|k: int| 0 <= k < c implies starts[order[k] as int] <= s by {
                assert(prev[k] == order[k]);
            }
            assert forall|k: int| c <= k < order.len() implies starts[order[k] as int] > s by {
                if k < prev.len() {
                    assert(prev[k] == order[k]);
                }
            }
        }
    }
}

/// `start_order` lists every index once, by start, earlier indices first
/// among equal starts.
pub proof fn lemma_start_order_sorted(starts: Seq<nat>)
    requires
        starts.len() <= usize::MAX,
    ensures
        start_order(starts).len() == starts.len(),
        forall|k: int| 0 <= k < starts.len() ==> start_order(starts)[k] < starts.len(),
        ordered_by_start(starts, start_order(starts)),
    decreases starts.len(),
{
    lemma_start_order_len(starts);
    if starts.len() > 0 {
        let n = starts.len();
        let d = starts.drop_last();
        let prev = start_order(d);
        lemma_start_order_sorted(d);
        assert(ordered_by_start(starts, prev)) by {
            assert forall|a: int, b: int| 0 <= a < b < prev.len() implies starts[prev[a] as int]
                < starts[prev[b] as int] || (starts[prev[a] as int] == starts[prev[b] as int]
                && prev[a] < prev[b]) by {
                assert(d[prev[a] as int] == starts[prev[a] as int]);
                assert(d[prev[b] as int] == starts[prev[b] as int]);
            }
        }
        let s = starts.last();
        lemma_count_splits(prev, starts, s);
        let at = count_no_later(prev, starts, s) as int;
        let q = start_order(starts);
        assert(q == prev.insert(at, (n - 1) as usize));
        assert forall|a: int, b: int| 0 <= a < b < q.len() implies starts[q[a] as int]
            < starts[q[b] as int] || (starts[q[a] as int] == starts[q[b] as int] && q[a]
            < q[b]) by {
            if b < at {
                assert(q[a] == prev[a] && q[b] == prev[b]);
            } else if b == at {
                assert(q[a] == prev[a]);
                assert(q[b] == (n - 1) as usize);
            } else if a < at {
                assert(q[a] == prev[a] && q[b] == prev[b - 1]);
            } else if a == at {
                assert(q[a] == (n - 1) as usize);
                assert(q[b] == prev[b - 1]);
            } else {
                assert(q[a] == prev[a - 1] && q[b] == prev[b - 1]);
            }
        }
    }
}


/// `first_shown_from` gives `default` or a position of the range.
proof fn lemma_first_shown_in_range(texts: Seq<Seq<char>>, k: int, hi: int, default: int)
    ensures
        first_shown_from(texts, k, hi, default) == default || k <= first_shown_from(
            texts,
            k,
            hi,
            default,
        ) < hi,
    decreases hi - k,
{
    if k < hi && trim_seq(texts[k]).len() == 0 {
        lemma_first_shown_in_range(texts, k + 1, hi, default);
    }
}

/// Lines that follow time: numbered in order, each with a start no earlier
/// than the one before, each ending where the next one starts, the last
/// without an end.
pub open spec fn follows_time(lines: Seq<LyricsLineView>) -> bool {
    &&& forall|g: int| 0 <= g < lines.len() ==> #[trigger] lines[g].index == g && lines[g].start_ms is Some
    &&& forall|g: int|
        0 <= g < lines.len() - 1 ==> #[trigger] lines[g].start_ms->0 <= lines[g + 1].start_ms->0
            && lines[g].end_ms == lines[g + 1].start_ms
    &&& lines.len() > 0 ==> lines.last().end_ms is None
}

/// Synced lines follow time (see `follows_time`), and there is at least
/// one as soon as there is a timed entry.
pub proof fn law_synced_lines_follow_time(entries: Seq<(nat, Seq<char>)>, offset: int)
    requires
        entries.len() <= usize::MAX,
    ensures
        follows_time(synced_lines(entries, offset)),
        entries.len() > 0 ==> synced_lines(entries, offset).len() > 0,
{
    let starts = entry_starts(entries);
    let order = start_order(starts);
    lemma_start_order_sorted(starts);
    let texts = order.map_values(|k: usize| entries[k as int].1);
    let times = order.map_values(|k: usize| shifted_ms(entries[k as int].0, offset));
    assert forall|a: int, b: int| 0 <= a <= b < times.len() implies times[a] <= times[b] by {
        if a < b {
            assert(starts[order[a] as int] == entries[order[a] as int].0);
            assert(starts[order[b] as int] == entries[order[b] as int].0);
        }
    }
    let heads = group_heads(times);
    lemma_group_heads_shape(times);
    let lines = grouped_lines(texts, times);
    assert(lines == synced_lines(entries, offset));
    let n = texts.len() as int;
    assert forall|g: int| 0 <= g < heads.len() implies heads[g] <= #[trigger] group_primary(
        texts,
        heads,
        g,
    ) < group_end(heads, g, n) by {
        lemma_first_shown_in_range(texts, heads[g], group_end(heads, g, n), heads[g]);
        if g + 1 < heads.len() {
            assert(heads[g] < heads[g + 1]);
        }
    }
    assert forall|g: int| 0 <= g < lines.len() implies #[trigger] lines[g].index == g
        && lines[g].start_ms is Some by {}
    assert forall|g: int| 0 <= g < lines.len() - 1 implies #[trigger] lines[g].start_ms->0
        <= lines[g + 1].start_ms->0 && lines[g].end_ms == lines[g + 1].start_ms by {
        let p = group_primary(texts, heads, g);
        let q = group_primary(texts, heads, g + 1);
        assert(p < heads[g + 1] <= q);
        assert(times[p] <= times[q]);
    }
}


/// The walk of `active_line_from` over lines that follow time, from line
/// `k` on, having passed the lines before.
proof fn lemma_active_walk(lines: Seq<LyricsLineView>, pos: nat, k: int)
    requires
        follows_time(lines),
        0 <= k <= lines.len(),
        k > 0 ==> lines[k - 1].start_ms->0 <= pos,
    ensures
        ({
            let r = active_line_from(
                lines.skip(k),
                pos,
                if k == 0 {
                    None
                } else {
                    Some((k - 1) as nat)
                },
            );
            match r {
                None => lines.len() == 0 || pos < lines[0].start_ms->0,
                Some(i) => i < lines.len() && lines[i as int].start_ms->0 <= pos && (i + 1
                    == lines.len() || pos < lines[i as int + 1].start_ms->0),
            }
        }),
    decreases lines.len() - k,
{
    if k < lines.len() {
        assert(lines.skip(k)[0] == lines[k]);
        assert(lines.skip(k).drop_first() =~= lines.skip(k + 1));
        assert(lines[k].index == k && lines[k].start_ms is Some);
        if pos >= lines[k].start_ms->0 {
            lemma_active_walk(lines, pos, k + 1);
        }
    }
}

/// On lines that follow time, the line playing at `pos` is the last one
/// that starts no later than `pos`; there is none when the first line
/// starts later.
pub proof fn law_active_line_is_last_started(lines: Seq<LyricsLineView>, pos: nat)
    requires
        follows_time(lines),
    ensures
        match active_line_from(lines, pos, None) {
            None => lines.len() == 0 || pos < lines[0].start_ms->0,
            Some(i) => i < lines.len() && lines[i as int].start_ms->0 <= pos && (i + 1
                == lines.len() || pos < lines[i as int + 1].start_ms->0),
        },
{
    lemma_active_walk(lines, pos, 0);
    assert(lines.skip(0) =~= lines);
}


/// The version of the lyrics answer's layout.
pub const CURRENT_LYRICS_METADATA_VERSION: u32 = 1;

/// The answer to a lyrics request; times in milliseconds.
pub struct ResolvedTrackLyrics {
    pub track_id: Option<String>,
    pub audio_path: String,
    pub status: crate::lyrics::LyricsStatus,
    pub source: Option<LyricsSourceKind>,
    pub source_path: Option<String>,
    pub kind: Option<LyricsContentKind>,
    pub text: String,
    pub lines: Vec<LyricsLine>,
    pub title: String,
    pub artist: String,
    pub album: String,
    pub by: String,
    pub language: String,
    pub offset_ms: i64,
    pub active_line_index: Option<usize>,
    pub metadata_version: u32,
}

/// The answer to a lyrics request from the chosen lyrics, if any: the
/// chosen lyrics as they are, with the line playing at the position (when
/// one is given); otherwise a missing answer with nothing in it.
pub fn resolved_track_lyrics(
    track_id: Option<String>,
    audio_path: String,
    selected: Option<LyricsCandidate>,
    position_ms: Option<u64>,
) -> (r: ResolvedTrackLyrics)
    ensures
        r.track_id == track_id,
        r.audio_path == audio_path,
        r.metadata_version == CURRENT_LYRICS_METADATA_VERSION,
        match selected {
            Some(c) => {
                &&& r.status == crate::lyrics::LyricsStatus::Resolved
                &&& r.source == Some(c.source)
                &&& r.source_path == c.source_path
                &&& r.kind == Some(c.kind)
                &&& r.text == c.text
                &&& r.lines == c.lines
                &&& r.title == c.title && r.artist == c.artist && r.album == c.album
                &&& r.by == c.by && r.language == c.language
                &&& r.offset_ms == c.offset_ms
                &&& opt_index(r.active_line_index) == match position_ms {
                    Some(p) => active_line_from(lines_view(c.lines@), p as nat, None),
                    None => None,
                }
            },
            None => {
                &&& r.status == crate::lyrics::LyricsStatus::Missing
                &&& r.source is None && r.source_path is None && r.kind is None
                &&& r.text@.len() == 0 && r.lines@.len() == 0
                &&& r.title@.len() == 0 && r.artist@.len() == 0 && r.album@.len() == 0
                &&& r.by@.len() == 0 && r.language@.len() == 0
                &&& r.offset_ms == 0
                &&& r.active_line_index is None
            },
        },
{
    match selected {
        Some(candidate) => {
            let active = match position_ms {
                Some(p) => find_active_line_index(candidate.lines.as_slice(), p),
                None => None,
            };
            ResolvedTrackLyrics {
                track_id,
                audio_path,
                status: crate::lyrics::LyricsStatus::Resolved,
                source: Some(candidate.source),
                source_path: candidate.source_path,
                kind: Some(candidate.kind),
                text: candidate.text,
                lines: candidate.lines,
                title: candidate.title,
                artist: candidate.artist,
                album: candidate.album,
                by: candidate.by,
                language: candidate.language,
                offset_ms: candidate.offset_ms,
                active_line_index: active,
                metadata_version: CURRENT_LYRICS_METADATA_VERSION,
            }
        },
        None => ResolvedTrackLyrics {
            track_id,
            audio_path,
            status: crate::lyrics::LyricsStatus::Missing,
            source: None,
            source_path: None,
            kind: None,
            text: String::new(),
            lines: Vec::new(),
            title: String::new(),
            artist: String::new(),
            album: String::new(),
            by: String::new(),
            language: String::new(),
            offset_ms: 0,
            active_line_index: None,
            metadata_version: CURRENT_LYRICS_METADATA_VERSION,
        },
    }
}


/// The texts of synchronised lyrics, normalized, without the empty ones.
pub open spec fn shown_frame_texts(content: Seq<(nat, Seq<char>)>) -> Seq<Seq<char>>
    decreases content.len(),
{
    if content.len() == 0 {
        seq![]
    } else {
        let before = shown_frame_texts(content.drop_last());
        let t = normalized_lyric_text(content.last().1);
        if t.len() == 0 {
            before
        } else {
            before.push(t)
        }
    }
}

/// Synchronised lyrics timed in milliseconds as timed entries: each text
/// normalized, at its time.
pub open spec fn frame_entries(content: Seq<(nat, Seq<char>)>) -> Seq<(nat, Seq<char>)> {
    content.map_values(|e: (nat, Seq<char>)| (e.0, normalized_lyric_text(e.1)))
}

/// The lyrics that an embedded synchronised-lyrics frame gives, from its
/// language and its (time, text) items. With times in milliseconds: the
/// synced lines of its items (none only when nothing is shown either);
/// with times in another unit: one plain line per non-empty text, none
/// when there is none. The text shown is the non-empty texts, trimmed of
/// empty lines at either end, joined.
pub open spec fn candidate_from_frame(
    language: Seq<char>,
    times_in_ms: bool,
    content: Seq<(nat, Seq<char>)>,
) -> Option<LyricsCandidateView> {
    let shown = crate::lyrics::trimmed_edge_lines(shown_frame_texts(content));
    let text = crate::lyrics::joined_lines(shown);
    let metadata = LrcMetadataView { language, ..empty_metadata() };
    if times_in_ms {
        let lines = synced_lines(frame_entries(content), 0);
        if lines.len() == 0 && text.len() == 0 {
            None
        } else {
            Some(
                LyricsCandidateView {
                    source: LyricsSourceKind::EmbeddedSynced,
                    source_path: None,
                    kind: LyricsContentKind::Synced,
                    text,
                    lines,
                    metadata,
                    match_score: 0,
                },
            )
        }
    } else {
        let lines = unsynced_lines(shown);
        if lines.len() == 0 {
            None
        } else {
            Some(
                LyricsCandidateView {
                    source: LyricsSourceKind::EmbeddedSynced,
                    source_path: None,
                    kind: LyricsContentKind::Unsynced,
                    text,
                    lines,
                    metadata,
                    match_score: 0,
                },
            )
        }
    }
}

/// The items of a frame as times and texts.
pub open spec fn frame_view(content: Seq<(u32, String)>) -> Seq<(nat, Seq<char>)> {
    content.map_values(|e: (u32, String)| (e.0 as nat, e.1@))
}

/// The lyrics that an embedded synchronised-lyrics frame gives (see
/// `candidate_from_frame`); its language is read from its three bytes,
/// invalid UTF-8 replaced, and trimmed.
pub fn build_candidate_from_synced_frame(
    language_bytes: &[u8],
    times_in_ms: bool,
    content: &Vec<(u32, String)>,
) -> (r: Option<LyricsCandidate>)
    ensures
        match candidate_from_frame(
            trim_seq(crate::remote_url::utf8_lossy_text(language_bytes@)),
            times_in_ms,
            frame_view(content@),
        ) {
            Some(c) => r is Some && r->0@ == c,
            None => r is None,
        },
{
    let language = trim(crate::remote_url::utf8_lossy(language_bytes).as_str());
    let ghost cv = frame_view(content@);
    let mut display: Vec<String> = Vec::new();
    let mut timed: Vec<TimedLyricEntry> = Vec::new();
    let mut i: usize = 0;
    assert(cv.take(0) =~= Seq::<(nat, Seq<char>)>::empty());
    assert(crate::text::texts(display@) =~= Seq::<Seq<char>>::empty());
    assert(timed_view(timed@) =~= Seq::<(nat, Seq<char>)>::empty());
    while i < content.len()
        invariant
            i <= content@.len(),
            cv == frame_view(content@),
            crate::text::texts(display@) == shown_frame_texts(cv.take(i as int)),
            timed_view(timed@) == frame_entries(cv.take(i as int)),
        decreases content@.len() - i,
    {
        assert(cv.take(i + 1).drop_last() =~= cv.take(i as int));
        assert(cv.take(i + 1).last() == cv[i as int]);
        let (time, text) = (content[i].0, &content[i].1);
        let normalized = normalize_lyric_line_text(text.as_str());
        let ghost timed_before = timed@;
        timed.push(TimedLyricEntry { start_ms: time as u64, text: normalized.clone() });
        assert(timed_view(timed@) =~= timed_view(timed_before).push((time as nat, normalized@)));
        assert(frame_entries(cv.take(i + 1)) =~= frame_entries(cv.take(i as int)).push(
            (time as nat, normalized@),
        ));
        if !normalized.as_str().is_empty() {
            let ghost before = display@;
            display.push(normalized);
            assert(crate::text::texts(display@) =~= crate::text::texts(before).push(
                normalized_lyric_text(cv[i as int].1),
            ));
        }
        i += 1;
    }
    assert(cv.take(content@.len() as int) =~= cv);
    let shown = crate::lyrics::trim_empty_edge_lines(display);
    let text = crate::lyrics::join_display_lines(crate::text::clone_strings(shown.as_slice()));
    if times_in_ms {
        let lines = build_synced_lines(timed, 0);
        if lines.len() == 0 && text.as_str().is_empty() {
            return None;
        }
        Some(
            LyricsCandidate {
                source: LyricsSourceKind::EmbeddedSynced,
                source_path: None,
                kind: LyricsContentKind::Synced,
                text,
                lines,
                title: String::new(),
                artist: String::new(),
                album: String::new(),
                by: String::new(),
                language,
                offset_ms: 0,
                match_score: 0,
            },
        )
    } else {
        let lines = build_unsynced_lines(shown);
        if lines.len() == 0 {
            return None;
        }
        Some(
            LyricsCandidate {
                source: LyricsSourceKind::EmbeddedSynced,
                source_path: None,
                kind: LyricsContentKind::Unsynced,
                text,
                lines,
                title: String::new(),
                artist: String::new(),
                album: String::new(),
                by: String::new(),
                language,
                offset_ms: 0,
                match_score: 0,
            },
        )
    }
}

/// Whether lyrics from `better` are preferred to lyrics from `worse` when
/// nothing else tells them apart: sidecar LRC files before sidecar text
/// files, before synced embedded lyrics, before plain embedded lyrics.
pub open spec fn source_preferred(better: LyricsSourceKind, worse: LyricsSourceKind) -> bool {
    match (better, worse) {
        (LyricsSourceKind::SidecarLrc, LyricsSourceKind::SidecarText) => true,
        (LyricsSourceKind::SidecarLrc, LyricsSourceKind::EmbeddedSynced) => true,
        (LyricsSourceKind::SidecarLrc, LyricsSourceKind::EmbeddedText) => true,
        (LyricsSourceKind::SidecarText, LyricsSourceKind::EmbeddedSynced) => true,
        (LyricsSourceKind::SidecarText, LyricsSourceKind::EmbeddedText) => true,
        (LyricsSourceKind::EmbeddedSynced, LyricsSourceKind::EmbeddedText) => true,
        _ => false,
    }
}

/// Of two candidates that differ only in their source, the one from the
/// preferred source is shown, whichever comes first.
pub proof fn law_preferred_source_is_shown(better: LyricsCandidate, worse: LyricsCandidate)
    requires
        source_preferred(better.source, worse.source),
        worse@ == (LyricsCandidateView { source: worse.source, ..better@ }),
    ensures
        preferred_index(candidate_keys(seq![better, worse])) == Some(0int),
        preferred_index(candidate_keys(seq![worse, better])) == Some(1int),
{
    reveal_with_fuel(preferred_index, 3);
    let kb = preference_key(better@);
    let kw = preference_key(worse@);
    assert(kb[0] > kw[0]);
    assert(!lex_le(kb, kw));
    assert(lex_le(kw, kb));
    let k1 = candidate_keys(seq![better, worse]);
    assert(k1 =~= seq![kb, kw]);
    assert(k1.drop_last() =~= seq![kb]);
    assert(seq![kb].drop_last() =~= Seq::<Seq<int>>::empty());
    let k2 = candidate_keys(seq![worse, better]);
    assert(k2 =~= seq![kw, kb]);
    assert(k2.drop_last() =~= seq![kw]);
    assert(seq![kw].drop_last() =~= Seq::<Seq<int>>::empty());
}

proof fn lemma_key_colon_split(key: Seq<char>, value: Seq<char>)
    requires
        !key.contains(':'),
    ensures
        first_index_of(key + seq![':'] + value, ':') == Some(key.len() as int),
        (key + seq![':'] + value).take(key.len() as int) == key,
        (key + seq![':'] + value).skip(key.len() as int + 1) == value,
{
    let t = key + seq![':'] + value;
    assert forall|k: int| 0 <= k < key.len() implies t[k] != ':' by {
        assert(t[k] == key[k]);
    }
    crate::text::lemma_first_index_of(t, ':', key.len() as int);
    assert(t.take(key.len() as int) =~= key);
    assert(t.skip(key.len() as int + 1) =~= value);
}

/// A tag `key:value` whose key reads `ti`, `ar`, `al`, `by`, `lang` or `la`
/// (trimmed, in any ASCII case) sets the title, artist, album, lyric author
/// or language to the trimmed value, and leaves every other field as it
/// was.
pub proof fn law_metadata_tags_fill_their_own_field(m: LrcMetadataView, key: Seq<char>, value: Seq<char>)
    requires
        !key.contains(':'),
    ensures
        lower_seq(trim_seq(key)) == "ti"@ ==> applied_metadata_tag(m, key + seq![':'] + value)
            == Some(LrcMetadataView { title: trim_seq(value), ..m }),
        lower_seq(trim_seq(key)) == "ar"@ ==> applied_metadata_tag(m, key + seq![':'] + value)
            == Some(LrcMetadataView { artist: trim_seq(value), ..m }),
        lower_seq(trim_seq(key)) == "al"@ ==> applied_metadata_tag(m, key + seq![':'] + value)
            == Some(LrcMetadataView { album: trim_seq(value), ..m }),
        lower_seq(trim_seq(key)) == "by"@ ==> applied_metadata_tag(m, key + seq![':'] + value)
            == Some(LrcMetadataView { by: trim_seq(value), ..m }),
        lower_seq(trim_seq(key)) == "lang"@ || lower_seq(trim_seq(key)) == "la"@
            ==> applied_metadata_tag(m, key + seq![':'] + value)
            == Some(LrcMetadataView { language: trim_seq(value), ..m }),
{
    lemma_key_colon_split(key, value);
    reveal_strlit("ti");
    reveal_strlit("ar");
    reveal_strlit("al");
    reveal_strlit("by");
    reveal_strlit("lang");
    reveal_strlit("la");
    let k = lower_seq(trim_seq(key));
    if k == "ar"@ || k == "al"@ || k == "by"@ || k == "la"@ || k == "lang"@ {
        assert(k[0] != "ti"@[0] || k[1] != "ti"@[1]);
        assert(k != "ti"@);
    }
    if k == "al"@ || k == "by"@ || k == "la"@ || k == "lang"@ {
        assert(k[0] != "ar"@[0] || k[1] != "ar"@[1]);
        assert(k != "ar"@);
    }
    if k == "by"@ || k == "la"@ || k == "lang"@ {
        assert(k[0] != "al"@[0] || k[1] != "al"@[1]);
        assert(k != "al"@);
    }
    if k == "la"@ || k == "lang"@ {
        assert(k[0] != "by"@[0]);
        assert(k != "by"@);
    }
}

} // verus!
