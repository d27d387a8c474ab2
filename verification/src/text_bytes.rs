//! Reading the bytes of a text file of unknown encoding: UTF-8 with or
//! without a byte-order mark, or UTF-16 in either byte order, marked or
//! recognised by its zero bytes.
use vstd::prelude::*;
use crate::remote_url::{utf8_lossy, utf8_lossy_text};

verus! {

/// Whether `u` is a leading (high) surrogate.
pub open spec fn is_high_surrogate(u: u16) -> bool {
    0xD800 <= u && u <= 0xDBFF
}

/// Whether `u` is a trailing (low) surrogate.
pub open spec fn is_low_surrogate(u: u16) -> bool {
    0xDC00 <= u && u <= 0xDFFF
}

/// UTF-16 decoded: a surrogate pair gives the character it encodes, any
/// other surrogate gives U+FFFD, and every other unit is its character.
pub open spec fn utf16_decoded(units: Seq<u16>) -> Seq<char>
    decreases units.len(),
{
    if units.len() == 0 {
        seq![]
    } else if is_high_surrogate(units[0]) && units.len() > 1 && is_low_surrogate(units[1]) {
        seq![
            ((0x10000 + (units[0] - 0xD800) * 0x400 + (units[1] - 0xDC00)) as u32) as char,
        ] + utf16_decoded(units.skip(2))
    } else if 0xD800 <= units[0] && units[0] <= 0xDFFF {
        seq!['\u{FFFD}'] + utf16_decoded(units.drop_first())
    } else {
        seq![(units[0] as u32) as char] + utf16_decoded(units.drop_first())
    }
}

/// Decodes UTF-16, each unpaired surrogate becoming U+FFFD
/// (`String::from_utf16_lossy`). The contract states that decoding in full.
#[verifier::external_body]
fn utf16_lossy(units: &[u16]) -> (r: String)
    ensures
        r@ == utf16_decoded(units@),
{
    String::from_utf16_lossy(units)
}

/// The UTF-16 units of `bytes` taken two at a time in the given byte order;
/// a last odd byte is left out.
pub open spec fn utf16_units(bytes: Seq<u8>, little_endian: bool) -> Seq<u16> {
    Seq::new(
        bytes.len() / 2,
        |k: int|
            if little_endian {
                (bytes[2 * k] + bytes[2 * k + 1] * 256) as u16
            } else {
                (bytes[2 * k] * 256 + bytes[2 * k + 1]) as u16
            },
    )
}

/// Decodes `bytes` as UTF-16 in the given byte order, ignoring a last odd
/// byte.
pub fn decode_utf16_bytes(bytes: &[u8], little_endian: bool) -> (r: String)
    ensures
        r@ == utf16_decoded(utf16_units(bytes@, little_endian)),
{
    let ghost want = utf16_units(bytes@, little_endian);
    let mut units: Vec<u16> = Vec::new();
    let mut k: usize = 0;
    let len = bytes.len();
    let n = len / 2;
    while k < n
        invariant
            k <= n == bytes@.len() / 2,
            len == bytes@.len(),
            want == utf16_units(bytes@, little_endian),
            units@ == want.take(k as int),
        decreases n - k,
    {
        assert(2 * k + 1 < len) by (nonlinear_arith)
            requires
                k < len / 2,
        ;
        let a = bytes[2 * k] as u16;
        let b = bytes[2 * k + 1] as u16;
        let unit: u16 = if little_endian {
            a + b * 256
        } else {
            a * 256 + b
        };
        units.push(unit);
        assert(want.take(k + 1) =~= want.take(k as int).push(want[k as int]));
        k += 1;
    }
    assert(want.take(n as int) =~= want);
    utf16_lossy(units.as_slice())
}


/// How many zero bytes `bytes` has at positions of the given parity.
pub open spec fn zeros_at_parity(bytes: Seq<u8>, parity: int) -> nat
    decreases bytes.len(),
{
    if bytes.len() == 0 {
        0
    } else {
        zeros_at_parity(bytes.drop_last(), parity) + if (bytes.len() - 1) % 2 == parity
            && bytes.last() == 0 {
            1nat
        } else {
            0nat
        }
    }
}

/// Whether unmarked bytes look like UTF-16, and in which byte order (`true`
/// for little-endian): an even number of at least two bytes, with at least
/// an eighth of their number of zero bytes at even or at odd positions;
/// little-endian when the odd positions hold at least as many zeros.
pub open spec fn heuristic_utf16_order(bytes: Seq<u8>) -> Option<bool> {
    if bytes.len() < 2 || bytes.len() % 2 != 0 {
        None
    } else {
        let even = zeros_at_parity(bytes, 0);
        let odd = zeros_at_parity(bytes, 1);
        let threshold = bytes.len() / 8;
        if even < threshold && odd < threshold {
            None
        } else {
            Some(odd >= even)
        }
    }
}

/// The text of unmarked bytes that look like UTF-16 (see
/// `heuristic_utf16_order`).
pub fn decode_heuristic_utf16(bytes: &[u8]) -> (r: Option<String>)
    ensures
        match heuristic_utf16_order(bytes@) {
            Some(le) => r is Some && r->0@ == utf16_decoded(utf16_units(bytes@, le)),
            None => r is None,
        },
{
    let n = bytes.len();
    if n < 2 || n % 2 != 0 {
        return None;
    }
    let mut even: usize = 0;
    let mut odd: usize = 0;
    let mut i: usize = 0;
    assert(bytes@.take(0) =~= Seq::<u8>::empty());
    while i < n
        invariant
            i <= n == bytes@.len(),
            even == zeros_at_parity(bytes@.take(i as int), 0),
            odd == zeros_at_parity(bytes@.take(i as int), 1),
            even + odd <= i,
        decreases n - i,
    {
        assert(bytes@.take(i + 1).drop_last() =~= bytes@.take(i as int));
        assert(bytes@.take(i + 1).last() == bytes@[i as int]);
        if bytes[i] == 0 {
            if i % 2 == 0 {
                even += 1;
            } else {
                odd += 1;
            }
        }
        i += 1;
    }
    assert(bytes@.take(n as int) =~= bytes@);
    let threshold = n / 8;
    if even < threshold && odd < threshold {
        return None;
    }
    Some(decode_utf16_bytes(bytes, odd >= even))
}

/// Whether `bytes` begins with `prefix`.
pub open spec fn has_byte_prefix(bytes: Seq<u8>, prefix: Seq<u8>) -> bool {
    prefix.len() <= bytes.len() && bytes.take(prefix.len() as int) == prefix
}

/// The text of a file's bytes: after a UTF-8 byte-order mark, UTF-8;
/// after a UTF-16 byte-order mark, UTF-16 in the order it marks; bytes that
/// look like UTF-16, UTF-16; anything else, UTF-8. Invalid UTF-8 is
/// replaced as `String::from_utf8_lossy` does.
pub open spec fn decoded_text(bytes: Seq<u8>) -> Seq<char> {
    if has_byte_prefix(bytes, seq![0xEFu8, 0xBBu8, 0xBFu8]) {
        utf8_lossy_text(bytes.skip(3))
    } else if has_byte_prefix(bytes, seq![0xFFu8, 0xFEu8]) {
        utf16_decoded(utf16_units(bytes.skip(2), true))
    } else if has_byte_prefix(bytes, seq![0xFEu8, 0xFFu8]) {
        utf16_decoded(utf16_units(bytes.skip(2), false))
    } else {
        match heuristic_utf16_order(bytes) {
            Some(le) => utf16_decoded(utf16_units(bytes, le)),
            None => utf8_lossy_text(bytes),
        }
    }
}

/// The text of a file's bytes (see `decoded_text`).
pub fn decode_text_bytes(bytes: &[u8]) -> (r: String)
    ensures
        r@ == decoded_text(bytes@),
{
    let n = bytes.len();
    if n >= 3 && bytes[0] == 0xEF && bytes[1] == 0xBB && bytes[2] == 0xBF {
        assert(bytes@.take(3) =~= seq![0xEFu8, 0xBBu8, 0xBFu8]);
        let rest = slice_from(bytes, 3);
        return utf8_lossy(rest.as_slice());
    }
    assert(!has_byte_prefix(bytes@, seq![0xEFu8, 0xBBu8, 0xBFu8])) by {
        if has_byte_prefix(bytes@, seq![0xEFu8, 0xBBu8, 0xBFu8]) {
            assert(bytes@.take(3)[0] == bytes@[0]);
            assert(bytes@.take(3)[1] == bytes@[1]);
            assert(bytes@.take(3)[2] == bytes@[2]);
        }
    }
    if n >= 2 && bytes[0] == 0xFF && bytes[1] == 0xFE {
        assert(bytes@.take(2) =~= seq![0xFFu8, 0xFEu8]);
        let rest = slice_from(bytes, 2);
        return decode_utf16_bytes(rest.as_slice(), true);
    }
    assert(!has_byte_prefix(bytes@, seq![0xFFu8, 0xFEu8])) by {
        if has_byte_prefix(bytes@, seq![0xFFu8, 0xFEu8]) {
            assert(bytes@.take(2)[0] == bytes@[0]);
            assert(bytes@.take(2)[1] == bytes@[1]);
        }
    }
    if n >= 2 && bytes[0] == 0xFE && bytes[1] == 0xFF {
        assert(bytes@.take(2) =~= seq![0xFEu8, 0xFFu8]);
        let rest = slice_from(bytes, 2);
        return decode_utf16_bytes(rest.as_slice(), false);
    }
    assert(!has_byte_prefix(bytes@, seq![0xFEu8, 0xFFu8])) by {
        if has_byte_prefix(bytes@, seq![0xFEu8, 0xFFu8]) {
            assert(bytes@.take(2)[0] == bytes@[0]);
            assert(bytes@.take(2)[1] == bytes@[1]);
        }
    }
    match decode_heuristic_utf16(bytes) {
        Some(text) => text,
        None => utf8_lossy(bytes),
    }
}

/// The bytes of `bytes` from `start` on.
fn slice_from(bytes: &[u8], start: usize) -> (r: Vec<u8>)
    requires
        start <= bytes@.len(),
    ensures
        r@ == bytes@.skip(start as int),
{
    let mut out: Vec<u8> = Vec::new();
    let mut i = start;
    assert(bytes@.subrange(start as int, start as int) =~= Seq::<u8>::empty());
    while i < bytes.len()
        invariant
            start <= i <= bytes@.len(),
            out@ == bytes@.subrange(start as int, i as int),
        decreases bytes@.len() - i,
    {
        out.push(bytes[i]);
        assert(bytes@.subrange(start as int, i + 1) =~= bytes@.subrange(start as int, i as int).push(
            bytes@[i as int],
        ));
        i += 1;
    }
    assert(bytes@.subrange(start as int, bytes@.len() as int) =~= bytes@.skip(start as int));
    out
}

} // verus!
