use vstd::prelude::*;

use crate::error::ResolverError;

verus! {

/// The UTF-16 code units of one character: the code point itself below
/// U+10000, a high and a low surrogate above.
pub open spec fn utf16_of_char(c: char) -> Seq<u16> {
    let v = c as u32 as int;
    if v < 0x1_0000 {
        seq![v as u16]
    } else {
        seq![(0xD800 + (v - 0x1_0000) / 0x400) as u16, (0xDC00 + (v - 0x1_0000) % 0x400) as u16]
    }
}

/// The UTF-16 encoding of a character sequence.
pub open spec fn utf16_encode(s: Seq<char>) -> Seq<u16>
    decreases s.len(),
{
    if s.len() == 0 {
        seq![]
    } else {
        utf16_of_char(s[0]) + utf16_encode(s.drop_first())
    }
}

/// A leading (high) surrogate code unit.
pub open spec fn is_high_surrogate(u: u16) -> bool {
    0xD800 <= u < 0xDC00
}

/// A trailing (low) surrogate code unit.
pub open spec fn is_low_surrogate(u: u16) -> bool {
    0xDC00 <= u < 0xE000
}

/// Lossy UTF-16 decoding: a high surrogate followed by a low one gives the
/// character they encode, any other surrogate gives U+FFFD, and every other
/// unit gives the character of its value.
pub open spec fn utf16_decode_lossy(u: Seq<u16>) -> Seq<char>
    decreases u.len(),
{
    if u.len() == 0 {
        seq![]
    } else if u.len() >= 2 && is_high_surrogate(u[0]) && is_low_surrogate(u[1]) {
        let v = 0x1_0000 + (u[0] - 0xD800) * 0x400 + (u[1] - 0xDC00);
        seq![(v as u32) as char] + utf16_decode_lossy(u.subrange(2, u.len() as int))
    } else if is_high_surrogate(u[0]) || is_low_surrogate(u[0]) {
        seq!['\u{FFFD}'] + utf16_decode_lossy(u.drop_first())
    } else {
        seq![(u[0] as u32) as char] + utf16_decode_lossy(u.drop_first())
    }
}

/// Decoding the UTF-16 encoding of a character sequence gives the sequence
/// back.
pub proof fn lemma_utf16_round_trip(t: Seq<char>)
    ensures
        utf16_decode_lossy(utf16_encode(t)) == t,
    decreases t.len(),
{
    if t.len() > 0 {
        let c = t[0];
        let e = utf16_of_char(c);
        let rest = utf16_encode(t.drop_first());
        let u = e + rest;
        assert(utf16_encode(t) == u);
        lemma_utf16_round_trip(t.drop_first());
        let v = c as u32 as int;
        if v < 0x1_0000 {
            assert(u[0] == v as u16);
            assert(u[0] as int == v);
            let w = u[0] as u32;
            assert(w == c as u32);
            vstd::utf8::char_u32_cast(c, w);
            assert(u.drop_first() =~= rest);
        } else {
            vstd::utf8::char_is_scalar(c);
            assert(v <= 0x10FFFF);
            let (q, r) = ((v - 0x1_0000) / 0x400, (v - 0x1_0000) % 0x400);
            assert(q * 0x400 + r == v - 0x1_0000);
            assert(0 <= q < 0x400 && 0 <= r < 0x400);
            assert(u[0] as int == 0xD800 + q && u[1] as int == 0xDC00 + r);
            assert(u[0] == e[0] && u[1] == e[1]);
            assert(is_high_surrogate(u[0]) && is_low_surrogate(u[1]));
            assert(0x1_0000 + (u[0] - 0xD800) * 0x400 + (u[1] - 0xDC00) == v);
            vstd::utf8::char_u32_cast(c, v as u32);
            assert(u.subrange(2, u.len() as int) =~= rest);
        }
        assert(t =~= seq![c] + t.drop_first());
    }
}

/// Relies on `String::from_utf16_lossy`, which decodes UTF-16 and replaces
/// each unpaired surrogate with U+FFFD.
#[verifier::external_body]
fn decode_lossy(units: &[u16]) -> (r: String)
    ensures
        r@ == utf16_decode_lossy(units@),
{
    String::from_utf16_lossy(units)
}

/// The little-endian `u16` stored in the two bytes of `b` from `off` on.
pub open spec fn u16_le(b: Seq<u8>, off: int) -> u16 {
    (b[off] as int + b[off + 1] as int * 0x100) as u16
}

/// The `n` little-endian code units stored in `b` from `off` on.
pub open spec fn wide_units(b: Seq<u8>, off: int, n: int) -> Seq<u16> {
    Seq::new(n as nat, |k: int| u16_le(b, off + 2 * k))
}

/// The field of `byte_length` bytes at `off` lies inside `b` and holds the
/// UTF-16 encoding of `t`.
pub open spec fn field_holds(b: Seq<u8>, off: int, byte_length: int, t: Seq<char>) -> bool {
    &&& 2 * utf16_encode(t).len() == byte_length
    &&& 0 <= off && off + byte_length <= b.len()
    &&& wide_units(b, off, utf16_encode(t).len() as int) == utf16_encode(t)
}

/// A string field of `byte_length` bytes at `off` is well formed: its length
/// is even and it lies inside `b`.
pub open spec fn wide_field_ok(b: Seq<u8>, off: int, byte_length: int) -> bool {
    byte_length % 2 == 0 && 0 <= off && off + byte_length <= b.len()
}

/// The characters of a well-formed string field.
pub open spec fn wide_field(b: Seq<u8>, off: int, byte_length: int) -> Seq<char> {
    utf16_decode_lossy(wide_units(b, off, byte_length / 2))
}

/// Decodes the UTF-16 string of `byte_length` bytes stored at `offset`.
/// An odd length, or a field that does not lie inside the blob, gives
/// `OutOfBounds`; ill-formed UTF-16 is decoded with replacement characters.
/// A field that holds the UTF-16 encoding of a string decodes to exactly that
/// string.
pub fn decode_utf16_field(blob: &[u8], offset: u32, byte_length: u32) -> (r: Result<
    String,
    ResolverError,
>)
    ensures
        match r {
            Ok(s) => wide_field_ok(blob@, offset as int, byte_length as int) && s@ == wide_field(
                blob@,
                offset as int,
                byte_length as int,
            ),
            Err(e) => !wide_field_ok(blob@, offset as int, byte_length as int) && e
                == ResolverError::OutOfBounds,
        },
        forall|t: Seq<char>|
            #[trigger] field_holds(blob@, offset as int, byte_length as int, t) ==> r is Ok
                && r->Ok_0@ == t,
{
    let len = blob.len() as u64;
    let off = offset as u64;
    if byte_length % 2 != 0 || off > len || byte_length as u64 > len - off {
        return Err(ResolverError::OutOfBounds);
    }
    let n = (byte_length / 2) as usize;
    let start = offset as usize;
    let mut units: Vec<u16> = Vec::new();
    let mut k: usize = 0;
    while k < n
        invariant
            n == byte_length / 2,
            start == offset,
            start + 2 * n <= blob.len(),
            k <= n,
            units@ == wide_units(blob@, start as int, k as int),
        decreases n - k,
    {
        let lo = blob[start + 2 * k] as u16;
        let hi = blob[start + 2 * k + 1] as u16;
        units.push(lo + hi * 0x100);
        assert(units@ =~= wide_units(blob@, start as int, k + 1));
        k = k + 1;
    }
    let s = decode_lossy(units.as_slice());
    proof {
        assert forall|t: Seq<char>|
            #[trigger] field_holds(blob@, offset as int, byte_length as int, t) implies s@ == t by {
            assert(units@ == utf16_encode(t));
            lemma_utf16_round_trip(t);
        }
    }
    Ok(s)
}

} // verus!
