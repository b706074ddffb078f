//! Variable-length integers, byte strings and text on the wire, and the
//! failures of decoding.
//!
//! An integer is written in groups of seven bits, least significant group
//! first; every byte but the last has its top bit set. A reader accepts an
//! integer with zero groups at its end, so more than one byte string reads
//! as the same value. Lengths are integers of 64 bits and take up to ten
//! bytes; variant tags are integers of 32 bits and take up to five.

use crate::primitives::string_from_utf8;
use vstd::prelude::*;
use vstd::slice::{slice_subrange, slice_to_vec};
use vstd::utf8::{
    decode_utf8, encode_utf8, encode_utf8_decode_utf8, encode_utf8_valid_utf8, valid_utf8,
};

verus! {

/// Why a byte string was refused.
#[derive(Clone, Copy, Debug, PartialEq, Eq, Structural)]
pub enum WireError {
    /// The input ended inside a value.
    UnexpectedEnd,
    /// An integer ran over its width.
    BadVarint,
    /// A string's bytes are not UTF-8.
    BadUtf8,
    /// A variant tag names no variant.
    UnknownVariant,
    /// A public key has the wrong length or is no curve point.
    InvalidKey,
    /// A frame is no byte-stuffed encoding.
    BadEncoding,
}

/// The bytes of `n`: seven bits a byte, low bits first, the top bit marking
/// that more follow.
pub open spec fn varint_encoding(n: nat) -> Seq<u8>
    decreases n,
{
    if n < 128 {
        seq![n as u8]
    } else {
        seq![(n % 128 + 128) as u8] + varint_encoding(n / 128)
    }
}

/// What reading an integer from the front of `s` gives: the value and the
/// number of bytes taken. At most `width` bytes are read, and the last of a
/// full-width encoding may not exceed `last_max`.
pub open spec fn varint_decoding(s: Seq<u8>, width: nat, last_max: int) -> Result<
    (nat, int),
    WireError,
>
    decreases width,
{
    if width == 0 {
        Err(WireError::BadVarint)
    } else if s.len() == 0 {
        Err(WireError::UnexpectedEnd)
    } else if s[0] < 128 {
        if width == 1 && s[0] > last_max {
            Err(WireError::BadVarint)
        } else {
            Ok((s[0] as nat, 1))
        }
    } else {
        match varint_decoding(s.skip(1), (width - 1) as nat, last_max) {
            Ok((v, n)) => Ok(((s[0] - 128 + 128 * v) as nat, n + 1)),
            Err(e) => Err(e),
        }
    }
}

/// The least value that no encoding of at most `width` bytes reaches.
pub open spec fn varint_bound(width: nat, last_max: int) -> int
    decreases width,
{
    if width <= 1 {
        last_max + 1
    } else {
        128 * varint_bound((width - 1) as nat, last_max)
    }
}

/// A 64-bit integer as read from the front of `s`.
pub open spec fn u64_decoding(s: Seq<u8>) -> Result<(nat, int), WireError> {
    varint_decoding(s, 10, 1)
}

/// A 32-bit integer as read from the front of `s`.
pub open spec fn u32_decoding(s: Seq<u8>) -> Result<(nat, int), WireError> {
    varint_decoding(s, 5, 15)
}

pub proof fn lemma_varint_bound_positive(width: nat, last_max: int)
    requires
        0 <= last_max,
    ensures
        varint_bound(width, last_max) >= 1,
    decreases width,
{
    if width > 1 {
        lemma_varint_bound_positive((width - 1) as nat, last_max);
    }
}

/// The bounds of the two widths in use: ten bytes hold 64 bits, five hold 32.
pub proof fn lemma_width_bounds()
    ensures
        varint_bound(10, 1) == 0x1_0000_0000_0000_0000,
        varint_bound(5, 15) == 0x1_0000_0000,
{
    reveal_with_fuel(varint_bound, 11);
}

/// A decoded value stays under the bound of its width, and takes between one
/// byte and `width` bytes, none of them beyond the input.
pub proof fn lemma_varint_decoding_bounds(s: Seq<u8>, width: nat, last_max: int)
    requires
        0 <= last_max < 128,
    ensures
        match varint_decoding(s, width, last_max) {
            Ok((v, n)) => v < varint_bound(width, last_max) && 1 <= n <= width && n <= s.len(),
            Err(_) => true,
        },
    decreases width,
{
    if width > 0 && s.len() > 0 {
        lemma_varint_bound_positive((width - 1) as nat, last_max);
        if s[0] >= 128 {
            lemma_varint_decoding_bounds(s.skip(1), (width - 1) as nat, last_max);
        }
    }
}

/// Reads an integer at `pos`, going on to at most `width` bytes.
pub(crate) fn take_varint(bytes: &[u8], pos: usize, width: u8, last_max: u8) -> (r: Result<
    (u64, usize),
    WireError,
>)
    requires
        pos <= bytes@.len(),
        last_max < 128,
        varint_bound(width as nat, last_max as int) <= 0x1_0000_0000_0000_0000,
    ensures
        match varint_decoding(bytes@.skip(pos as int), width as nat, last_max as int) {
            Ok((v, n)) => r.is_ok() && r.unwrap().0 == v && r.unwrap().1 == pos + n && pos + n
                <= bytes@.len(),
            Err(e) => r.is_err() && r.unwrap_err() == e,
        },
    decreases width,
{
    let ghost s = bytes@.skip(pos as int);
    proof {
        lemma_varint_decoding_bounds(s, width as nat, last_max as int);
    }
    if width == 0 {
        return Err(WireError::BadVarint);
    }
    if pos >= bytes.len() {
        return Err(WireError::UnexpectedEnd);
    }
    let b: u8 = bytes[pos];
    assert(s[0] == b);
    if b < 128 {
        if width == 1 && b > last_max {
            Err(WireError::BadVarint)
        } else {
            Ok((b as u64, pos + 1))
        }
    } else {
        assert(s.skip(1) =~= bytes@.skip(pos + 1));
        proof {
            lemma_varint_decoding_bounds(s.skip(1), (width - 1) as nat, last_max as int);
            lemma_varint_bound_positive((width - 1) as nat, last_max as int);
        }
        match take_varint(bytes, pos + 1, width - 1, last_max) {
            Ok((v, next)) => Ok(((b - 128) as u64 + 128 * v, next)),
            Err(e) => Err(e),
        }
    }
}

/// Appends the encoding of `n` to `out`.
pub(crate) fn put_varint(out: &mut Vec<u8>, n: u64)
    ensures
        final(out)@ == old(out)@ + varint_encoding(n as nat),
    decreases n,
{
    if n < 128 {
        out.push(n as u8);
        assert(final(out)@ =~= old(out)@ + varint_encoding(n as nat));
    } else {
        out.push((n % 128 + 128) as u8);
        put_varint(out, n / 128);
        assert(final(out)@ =~= old(out)@ + varint_encoding(n as nat));
    }
}

/// A byte string behind its length.
pub open spec fn bytes_encoding(b: Seq<u8>) -> Seq<u8> {
    varint_encoding(b.len()) + b
}

/// A length and that many bytes, read from the front of `s`: the bytes and
/// how much of `s` they took with their length.
pub open spec fn bytes_decoding(s: Seq<u8>) -> Result<(Seq<u8>, int), WireError> {
    match u64_decoding(s) {
        Err(e) => Err(e),
        Ok((len, n)) => if len > s.len() - n {
            Err(WireError::UnexpectedEnd)
        } else {
            Ok((s.subrange(n, n + len), n + len))
        },
    }
}

/// The first `len` bytes of `s`.
pub open spec fn fixed_decoding(s: Seq<u8>, len: nat) -> Result<(Seq<u8>, int), WireError> {
    if s.len() < len {
        Err(WireError::UnexpectedEnd)
    } else {
        Ok((s.subrange(0, len as int), len as int))
    }
}

/// A string as its UTF-8 bytes behind their number.
pub open spec fn string_encoding(text: Seq<char>) -> Seq<u8> {
    bytes_encoding(encode_utf8(text))
}

/// A string read from the front of `s`.
pub open spec fn string_decoding(s: Seq<u8>) -> Result<(Seq<char>, int), WireError> {
    match bytes_decoding(s) {
        Err(e) => Err(e),
        Ok((b, n)) => if valid_utf8(b) {
            Ok((decode_utf8(b), n))
        } else {
            Err(WireError::BadUtf8)
        },
    }
}

/// Reading back what was written gives the value, whatever follows it.
pub proof fn lemma_varint_round_trip(n: nat, rest: Seq<u8>, width: nat, last_max: int)
    requires
        0 <= last_max < 128,
        1 <= width,
        n < varint_bound(width, last_max),
    ensures
        varint_decoding(varint_encoding(n) + rest, width, last_max) == Ok::<
            (nat, int),
            WireError,
        >((n, varint_encoding(n).len() as int)),
    decreases n,
{
    let s = varint_encoding(n) + rest;
    assert(s[0] == varint_encoding(n)[0]);
    if n >= 128 {
        assert(s.skip(1) =~= varint_encoding(n / 128) + rest);
        lemma_varint_round_trip(n / 128, rest, (width - 1) as nat, last_max);
    }
}

/// A byte string shorter than 2^64 reads back as itself.
pub proof fn lemma_bytes_round_trip(b: Seq<u8>, rest: Seq<u8>)
    requires
        b.len() <= u64::MAX,
    ensures
        bytes_decoding(bytes_encoding(b) + rest) == Ok::<(Seq<u8>, int), WireError>(
            (b, bytes_encoding(b).len() as int),
        ),
{
    let s = bytes_encoding(b) + rest;
    let n = varint_encoding(b.len()).len() as int;
    lemma_width_bounds();
    assert(s =~= varint_encoding(b.len()) + (b + rest));
    lemma_varint_round_trip(b.len(), b + rest, 10, 1);
    assert(s.subrange(n, n + b.len()) =~= b);
}

/// A string whose UTF-8 form is shorter than 2^64 reads back as itself.
pub proof fn lemma_string_round_trip(text: Seq<char>, rest: Seq<u8>)
    requires
        encode_utf8(text).len() <= u64::MAX,
    ensures
        string_decoding(string_encoding(text) + rest) == Ok::<(Seq<char>, int), WireError>(
            (text, string_encoding(text).len() as int),
        ),
{
    lemma_bytes_round_trip(encode_utf8(text), rest);
    encode_utf8_valid_utf8(text);
    encode_utf8_decode_utf8(text);
}

/// Appends `data` to `out`.
pub(crate) fn put_slice(out: &mut Vec<u8>, data: &[u8])
    ensures
        final(out)@ == old(out)@ + data@,
{
    let mut i: usize = 0;
    while i < data.len()
        invariant
            i <= data@.len(),
            out@ == old(out)@ + data@.subrange(0, i as int),
        decreases data@.len() - i,
    {
        out.push(data[i]);
        i += 1;
        assert(out@ =~= old(out)@ + data@.subrange(0, i as int));
    }
    assert(data@.subrange(0, i as int) =~= data@);
}

/// Appends `data` behind its length.
pub(crate) fn put_bytes(out: &mut Vec<u8>, data: &[u8])
    ensures
        final(out)@ == old(out)@ + bytes_encoding(data@),
        data@.len() <= usize::MAX,
{
    put_varint(out, data.len() as u64);
    put_slice(out, data);
    assert(final(out)@ =~= old(out)@ + bytes_encoding(data@));
}

/// Appends `text` as a length-prefixed string.
pub(crate) fn put_string(out: &mut Vec<u8>, text: &str)
    ensures
        final(out)@ == old(out)@ + string_encoding(text@),
        encode_utf8(text@).len() <= usize::MAX,
{
    let data = text.as_bytes();
    assert(data@.len() == data.len());
    put_bytes(out, data);
}

/// Reads a length-prefixed byte string at `pos`.
pub(crate) fn take_bytes(bytes: &[u8], pos: usize) -> (r: Result<(Vec<u8>, usize), WireError>)
    requires
        pos <= bytes@.len(),
    ensures
        match bytes_decoding(bytes@.skip(pos as int)) {
            Ok((b, n)) => r.is_ok() && r.unwrap().0@ == b && r.unwrap().1 == pos + n && pos + n
                <= bytes@.len() && b.len() <= u64::MAX,
            Err(e) => r.is_err() && r.unwrap_err() == e,
        },
{
    let ghost s = bytes@.skip(pos as int);
    proof {
        lemma_width_bounds();
        lemma_varint_decoding_bounds(s, 10, 1);
    }
    match take_varint(bytes, pos, 10, 1) {
        Err(e) => Err(e),
        Ok((len, start)) => {
            if len > (bytes.len() - start) as u64 {
                Err(WireError::UnexpectedEnd)
            } else {
                let end: usize = start + len as usize;
                let data = slice_to_vec(slice_subrange(bytes, start, end));
                assert(s.len() == bytes@.len() - pos);
                assert(data@ =~= s.subrange(start - pos, end - pos));
                Ok((data, end))
            }
        },
    }
}

/// Reads `N` bytes at `pos`.
pub(crate) fn take_array<const N: usize>(bytes: &[u8], pos: usize) -> (r: Result<
    ([u8; N], usize),
    WireError,
>)
    requires
        pos <= bytes@.len(),
    ensures
        match fixed_decoding(bytes@.skip(pos as int), N as nat) {
            Ok((b, n)) => r.is_ok() && r.unwrap().0@ == b && r.unwrap().1 == pos + n && pos + n
                <= bytes@.len(),
            Err(e) => r.is_err() && r.unwrap_err() == e,
        },
{
    if bytes.len() - pos < N {
        return Err(WireError::UnexpectedEnd);
    }
    let mut out: [u8; N] = [0u8; N];
    let mut i: usize = 0;
    while i < N
        invariant
            i <= N,
            pos + N <= bytes@.len() <= usize::MAX,
            forall|j: int| 0 <= j < i ==> out@[j] == bytes@[pos + j],
        decreases N - i,
    {
        out[i] = bytes[pos + i];
        i += 1;
    }
    assert(out@ =~= bytes@.skip(pos as int).subrange(0, N as int));
    Ok((out, pos + N))
}

/// Reads a length-prefixed string at `pos`.
pub(crate) fn take_string(bytes: &[u8], pos: usize) -> (r: Result<(String, usize), WireError>)
    requires
        pos <= bytes@.len(),
    ensures
        match string_decoding(bytes@.skip(pos as int)) {
            Ok((t, n)) => r.is_ok() && r.unwrap().0@ == t && r.unwrap().1 == pos + n && pos + n
                <= bytes@.len(),
            Err(e) => r.is_err() && r.unwrap_err() == e,
        },
{
    match take_bytes(bytes, pos) {
        Err(e) => Err(e),
        Ok((data, next)) => match string_from_utf8(data) {
            Some(text) => Ok((text, next)),
            None => Err(WireError::BadUtf8),
        },
    }
}

} // verus!
