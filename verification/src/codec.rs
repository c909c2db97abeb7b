//! The SCALE primitives this crate's binary formats are built from.
//!
//! Fixed-width integers are encoded little-endian; lengths of sequences are
//! encoded as a "compact" `u32`. The integer encodings are done by
//! `parity_scale_codec`; this module gives them exact contracts.
use vstd::prelude::*;

use parity_scale_codec::{Compact, Decode, Encode};

verus! {

/// Why bytes could not be decoded.
#[derive(Debug, Clone, Copy, PartialEq, Eq)]
pub enum DecodeError {
    /// The input ended before the value was complete.
    NotEnoughData,
    /// A compact length prefix could not be read: the bytes ran out, or the
    /// value is out of range or not in its shortest form.
    BadCompactLength,
    /// The tag byte of an `Option` is neither 0 nor 1.
    InvalidOptionTag,
    /// The tag byte of an enum names none of its variants.
    InvalidVariant,
    /// A coin amount exceeds the total supply.
    CoinOutOfBound,
    /// The input is longer than a deposit transaction may be.
    InputTooLarge,
}

/// The two little-endian bytes of `v`.
pub open spec fn u16_le(v: u16) -> Seq<u8> {
    seq![v as u8, (v >> 8u16) as u8]
}

/// The `u16` whose little-endian bytes are `s[0]`, `s[1]`.
pub open spec fn u16_from_le(s: Seq<u8>) -> u16 {
    ((s[0] as u16) | ((s[1] as u16) << 8u16)) as u16
}

/// The four little-endian bytes of `v`.
pub open spec fn u32_le(v: u32) -> Seq<u8> {
    seq![v as u8, (v >> 8u32) as u8, (v >> 16u32) as u8, (v >> 24u32) as u8]
}

/// The `u32` whose little-endian bytes are `s[0..4]`.
pub open spec fn u32_from_le(s: Seq<u8>) -> u32 {
    ((s[0] as u32) | ((s[1] as u32) << 8u32) | ((s[2] as u32) << 16u32) | ((s[3] as u32) << 24u32)) as u32
}

/// The eight little-endian bytes of `v`.
pub open spec fn u64_le(v: u64) -> Seq<u8> {
    seq![
        v as u8,
        (v >> 8u64) as u8,
        (v >> 16u64) as u8,
        (v >> 24u64) as u8,
        (v >> 32u64) as u8,
        (v >> 40u64) as u8,
        (v >> 48u64) as u8,
        (v >> 56u64) as u8,
    ]
}

/// The `u64` whose little-endian bytes are `s[0..8]`.
pub open spec fn u64_from_le(s: Seq<u8>) -> u64 {
    ((s[0] as u64) | ((s[1] as u64) << 8u64) | ((s[2] as u64) << 16u64) | ((s[3] as u64)
        << 24u64) | ((s[4] as u64) << 32u64) | ((s[5] as u64) << 40u64) | ((s[6] as u64)
        << 48u64) | ((s[7] as u64) << 56u64)) as u64
}

/// The SCALE encoding of a compact `u32`: one, two or four bytes holding
/// `v << 2` with the mode in the low two bits, or a marker byte `3` followed
/// by the four bytes of `v`.
pub open spec fn compact_u32_encode(v: u32) -> Seq<u8> {
    if v <= 0x3f {
        seq![(v << 2u32) as u8]
    } else if v <= 0x3fff {
        u16_le((((v as u16) << 2u16) | 1u16) as u16)
    } else if v <= 0x3fff_ffff {
        u32_le(((v << 2u32) | 2u32) as u32)
    } else {
        seq![3u8] + u32_le(v)
    }
}

/// What decoding a compact `u32` from the front of `s` gives: `None` where the
/// bytes run out, or the value is out of range or not in its shortest form.
pub open spec fn compact_u32_decode(s: Seq<u8>) -> Option<u32> {
    if s.len() == 0 {
        None
    } else if s[0] % 4 == 0 {
        Some((s[0] >> 2u8) as u32)
    } else if s[0] % 4 == 1 {
        if s.len() < 2 {
            None
        } else {
            let x = (u16_from_le(s) >> 2u16) as u16;
            if 0x3f < x {
                Some(x as u32)
            } else {
                None
            }
        }
    } else if s[0] % 4 == 2 {
        if s.len() < 4 {
            None
        } else {
            let x = (u32_from_le(s) >> 2u32) as u32;
            if 0x3fff < x {
                Some(x)
            } else {
                None
            }
        }
    } else {
        if s[0] >> 2u8 != 0 || s.len() < 5 {
            None
        } else {
            let x = u32_from_le(s.drop_first());
            if 0x3fff_ffff < x {
                Some(x)
            } else {
                None
            }
        }
    }
}

/// The number of bytes the compact encoding of `v` takes.
pub open spec fn compact_u32_len(v: u32) -> nat {
    if v <= 0x3f {
        1
    } else if v <= 0x3fff {
        2
    } else if v <= 0x3fff_ffff {
        4
    } else {
        5
    }
}

/// The number of bytes the compact encoding of `v` takes.
pub fn compact_u32_encoded_len(v: u32) -> (res: usize)
    ensures
        res == compact_u32_len(v),
{
    if v <= 0x3f {
        1
    } else if v <= 0x3fff {
        2
    } else if v <= 0x3fff_ffff {
        4
    } else {
        5
    }
}

/// The number whose little-endian bytes are `s`: the first byte is the least
/// significant.
pub open spec fn le_value(s: Seq<u8>) -> nat
    decreases s.len(),
{
    if s.len() == 0 {
        0
    } else {
        s[0] as nat + 256 * le_value(s.drop_first())
    }
}

/// One step of reading a little-endian number from position `i` on.
pub proof fn lemma_le_value_step(s: Seq<u8>, i: int)
    requires
        0 <= i < s.len(),
    ensures
        le_value(s.skip(i)) == s[i] as nat + 256 * le_value(s.skip(i + 1)),
{
    assert(s.skip(i).drop_first() =~= s.skip(i + 1));
}

/// The value of two little-endian bytes.
pub proof fn lemma_le_value_2(s: Seq<u8>)
    requires
        s.len() == 2,
    ensures
        le_value(s) == s[0] as nat + 256 * s[1] as nat,
{
    lemma_le_value_step(s, 0);
    lemma_le_value_step(s, 1);
    assert(s.skip(0) =~= s);
    assert(s.skip(2).len() == 0);
}

/// The value of four little-endian bytes.
pub proof fn lemma_le_value_4(s: Seq<u8>)
    requires
        s.len() == 4,
    ensures
        le_value(s) == s[0] as nat + 256 * (s[1] as nat + 256 * (s[2] as nat + 256 * s[3] as nat)),
{
    lemma_le_value_step(s, 0);
    lemma_le_value_step(s, 1);
    lemma_le_value_step(s, 2);
    lemma_le_value_step(s, 3);
    assert(s.skip(0) =~= s);
    assert(s.skip(4).len() == 0);
}

/// The value of eight little-endian bytes.
pub proof fn lemma_le_value_8(s: Seq<u8>)
    requires
        s.len() == 8,
    ensures
        le_value(s) == s[0] as nat + 256 * (s[1] as nat + 256 * (s[2] as nat + 256 * (s[3] as nat
            + 256 * (s[4] as nat + 256 * (s[5] as nat + 256 * (s[6] as nat + 256 * s[7] as nat)))))),
{
    lemma_le_value_step(s, 0);
    lemma_le_value_step(s, 1);
    lemma_le_value_step(s, 2);
    lemma_le_value_step(s, 3);
    lemma_le_value_step(s, 4);
    lemma_le_value_step(s, 5);
    lemma_le_value_step(s, 6);
    lemma_le_value_step(s, 7);
    assert(s.skip(0) =~= s);
    assert(s.skip(8).len() == 0);
}

/// The bytes written for a `u16` are its two little-endian bytes, and those
/// read for a `u16` are the first two, little-endian.
pub proof fn lemma_u16_le_value(v: u16, s: Seq<u8>)
    ensures
        u16_le(v).len() == 2,
        le_value(u16_le(v)) == v,
        s.len() >= 2 ==> u16_from_le(s) == le_value(s.take(2)),
{
    lemma_le_value_2(u16_le(v));
    assert(v as int == (v as u8) as int + 256 * (((v >> 8u16) as u8) as int)) by (bit_vector);
    if s.len() >= 2 {
        let t = s.take(2);
        lemma_le_value_2(t);
        let (b0, b1) = (s[0], s[1]);
        assert(((b0 as u16) | ((b1 as u16) << 8u16)) as u16 as int == b0 as int + 256 * (b1 as int))
            by (bit_vector);
    }
}

/// The bytes written for a `u64` are its eight little-endian bytes, and
/// those read for a `u64` are the first eight, little-endian.
pub proof fn lemma_u64_le_value(v: u64, s: Seq<u8>)
    ensures
        u64_le(v).len() == 8,
        le_value(u64_le(v)) == v,
        s.len() >= 8 ==> u64_from_le(s) == le_value(s.take(8)),
{
    lemma_le_value_8(u64_le(v));
    assert(v as int == (v as u8) as int + 256 * (((v >> 8u64) as u8) as int + 256 * (((v >> 16u64)
        as u8) as int + 256 * (((v >> 24u64) as u8) as int + 256 * (((v >> 32u64) as u8) as int
        + 256 * (((v >> 40u64) as u8) as int + 256 * (((v >> 48u64) as u8) as int + 256 * (((v
        >> 56u64) as u8) as int)))))))) by (bit_vector);
    if s.len() >= 8 {
        lemma_le_value_8(s.take(8));
        let (b0, b1, b2, b3, b4, b5, b6, b7) = (s[0], s[1], s[2], s[3], s[4], s[5], s[6], s[7]);
        assert(((b0 as u64) | ((b1 as u64) << 8u64) | ((b2 as u64) << 16u64) | ((b3 as u64)
            << 24u64) | ((b4 as u64) << 32u64) | ((b5 as u64) << 40u64) | ((b6 as u64) << 48u64)
            | ((b7 as u64) << 56u64)) as u64 as int == b0 as int + 256 * (b1 as int + 256 * (
        b2 as int + 256 * (b3 as int + 256 * (b4 as int + 256 * (b5 as int + 256 * (b6 as int
            + 256 * (b7 as int)))))))) by (bit_vector);
    }
}

/// The bytes written for a compact `u32`, by its size: a single byte
/// `4 * v` up to 63; two or four little-endian bytes holding `4 * v + 1` or
/// `4 * v + 2` up to 2^14 - 1 or 2^30 - 1; above that the byte 3 and the four
/// little-endian bytes of `v`.
pub proof fn lemma_compact_u32_value(v: u32)
    ensures
        ({
            let e = compact_u32_encode(v);
            &&& v <= 0x3f ==> e.len() == 1 && e[0] == 4 * v
            &&& 0x3f < v <= 0x3fff ==> e.len() == 2 && le_value(e) == 4 * v + 1
            &&& 0x3fff < v <= 0x3fff_ffff ==> e.len() == 4 && le_value(e) == 4 * v + 2
            &&& 0x3fff_ffff < v ==> e.len() == 5 && e[0] == 3 && le_value(e.drop_first()) == v
        }),
{
    let e = compact_u32_encode(v);
    if v <= 0x3f {
        assert(v <= 0x3f ==> ((v << 2u32) as u8) as int == 4 * v) by (bit_vector);
    } else if v <= 0x3fff {
        let w = (((v as u16) << 2u16) | 1u16) as u16;
        lemma_u16_le_value(w, seq![]);
        assert(0x3f < v <= 0x3fff ==> ((((v as u16) << 2u16) | 1u16) as u16) as int == 4 * v + 1)
            by (bit_vector);
    } else if v <= 0x3fff_ffff {
        let w = ((v << 2u32) | 2u32) as u32;
        lemma_le_value_4(e);
        assert(0x3fff < v <= 0x3fff_ffff ==> {
            let w = ((v << 2u32) | 2u32) as u32;
            &&& w as int == 4 * v + 2
            &&& w as int == (w as u8) as int + 256 * (((w >> 8u32) as u8) as int + 256 * (((w
                >> 16u32) as u8) as int + 256 * (((w >> 24u32) as u8) as int)))
        }) by (bit_vector);
    } else {
        lemma_le_value_4(e.drop_first());
        assert(e.drop_first() =~= u32_le(v));
        assert(v as int == (v as u8) as int + 256 * (((v >> 8u32) as u8) as int + 256 * (((v
            >> 16u32) as u8) as int + 256 * (((v >> 24u32) as u8) as int)))) by (bit_vector);
    }
}

/// The little-endian bytes of a `u64` decode back to it.
pub proof fn lemma_u64_le_roundtrip(v: u64)
    ensures
        u64_le(v).len() == 8,
        u64_from_le(u64_le(v)) == v,
{
    assert(((v as u8) as u64) | (((v >> 8u64) as u8) as u64) << 8u64 | (((v >> 16u64) as u8) as u64)
        << 16u64 | (((v >> 24u64) as u8) as u64) << 24u64 | (((v >> 32u64) as u8) as u64) << 32u64
        | (((v >> 40u64) as u8) as u64) << 40u64 | (((v >> 48u64) as u8) as u64) << 48u64 | (((v
        >> 56u64) as u8) as u64) << 56u64 == v) by (bit_vector);
}

/// Eight bytes read as a little-endian `u64` give those bytes back.
pub proof fn lemma_u64_from_le_roundtrip(s: Seq<u8>)
    requires
        s.len() == 8,
    ensures
        u64_le(u64_from_le(s)) == s,
{
    let (b0, b1, b2, b3, b4, b5, b6, b7) = (s[0], s[1], s[2], s[3], s[4], s[5], s[6], s[7]);
    let v = u64_from_le(s);
    assert(v == ((b0 as u64) | ((b1 as u64) << 8u64) | ((b2 as u64) << 16u64) | ((b3 as u64)
        << 24u64) | ((b4 as u64) << 32u64) | ((b5 as u64) << 40u64) | ((b6 as u64) << 48u64) | ((
    b7 as u64) << 56u64)) as u64);
    assert({
        let w = ((b0 as u64) | ((b1 as u64) << 8u64) | ((b2 as u64) << 16u64) | ((b3 as u64)
            << 24u64) | ((b4 as u64) << 32u64) | ((b5 as u64) << 40u64) | ((b6 as u64) << 48u64)
            | ((b7 as u64) << 56u64)) as u64;
        &&& w as u8 == b0
        &&& (w >> 8u64) as u8 == b1
        &&& (w >> 16u64) as u8 == b2
        &&& (w >> 24u64) as u8 == b3
        &&& (w >> 32u64) as u8 == b4
        &&& (w >> 40u64) as u8 == b5
        &&& (w >> 48u64) as u8 == b6
        &&& (w >> 56u64) as u8 == b7
    }) by (bit_vector);
    assert(u64_le(v) =~= s);
}

/// The little-endian bytes of a `u16` decode back to it, and two bytes read
/// as a `u16` give those bytes back.
pub proof fn lemma_u16_le_roundtrip(v: u16, s: Seq<u8>)
    ensures
        u16_le(v).len() == 2,
        u16_from_le(u16_le(v)) == v,
        s.len() == 2 ==> u16_le(u16_from_le(s)) == s,
{
    assert(((v as u8) as u16) | (((v >> 8u16) as u8) as u16) << 8u16 == v) by (bit_vector);
    if s.len() == 2 {
        let (b0, b1) = (s[0], s[1]);
        assert({
            let w = ((b0 as u16) | ((b1 as u16) << 8u16)) as u16;
            w as u8 == b0 && (w >> 8u16) as u8 == b1
        }) by (bit_vector);
        assert(u16_le(u16_from_le(s)) =~= s);
    }
}

/// A compact `u32` followed by anything decodes back to the value, and its
/// encoding has `compact_u32_len(v)` bytes.
pub proof fn lemma_compact_u32_roundtrip(v: u32, rest: Seq<u8>)
    ensures
        compact_u32_encode(v).len() == compact_u32_len(v),
        compact_u32_decode(compact_u32_encode(v) + rest) == Some(v),
{
    let s = compact_u32_encode(v) + rest;
    if v <= 0x3f {
        let b = (v << 2u32) as u8;
        assert(v <= 0x3f ==> ((v << 2u32) as u8) % 4 == 0 && (((v << 2u32) as u8) >> 2u8) as u32
            == v) by (bit_vector);
        assert(s[0] == b);
    } else if v <= 0x3fff {
        let w = (((v as u16) << 2u16) | 1u16) as u16;
        assert(0x3f < v <= 0x3fff ==> {
            let w = (((v as u16) << 2u16) | 1u16) as u16;
            &&& (w as u8) % 4 == 1
            &&& ((((w as u8) as u16) | ((((w >> 8u16) as u8) as u16) << 8u16)) as u16 >> 2u16) as u16
                == v as u16
        }) by (bit_vector);
        assert(s[0] == w as u8 && s[1] == (w >> 8u16) as u8);
    } else if v <= 0x3fff_ffff {
        let w = ((v << 2u32) | 2u32) as u32;
        assert(0x3fff < v <= 0x3fff_ffff ==> {
            let w = ((v << 2u32) | 2u32) as u32;
            &&& (w as u8) % 4 == 2
            &&& ((((w as u8) as u32) | ((((w >> 8u32) as u8) as u32) << 8u32) | ((((w >> 16u32) as u8) as u32) << 16u32)
                | ((((w >> 24u32) as u8) as u32) << 24u32)) as u32 >> 2u32) as u32 == v
        }) by (bit_vector);
        assert(s[0] == w as u8 && s[1] == (w >> 8u32) as u8 && s[2] == (w >> 16u32) as u8 && s[3]
            == (w >> 24u32) as u8);
    } else {
        assert(((((v as u8) as u32) | ((((v >> 8u32) as u8) as u32) << 8u32) | ((((v >> 16u32) as u8) as u32) << 16u32)
            | ((((v >> 24u32) as u8) as u32) << 24u32)) as u32) == v) by (bit_vector);
        assert((3u8) % 4 == 3 && (3u8 >> 2u8) == 0) by (bit_vector);
        assert(s.drop_first()[0] == v as u8 && s.drop_first()[1] == (v >> 8u32) as u8
            && s.drop_first()[2] == (v >> 16u32) as u8 && s.drop_first()[3] == (v >> 24u32) as u8);
    }
}

/// A successfully decoded compact `u32` was read from exactly its own
/// encoding: the value is in shortest form.
pub proof fn lemma_compact_u32_canonical(s: Seq<u8>)
    ensures
        compact_u32_decode(s) matches Some(v) ==> {
            &&& compact_u32_len(v) <= s.len()
            &&& s.take(compact_u32_len(v) as int) == compact_u32_encode(v)
        },
{
    if let Some(v) = compact_u32_decode(s) {
        let b0 = s[0];
        if b0 % 4 == 0 {
            assert(b0 % 4 == 0 ==> (b0 >> 2u8) as u32 <= 0x3f && (((b0 >> 2u8) as u32) << 2u32) as u8
                == b0) by (bit_vector);
        } else if b0 % 4 == 1 {
            let b1 = s[1];
            assert(b0 % 4 == 1 ==> {
                let x = (((b0 as u16) | ((b1 as u16) << 8u16)) as u16 >> 2u16) as u16;
                let w = (((x as u32) as u16) << 2u16 | 1u16) as u16;
                &&& x <= 0x3fff
                &&& w as u8 == b0
                &&& (w >> 8u16) as u8 == b1
            }) by (bit_vector);
        } else if b0 % 4 == 2 {
            let (b1, b2, b3) = (s[1], s[2], s[3]);
            assert(b0 % 4 == 2 ==> {
                let x = (((b0 as u32) | ((b1 as u32) << 8u32) | ((b2 as u32) << 16u32) | ((b3 as u32)
                    << 24u32)) as u32 >> 2u32) as u32;
                let w = ((x << 2u32) | 2u32) as u32;
                &&& x <= 0x3fff_ffff
                &&& w as u8 == b0
                &&& (w >> 8u32) as u8 == b1
                &&& (w >> 16u32) as u8 == b2
                &&& (w >> 24u32) as u8 == b3
            }) by (bit_vector);
        } else {
            let (b1, b2, b3, b4) = (s[1], s[2], s[3], s[4]);
            assert(b0 % 4 == 3 && b0 >> 2u8 == 0 ==> b0 == 3) by (bit_vector);
            assert({
                let x = ((b1 as u32) | ((b2 as u32) << 8u32) | ((b3 as u32) << 16u32) | ((b4 as u32)
                    << 24u32)) as u32;
                &&& x as u8 == b1
                &&& (x >> 8u32) as u8 == b2
                &&& (x >> 16u32) as u8 == b3
                &&& (x >> 24u32) as u8 == b4
            }) by (bit_vector);
        }
        assert(s.take(compact_u32_len(v) as int) =~= compact_u32_encode(v));
    }
}

/// What decoding a `u64` from the front of `s` gives, with the number of
/// bytes it takes.
pub open spec fn u64_decode(s: Seq<u8>) -> Result<(u64, nat), DecodeError> {
    if s.len() >= 8 {
        Ok((u64_from_le(s), 8))
    } else {
        Err(DecodeError::NotEnoughData)
    }
}

/// The SCALE encoding of an optional `u64`: a tag byte 0 for `None`, or 1
/// followed by the value.
pub open spec fn option_u64_encode(o: Option<u64>) -> Seq<u8> {
    match o {
        None => seq![0u8],
        Some(v) => seq![1u8] + u64_le(v),
    }
}

/// What decoding an optional `u64` from the front of `s` gives, with the
/// number of bytes it takes.
pub open spec fn option_u64_decode(s: Seq<u8>) -> Result<(Option<u64>, nat), DecodeError> {
    if s.len() == 0 {
        Err(DecodeError::NotEnoughData)
    } else if s[0] == 0 {
        Ok((None, 1))
    } else if s[0] == 1 {
        match u64_decode(s.drop_first()) {
            Ok((v, n)) => Ok((Some(v), n + 1)),
            Err(e) => Err(e),
        }
    } else {
        Err(DecodeError::InvalidOptionTag)
    }
}

/// A `u64` followed by anything decodes back to the value.
pub proof fn lemma_u64_decode_roundtrip(v: u64, rest: Seq<u8>)
    ensures
        u64_decode(u64_le(v) + rest) == Ok::<(u64, nat), DecodeError>((v, 8)),
{
    lemma_u64_le_roundtrip(v);
    let s = u64_le(v) + rest;
    assert(s.take(8) =~= u64_le(v));
    assert(u64_from_le(s) == u64_from_le(s.take(8)));
}

/// A successfully decoded `u64` was read from its own encoding.
pub proof fn lemma_u64_decode_canonical(s: Seq<u8>)
    ensures
        u64_decode(s) matches Ok((v, n)) ==> n <= s.len() && s.take(n as int) == u64_le(v),
{
    if s.len() >= 8 {
        lemma_u64_from_le_roundtrip(s.take(8));
        assert(u64_from_le(s) == u64_from_le(s.take(8)));
    }
}

/// An optional `u64` followed by anything decodes back to it.
pub proof fn lemma_option_u64_roundtrip(o: Option<u64>, rest: Seq<u8>)
    ensures
        option_u64_encode(o).len() == (if o is Some { 9nat } else { 1nat }),
        option_u64_decode(option_u64_encode(o) + rest) == Ok::<(Option<u64>, nat), DecodeError>(
            (o, option_u64_encode(o).len()),
        ),
{
    let s = option_u64_encode(o) + rest;
    if let Some(v) = o {
        lemma_u64_decode_roundtrip(v, rest);
        assert(s.drop_first() =~= u64_le(v) + rest);
    }
}

/// A successfully decoded optional `u64` was read from its own encoding.
pub proof fn lemma_option_u64_canonical(s: Seq<u8>)
    ensures
        option_u64_decode(s) matches Ok((o, n)) ==> n <= s.len() && s.take(n as int)
            == option_u64_encode(o),
{
    if let Ok((o, n)) = option_u64_decode(s) {
        if let Some(v) = o {
            lemma_u64_decode_canonical(s.drop_first());
            assert(s.take(n as int) =~= seq![1u8] + s.drop_first().take(8));
        } else {
            assert(s.take(n as int) =~= seq![0u8]);
        }
    }
}

/// What an optional `u64`'s encoding holds: the byte 0 alone for `None`;
/// the byte 1, then the eight little-endian bytes of the value.
pub proof fn lemma_option_u64_encoding(o: Option<u64>)
    ensures
        o is None ==> option_u64_encode(o) == seq![0u8],
        o matches Some(v) ==> option_u64_encode(o).len() == 9 && option_u64_encode(o)[0] == 1
            && le_value(option_u64_encode(o).skip(1)) == v,
{
    if let Some(v) = o {
        lemma_u64_le_value(v, seq![]);
        assert(option_u64_encode(o).skip(1) =~= u64_le(v));
    }
}

/// What decoding an optional `u64` reads: the tag byte 0 gives `None`; the
/// tag byte 1 and eight more bytes give their little-endian value; another
/// tag is refused, and too few bytes are not enough data.
pub proof fn lemma_option_u64_decoding(s: Seq<u8>)
    ensures
        s.len() == 0 ==> option_u64_decode(s) == Err::<(Option<u64>, nat), DecodeError>(DecodeError::NotEnoughData),
        s.len() > 0 && s[0] == 0 ==> option_u64_decode(s) == Ok::<(Option<u64>, nat), DecodeError>((None, 1)),
        s.len() > 0 && s[0] > 1 ==> option_u64_decode(s) == Err::<(Option<u64>, nat), DecodeError>(DecodeError::InvalidOptionTag),
        s.len() > 0 && s[0] == 1 && s.len() < 9 ==> option_u64_decode(s) == Err::<(Option<u64>, nat), DecodeError>(DecodeError::NotEnoughData),
        s.len() >= 9 && s[0] == 1 ==> option_u64_decode(s) == Ok::<(Option<u64>, nat), DecodeError>(
            (Some(le_value(s.subrange(1, 9)) as u64), 9),
        ),
{
    if s.len() >= 9 {
        lemma_u64_le_value(0, s.drop_first());
        assert(s.drop_first().take(8) =~= s.subrange(1, 9));
    }
}

/// Appends the bytes of `a` to `dest`.
pub(crate) fn push_array<const N: usize>(dest: &mut Vec<u8>, a: &[u8; N])
    ensures
        final(dest)@ == old(dest)@ + a@,
{
    let ghost start = dest@;
    for i in 0..N
        invariant
            a@.len() == N,
            dest@ == start + a@.take(i as int),
    {
        dest.push(a[i]);
        assert(a@.take(i + 1) =~= a@.take(i as int).push(a@[i as int]));
    }
    assert(a@.take(N as int) =~= a@);
}

/// The `N` bytes of `input` from `pos` on, as an array.
pub(crate) fn read_array<const N: usize>(input: &[u8], pos: usize) -> (res: [u8; N])
    requires
        pos + N <= input@.len(),
    ensures
        res@ == input@.subrange(pos as int, pos + N),
{
    let mut a = [0u8; N];
    for i in 0..N
        invariant
            pos + N <= input@.len(),
            input@.len() == input.len(),
            a@.len() == N,
            forall|j: int| 0 <= j < i ==> a@[j] == input@[pos + j],
    {
        a[i] = input[pos + i];
    }
    assert(a@ =~= input@.subrange(pos as int, pos + N));
    a
}

/// Appends the SCALE encoding of `o` to `dest`.
pub fn encode_option_u64_to(o: Option<u64>, dest: &mut Vec<u8>)
    ensures
        final(dest)@ == old(dest)@ + option_u64_encode(o),
{
    match o {
        None => dest.push(0u8),
        Some(v) => {
            dest.push(1u8);
            encode_u64_to(v, dest);
            assert(dest@ =~= old(dest)@ + option_u64_encode(o));
        },
    }
}

/// Decodes an optional `u64` from `input` at `pos`, giving the value and the
/// position after it.
pub fn decode_option_u64_at(input: &[u8], pos: usize) -> (res: Result<(Option<u64>, usize), DecodeError>)
    requires
        pos <= input@.len(),
    ensures
        match res {
            Ok((o, end)) => pos <= end <= input@.len() && option_u64_decode(input@.skip(pos as int))
                == Ok::<(Option<u64>, nat), DecodeError>((o, (end - pos) as nat)),
            Err(e) => option_u64_decode(input@.skip(pos as int)) == Err::<(Option<u64>, nat), DecodeError>(e),
        },
{
    let s = Ghost(input@.skip(pos as int));
    if pos == input.len() {
        return Err(DecodeError::NotEnoughData);
    }
    let tag = input[pos];
    assert(s@[0] == tag);
    if tag == 0 {
        Ok((None, pos + 1))
    } else if tag == 1 {
        assert(s@.drop_first() =~= input@.skip(pos + 1));
        match decode_u64_at(input, pos + 1) {
            Some(v) => Ok((Some(v), pos + 9)),
            None => Err(DecodeError::NotEnoughData),
        }
    } else {
        Err(DecodeError::InvalidOptionTag)
    }
}

/// Appends the SCALE encoding of `v` to `dest`.
///
/// Calls `<u16 as parity_scale_codec::Encode>::encode_to`, which writes the
/// two little-endian bytes of `v`.
#[verifier::external_body]
pub(crate) fn encode_u16_to(v: u16, dest: &mut Vec<u8>)
    ensures
        final(dest)@ == old(dest)@ + u16_le(v),
{
    v.encode_to(dest)
}

/// Reads a `u16` from `input` at `pos`.
///
/// Calls `<u16 as parity_scale_codec::Decode>::decode` on the bytes from
/// `pos` on; it reads two little-endian bytes and fails when fewer remain.
#[verifier::external_body]
pub(crate) fn decode_u16_at(input: &[u8], pos: usize) -> (res: Option<u16>)
    requires
        pos <= input@.len(),
    ensures
        res == (if input@.len() - pos >= 2 {
            Some(u16_from_le(input@.skip(pos as int)))
        } else {
            None::<u16>
        }),
{
    u16::decode(&mut &input[pos..]).ok()
}

/// Appends the SCALE encoding of `v` to `dest`.
///
/// Calls `<u64 as parity_scale_codec::Encode>::encode_to`, which writes the
/// eight little-endian bytes of `v`.
#[verifier::external_body]
pub(crate) fn encode_u64_to(v: u64, dest: &mut Vec<u8>)
    ensures
        final(dest)@ == old(dest)@ + u64_le(v),
{
    v.encode_to(dest)
}

/// Reads a `u64` from `input` at `pos`.
///
/// Calls `<u64 as parity_scale_codec::Decode>::decode` on the bytes from
/// `pos` on; it reads eight little-endian bytes and fails when fewer remain.
#[verifier::external_body]
pub(crate) fn decode_u64_at(input: &[u8], pos: usize) -> (res: Option<u64>)
    requires
        pos <= input@.len(),
    ensures
        res == (if input@.len() - pos >= 8 {
            Some(u64_from_le(input@.skip(pos as int)))
        } else {
            None::<u64>
        }),
{
    u64::decode(&mut &input[pos..]).ok()
}

/// Appends the compact SCALE encoding of `v` to `dest`.
///
/// Calls `<Compact<u32> as parity_scale_codec::Encode>::encode_to`
/// (compact.rs of the crate: one, two or four bytes holding `v << 2` and the
/// mode, or the byte `3` and the four bytes of `v`).
#[verifier::external_body]
pub(crate) fn encode_compact_u32_to(v: u32, dest: &mut Vec<u8>)
    ensures
        final(dest)@ == old(dest)@ + compact_u32_encode(v),
{
    Compact(v).encode_to(dest)
}

/// Reads a compact `u32` from `input` at `pos`.
///
/// Calls `<Compact<u32> as parity_scale_codec::Decode>::decode` on the bytes
/// from `pos` on; it fails when the bytes run out, and when the value is not
/// in the range of its mode (so only the shortest form is accepted).
#[verifier::external_body]
pub(crate) fn decode_compact_u32_at(input: &[u8], pos: usize) -> (res: Option<u32>)
    requires
        pos <= input@.len(),
    ensures
        res == compact_u32_decode(input@.skip(pos as int)),
{
    match <Compact<u32>>::decode(&mut &input[pos..]) {
        Ok(c) => Some(c.0),
        Err(_) => None,
    }
}

} // verus!
