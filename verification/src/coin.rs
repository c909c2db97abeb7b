//! Coin amounts.
use vstd::prelude::*;

use crate::codec::{decode_u64_at, le_value, lemma_u64_le_value, encode_u64_to, lemma_u64_decode_canonical, lemma_u64_decode_roundtrip, u64_decode, u64_le, DecodeError};

verus! {

/// The total supply in base units: 100 billion coins of 10^8 base units each.
pub const MAX_COIN: u64 = 10_000_000_000_000_000_000u64;

/// An amount of coins, in base units; it never exceeds [`MAX_COIN`].
#[derive(Debug, Clone, Copy, PartialEq, Eq)]
pub struct Coin(u64);

/// Why an amount is not a [`Coin`].
#[derive(Debug, Clone, Copy, PartialEq, Eq)]
pub enum CoinError {
    /// The amount exceeds the total supply.
    OutOfBound(u64),
}

impl View for Coin {
    type V = u64;

    closed spec fn view(&self) -> u64 {
        self.0
    }
}

/// The SCALE encoding of an amount: its eight little-endian bytes.
pub open spec fn coin_encode(v: u64) -> Seq<u8> {
    u64_le(v)
}

/// What decoding a coin amount from the front of `s` gives: the amount is
/// read as a `u64` and refused when it exceeds the total supply.
pub open spec fn coin_decode(s: Seq<u8>) -> Result<(u64, nat), DecodeError> {
    match u64_decode(s) {
        Ok((v, n)) => if v <= MAX_COIN {
            Ok((v, n))
        } else {
            Err(DecodeError::CoinOutOfBound)
        },
        Err(e) => Err(e),
    }
}

/// An amount within the supply, followed by anything, decodes back to itself.
pub proof fn lemma_coin_roundtrip(v: u64, rest: Seq<u8>)
    requires
        v <= MAX_COIN,
    ensures
        coin_encode(v).len() == 8,
        coin_decode(coin_encode(v) + rest) == Ok::<(u64, nat), DecodeError>((v, 8)),
{
    lemma_u64_decode_roundtrip(v, rest);
}

/// A successfully decoded amount lies within the supply and was read from its
/// own encoding.
pub proof fn lemma_coin_canonical(s: Seq<u8>)
    ensures
        coin_decode(s) matches Ok((v, n)) ==> v <= MAX_COIN && n <= s.len() && s.take(n as int)
            == coin_encode(v),
{
    lemma_u64_decode_canonical(s);
}

/// What an amount's encoding holds: its eight little-endian bytes.
pub proof fn lemma_coin_encoding(v: u64)
    ensures
        coin_encode(v).len() == 8,
        le_value(coin_encode(v)) == v,
{
    lemma_u64_le_value(v, seq![]);
}

/// What decoding an amount reads: the first eight bytes, little-endian,
/// refused when above the supply; fewer bytes are not enough data.
pub proof fn lemma_coin_decoding(s: Seq<u8>)
    ensures
        s.len() < 8 ==> coin_decode(s) == Err::<(u64, nat), DecodeError>(DecodeError::NotEnoughData),
        s.len() >= 8 && le_value(s.take(8)) > MAX_COIN ==> coin_decode(s) == Err::<(u64, nat), DecodeError>(DecodeError::CoinOutOfBound),
        s.len() >= 8 && le_value(s.take(8)) <= MAX_COIN ==> coin_decode(s) == Ok::<(u64, nat), DecodeError>((le_value(s.take(8)) as u64, 8)),
{
    lemma_u64_le_value(0, s);
}

impl Coin {
    #[verifier::type_invariant]
    spec fn within_supply(self) -> bool {
        self.0 <= MAX_COIN
    }

    /// The amount `value`, if it does not exceed the total supply.
    pub fn new(value: u64) -> (res: Result<Coin, CoinError>)
        ensures
            match res {
                Ok(c) => value <= MAX_COIN && c@ == value,
                Err(e) => value > MAX_COIN && e == CoinError::OutOfBound(value),
            },
    {
        if value <= MAX_COIN {
            Ok(Coin(value))
        } else {
            Err(CoinError::OutOfBound(value))
        }
    }

    /// No coins.
    pub fn zero() -> (res: Coin)
        ensures
            res@ == 0,
    {
        Coin(0)
    }

    /// The whole supply.
    pub fn max() -> (res: Coin)
        ensures
            res@ == MAX_COIN,
    {
        Coin(MAX_COIN)
    }

    /// The amount in base units.
    pub fn value(&self) -> (res: u64)
        ensures
            res == self@,
            res <= MAX_COIN,
    {
        proof {
            use_type_invariant(self);
        }
        self.0
    }

    /// Appends the SCALE encoding of the amount to `dest`.
    pub fn encode_to(&self, dest: &mut Vec<u8>)
        ensures
            final(dest)@ == old(dest)@ + coin_encode(self@),
    {
        encode_u64_to(self.0, dest)
    }

    /// Decodes an amount from `input` at `pos`, giving the coin and the
    /// position after it.
    pub fn decode(input: &[u8], pos: usize) -> (res: Result<(Coin, usize), DecodeError>)
        requires
            pos <= input@.len(),
        ensures
            match res {
                Ok((c, end)) => pos <= end <= input@.len() && coin_decode(input@.skip(pos as int))
                    == Ok::<(u64, nat), DecodeError>((c@, (end - pos) as nat)),
                Err(e) => coin_decode(input@.skip(pos as int)) == Err::<(u64, nat), DecodeError>(e),
            },
    {
        match decode_u64_at(input, pos) {
            None => Err(DecodeError::NotEnoughData),
            Some(v) => {
                assert(input@.len() == input.len());
                if v <= MAX_COIN {
                    Ok((Coin(v), pos + 8))
                } else {
                    Err(DecodeError::CoinOutOfBound)
                }
            },
        }
    }
}

} // verus!
