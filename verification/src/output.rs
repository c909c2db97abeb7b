//! Transaction outputs.
use vstd::prelude::*;

use crate::address::{lemma_variant0_canonical, lemma_variant0_decoding, lemma_variant0_encoding, lemma_variant0_roundtrip, variant0_decode, variant0_encode, ExtendedAddr};
use crate::codec::{decode_option_u64_at, le_value, lemma_option_u64_decoding, lemma_option_u64_encoding, encode_option_u64_to, lemma_option_u64_canonical, lemma_option_u64_roundtrip, option_u64_decode, option_u64_encode, DecodeError};
use crate::coin::{coin_decode, lemma_coin_decoding, lemma_coin_encoding, coin_encode, lemma_coin_canonical, lemma_coin_roundtrip, Coin, MAX_COIN};

verus! {

/// A point in time, in seconds since the Unix epoch.
pub type Timespec = u64;

/// Tx Output composed of an address and a coin value
#[derive(Debug, Clone, PartialEq, Eq)]
pub struct TxOut {
    pub address: ExtendedAddr,
    pub value: Coin,
    pub valid_from: Option<Timespec>,
}

/// What a [`TxOut`] holds, as plain values.
#[verifier::ext_equal]
pub struct TxOutView {
    /// The root of the tree the output is locked to.
    pub address: Seq<u8>,
    /// The amount, in base units.
    pub value: u64,
    /// The time from which the output may be spent, if it is time-locked.
    pub valid_from: Option<u64>,
}

impl View for TxOut {
    type V = TxOutView;

    open spec fn view(&self) -> TxOutView {
        TxOutView { address: self.address@, value: self.value@, valid_from: self.valid_from }
    }
}

/// The outputs a [`TxOut`] can hold: a 32-byte root and an amount within the
/// supply.
pub open spec fn tx_out_wf(v: TxOutView) -> bool {
    v.address.len() == 32 && v.value <= MAX_COIN
}

/// The SCALE encoding of an output: its address, value and optional time
/// lock, one after the other.
pub open spec fn tx_out_encode(v: TxOutView) -> Seq<u8> {
    variant0_encode(v.address) + coin_encode(v.value) + option_u64_encode(v.valid_from)
}

/// What decoding an output from the front of `s` gives: the address, the
/// value and the optional time lock, the first error stopping it.
pub open spec fn tx_out_decode(s: Seq<u8>) -> Result<(TxOutView, nat), DecodeError> {
    match variant0_decode(s, 32) {
        Err(e) => Err(e),
        Ok((address, n1)) => match coin_decode(s.skip(n1 as int)) {
            Err(e) => Err(e),
            Ok((value, n2)) => match option_u64_decode(s.skip((n1 + n2) as int)) {
                Err(e) => Err(e),
                Ok((valid_from, n3)) => Ok(
                    (TxOutView { address, value, valid_from }, n1 + n2 + n3),
                ),
            },
        },
    }
}

/// An output followed by anything decodes back to itself; its encoding takes
/// 42 bytes, or 50 with a time lock.
pub proof fn lemma_tx_out_roundtrip(v: TxOutView, rest: Seq<u8>)
    requires
        tx_out_wf(v),
    ensures
        tx_out_encode(v).len() == (if v.valid_from is Some { 50nat } else { 42nat }),
        tx_out_decode(tx_out_encode(v) + rest) == Ok::<(TxOutView, nat), DecodeError>(
            (v, tx_out_encode(v).len()),
        ),
{
    let a = variant0_encode(v.address);
    let c = coin_encode(v.value);
    let o = option_u64_encode(v.valid_from);
    let s = a + c + o + rest;
    lemma_variant0_roundtrip(v.address, c + o + rest);
    lemma_coin_roundtrip(v.value, o + rest);
    lemma_option_u64_roundtrip(v.valid_from, rest);
    assert(s =~= a + (c + o + rest));
    assert(s.skip(33) =~= c + (o + rest));
    assert(s.skip(41) =~= o + rest);
    assert(tx_out_encode(v) + rest =~= s);
}

/// A successfully decoded output can be held by a [`TxOut`] and was read from
/// its own encoding.
pub proof fn lemma_tx_out_canonical(s: Seq<u8>)
    ensures
        tx_out_decode(s) matches Ok((v, n)) ==> tx_out_wf(v) && n <= s.len() && s.take(n as int)
            == tx_out_encode(v),
{
    if let Ok((v, n)) = tx_out_decode(s) {
        let (_, n1) = variant0_decode(s, 32)->Ok_0;
        let (_, n2) = coin_decode(s.skip(n1 as int))->Ok_0;
        let (_, n3) = option_u64_decode(s.skip((n1 + n2) as int))->Ok_0;
        lemma_variant0_canonical(s, 32);
        lemma_coin_canonical(s.skip(n1 as int));
        lemma_option_u64_canonical(s.skip((n1 + n2) as int));
        assert(s.take(n as int) =~= s.take(n1 as int) + s.skip(n1 as int).take(n2 as int) + s.skip(
            (n1 + n2) as int,
        ).take(n3 as int));
    }
}

/// What an output's encoding holds: the address variant byte 0, the 32
/// root bytes in order, the eight little-endian bytes of the amount, then the
/// time lock: the byte 0 alone, or the byte 1 and the eight little-endian
/// bytes of the time.
pub proof fn lemma_tx_out_encoding(v: TxOutView)
    requires
        v.address.len() == 32,
    ensures
        ({
            let e = tx_out_encode(v);
            &&& e.len() == (if v.valid_from is Some { 50nat } else { 42nat })
            &&& e[0] == 0
            &&& e.subrange(1, 33) == v.address
            &&& le_value(e.subrange(33, 41)) == v.value
            &&& v.valid_from is None ==> e[41] == 0
            &&& v.valid_from matches Some(t) ==> e[41] == 1 && le_value(e.subrange(42, 50)) == t
        }),
{
    let a = variant0_encode(v.address);
    let c = coin_encode(v.value);
    let o = option_u64_encode(v.valid_from);
    let e = tx_out_encode(v);
    lemma_variant0_encoding(v.address);
    lemma_coin_encoding(v.value);
    lemma_option_u64_encoding(v.valid_from);
    assert(e.subrange(1, 33) =~= a.skip(1));
    assert(e.subrange(33, 41) =~= c);
    assert(e.skip(41) =~= o);
    if v.valid_from is Some {
        assert(e.subrange(42, 50) =~= o.skip(1));
    }
}

/// What decoding an output reads, byte by byte: the variant byte must be 0,
/// the next 32 bytes are the root, the next eight the amount (little-endian,
/// at most the supply), then the time-lock tag (0: none; 1: the next eight
/// bytes, little-endian). The first part that is missing or wrong gives the
/// error.
pub proof fn lemma_tx_out_decoding(s: Seq<u8>)
    ensures
        s.len() == 0 ==> tx_out_decode(s) == Err::<(TxOutView, nat), DecodeError>(DecodeError::NotEnoughData),
        s.len() > 0 && s[0] != 0 ==> tx_out_decode(s) == Err::<(TxOutView, nat), DecodeError>(DecodeError::InvalidVariant),
        s.len() > 0 && s[0] == 0 && s.len() < 41 ==> tx_out_decode(s) == Err::<(TxOutView, nat), DecodeError>(DecodeError::NotEnoughData),
        s.len() >= 41 && s[0] == 0 && le_value(s.subrange(33, 41)) > MAX_COIN ==> tx_out_decode(s)
            == Err::<(TxOutView, nat), DecodeError>(DecodeError::CoinOutOfBound),
        s.len() >= 41 && s[0] == 0 && le_value(s.subrange(33, 41)) <= MAX_COIN ==> {
            let value = le_value(s.subrange(33, 41)) as u64;
            let address = s.subrange(1, 33);
            &&& s.len() == 41 ==> tx_out_decode(s) == Err::<(TxOutView, nat), DecodeError>(DecodeError::NotEnoughData)
            &&& s.len() > 41 && s[41] > 1 ==> tx_out_decode(s) == Err::<(TxOutView, nat), DecodeError>(DecodeError::InvalidOptionTag)
            &&& s.len() > 41 && s[41] == 0 ==> tx_out_decode(s) == Ok::<(TxOutView, nat), DecodeError>(
                (TxOutView { address, value, valid_from: None }, 42),
            )
            &&& s.len() > 41 && s[41] == 1 && s.len() < 50 ==> tx_out_decode(s) == Err::<(TxOutView, nat), DecodeError>(DecodeError::NotEnoughData)
            &&& s.len() >= 50 && s[41] == 1 ==> tx_out_decode(s) == Ok::<(TxOutView, nat), DecodeError>(
                (TxOutView { address, value, valid_from: Some(le_value(s.subrange(42, 50)) as u64) }, 50),
            )
        },
{
    lemma_variant0_decoding(s, 32);
    if s.len() >= 33 && s[0] == 0 {
        let s1 = s.skip(33);
        lemma_coin_decoding(s1);
        if s.len() >= 41 {
            assert(s1.take(8) =~= s.subrange(33, 41));
            let s2 = s.skip(41);
            lemma_option_u64_decoding(s2);
            assert(s.skip((33 + 8) as int) =~= s2);
            if s.len() >= 50 {
                assert(s2.subrange(1, 9) =~= s.subrange(42, 50));
            }
            if s.len() > 41 {
                assert(s2[0] == s[41]);
            }
        }
    }
}

impl TxOut {
    /// creates a TX output (mainly for testing/tools)
    pub fn new(address: ExtendedAddr, value: Coin) -> (res: Self)
        ensures
            res.address == address,
            res.value == value,
            res.valid_from == None::<Timespec>,
    {
        TxOut { address, value, valid_from: None }
    }

    /// creates a TX output with timelock
    pub fn new_with_timelock(address: ExtendedAddr, value: Coin, valid_from: Timespec) -> (res: Self)
        ensures
            res.address == address,
            res.value == value,
            res.valid_from == Some(valid_from),
    {
        TxOut { address, value, valid_from: Some(valid_from) }
    }

    /// Appends the SCALE encoding of the output to `dest`; the output is one
    /// that decoding gives back.
    pub fn encode_to(&self, dest: &mut Vec<u8>)
        ensures
            final(dest)@ == old(dest)@ + tx_out_encode(self@),
            tx_out_wf(self@),
    {
        let _amount = self.value.value();
        self.address.encode_to(dest);
        self.value.encode_to(dest);
        encode_option_u64_to(self.valid_from, dest);
        assert(dest@ =~= old(dest)@ + tx_out_encode(self@));
    }

    /// An estimate of the encoded size, for reserving space: 37 bytes, plus the
    /// size hint of the optional time lock (its tag byte and eight bytes when
    /// present).
    pub fn size_hint(&self) -> (res: usize)
        ensures
            res == 37 + (if self.valid_from is Some { 9int } else { 1int }),
    {
        let v: usize = match self.valid_from {
            Some(_) => 1 + 8,
            None => 1,
        };
        4 + 33 + v
    }

    /// Decodes an output from `input` at `pos`, giving it and the position
    /// after it.
    pub fn decode(input: &[u8], pos: usize) -> (res: Result<(TxOut, usize), DecodeError>)
        requires
            pos <= input@.len(),
        ensures
            match res {
                Ok((t, end)) => pos <= end <= input@.len() && tx_out_decode(input@.skip(pos as int))
                    == Ok::<(TxOutView, nat), DecodeError>((t@, (end - pos) as nat)),
                Err(e) => tx_out_decode(input@.skip(pos as int)) == Err::<(TxOutView, nat), DecodeError>(e),
            },
    {
        let ghost s = input@.skip(pos as int);
        let (address, p1) = match ExtendedAddr::decode(input, pos) {
            Ok(r) => r,
            Err(e) => return Err(e),
        };
        assert(input@.skip(p1 as int) =~= s.skip(p1 - pos));
        let (value, p2) = match Coin::decode(input, p1) {
            Ok(r) => r,
            Err(e) => return Err(e),
        };
        assert(input@.skip(p2 as int) =~= s.skip(p2 - pos));
        let (valid_from, p3) = match decode_option_u64_at(input, p2) {
            Ok(r) => r,
            Err(e) => return Err(e),
        };
        Ok((TxOut { address, value, valid_from }, p3))
    }
}

} // verus!
