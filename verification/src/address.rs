//! Addresses: where outputs are locked to, and staked-state accounts.
use vstd::prelude::*;

use crate::codec::{push_array, read_array, DecodeError};

verus! {

/// The raw bytes of a redeem (account) address.
pub type RedeemAddress = [u8; 20];

/// The root of the tree of conditions that locks an output.
pub type TreeRoot = [u8; 32];

/// The address of a staked-state account.
#[derive(Debug, Clone, Copy, PartialEq, Eq)]
pub enum StakedStateAddress {
    /// An account named by its redeem address.
    BasicRedeem(RedeemAddress),
}

/// The address an output is locked to.
#[derive(Debug, Clone, Copy, PartialEq, Eq)]
pub enum ExtendedAddr {
    /// Locked by the tree of conditions with this root.
    OrTree(TreeRoot),
}

impl View for StakedStateAddress {
    type V = Seq<u8>;

    open spec fn view(&self) -> Seq<u8> {
        match self {
            StakedStateAddress::BasicRedeem(a) => a@,
        }
    }
}

impl View for ExtendedAddr {
    type V = Seq<u8>;

    open spec fn view(&self) -> Seq<u8> {
        match self {
            ExtendedAddr::OrTree(r) => r@,
        }
    }
}

/// The SCALE encoding of an enum value of variant 0 holding `bytes`: the
/// variant byte, then the bytes.
pub open spec fn variant0_encode(bytes: Seq<u8>) -> Seq<u8> {
    seq![0u8] + bytes
}

/// What decoding an enum of a single variant holding `n` bytes from the front
/// of `s` gives.
pub open spec fn variant0_decode(s: Seq<u8>, n: nat) -> Result<(Seq<u8>, nat), DecodeError> {
    if s.len() == 0 {
        Err(DecodeError::NotEnoughData)
    } else if s[0] != 0 {
        Err(DecodeError::InvalidVariant)
    } else if s.len() < n + 1 {
        Err(DecodeError::NotEnoughData)
    } else {
        Ok((s.subrange(1, n + 1 as int), n + 1))
    }
}

/// A value of the single variant followed by anything decodes back to itself.
pub proof fn lemma_variant0_roundtrip(bytes: Seq<u8>, rest: Seq<u8>)
    ensures
        variant0_encode(bytes).len() == bytes.len() + 1,
        variant0_decode(variant0_encode(bytes) + rest, bytes.len()) == Ok::<(Seq<u8>, nat), DecodeError>(
            (bytes, bytes.len() + 1),
        ),
{
    let s = variant0_encode(bytes) + rest;
    assert(s.subrange(1, bytes.len() + 1 as int) =~= bytes);
}

/// A successfully decoded value was read from its own encoding.
pub proof fn lemma_variant0_canonical(s: Seq<u8>, n: nat)
    ensures
        variant0_decode(s, n) matches Ok((b, k)) ==> b.len() == n && k <= s.len() && s.take(k as int)
            == variant0_encode(b),
{
    if let Ok((b, k)) = variant0_decode(s, n) {
        assert(s.take(k as int) =~= variant0_encode(b));
    }
}

/// What an address's encoding holds: the variant byte 0, then the address
/// bytes in order.
pub proof fn lemma_variant0_encoding(bytes: Seq<u8>)
    ensures
        variant0_encode(bytes).len() == bytes.len() + 1,
        variant0_encode(bytes)[0] == 0,
        variant0_encode(bytes).skip(1) == bytes,
{
    assert(variant0_encode(bytes).skip(1) =~= bytes);
}

/// What decoding an address of `n` bytes reads: it succeeds exactly when the
/// first byte is the variant byte 0 and `n` bytes follow, giving those bytes
/// in order; another first byte is an unknown variant, and too few bytes are
/// not enough data.
pub proof fn lemma_variant0_decoding(s: Seq<u8>, n: nat)
    ensures
        s.len() == 0 ==> variant0_decode(s, n) == Err::<(Seq<u8>, nat), DecodeError>(DecodeError::NotEnoughData),
        s.len() > 0 && s[0] != 0 ==> variant0_decode(s, n) == Err::<(Seq<u8>, nat), DecodeError>(DecodeError::InvalidVariant),
        s.len() > 0 && s[0] == 0 && s.len() < n + 1 ==> variant0_decode(s, n) == Err::<(Seq<u8>, nat), DecodeError>(DecodeError::NotEnoughData),
        s.len() >= n + 1 && s[0] == 0 ==> variant0_decode(s, n) == Ok::<(Seq<u8>, nat), DecodeError>((s.subrange(1, n + 1 as int), n + 1)),
{
}

/// Decodes the variant byte and the `N` bytes of a single-variant enum from
/// `input` at `pos`.
fn decode_variant0<const N: usize>(input: &[u8], pos: usize) -> (res: Result<([u8; N], usize), DecodeError>)
    requires
        pos <= input@.len(),
    ensures
        match res {
            Ok((b, end)) => pos <= end <= input@.len() && variant0_decode(input@.skip(pos as int), N as nat)
                == Ok::<(Seq<u8>, nat), DecodeError>((b@, (end - pos) as nat)),
            Err(e) => variant0_decode(input@.skip(pos as int), N as nat) == Err::<(Seq<u8>, nat), DecodeError>(e),
        },
{
    let ghost s = input@.skip(pos as int);
    if pos == input.len() {
        return Err(DecodeError::NotEnoughData);
    }
    if input[pos] != 0 {
        return Err(DecodeError::InvalidVariant);
    }
    if input.len() - pos - 1 < N {
        return Err(DecodeError::NotEnoughData);
    }
    let b: [u8; N] = read_array(input, pos + 1);
    assert(b@ =~= s.subrange(1, N + 1));
    Ok((b, pos + 1 + N))
}

impl StakedStateAddress {
    /// Appends the SCALE encoding of the address to `dest`.
    pub fn encode_to(&self, dest: &mut Vec<u8>)
        ensures
            final(dest)@ == old(dest)@ + variant0_encode(self@),
    {
        match self {
            StakedStateAddress::BasicRedeem(a) => {
                dest.push(0u8);
                push_array(dest, a);
                assert(dest@ =~= old(dest)@ + variant0_encode(self@));
            },
        }
    }

    /// Decodes an address from `input` at `pos`, giving it and the position
    /// after it.
    pub fn decode(input: &[u8], pos: usize) -> (res: Result<(StakedStateAddress, usize), DecodeError>)
        requires
            pos <= input@.len(),
        ensures
            match res {
                Ok((a, end)) => pos <= end <= input@.len() && variant0_decode(input@.skip(pos as int), 20)
                    == Ok::<(Seq<u8>, nat), DecodeError>((a@, (end - pos) as nat)),
                Err(e) => variant0_decode(input@.skip(pos as int), 20) == Err::<(Seq<u8>, nat), DecodeError>(e),
            },
    {
        match decode_variant0::<20>(input, pos) {
            Ok((b, end)) => Ok((StakedStateAddress::BasicRedeem(b), end)),
            Err(e) => Err(e),
        }
    }
}

impl ExtendedAddr {
    /// Appends the SCALE encoding of the address to `dest`.
    pub fn encode_to(&self, dest: &mut Vec<u8>)
        ensures
            final(dest)@ == old(dest)@ + variant0_encode(self@),
    {
        match self {
            ExtendedAddr::OrTree(r) => {
                dest.push(0u8);
                push_array(dest, r);
                assert(dest@ =~= old(dest)@ + variant0_encode(self@));
            },
        }
    }

    /// Decodes an address from `input` at `pos`, giving it and the position
    /// after it.
    pub fn decode(input: &[u8], pos: usize) -> (res: Result<(ExtendedAddr, usize), DecodeError>)
        requires
            pos <= input@.len(),
        ensures
            match res {
                Ok((a, end)) => pos <= end <= input@.len() && variant0_decode(input@.skip(pos as int), 32)
                    == Ok::<(Seq<u8>, nat), DecodeError>((a@, (end - pos) as nat)),
                Err(e) => variant0_decode(input@.skip(pos as int), 32) == Err::<(Seq<u8>, nat), DecodeError>(e),
            },
    {
        match decode_variant0::<32>(input, pos) {
            Ok((b, end)) => Ok((ExtendedAddr::OrTree(b), end)),
            Err(e) => Err(e),
        }
    }
}

} // verus!
