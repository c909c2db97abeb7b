//! Attributes of staked-state transactions.
use vstd::prelude::*;

use crate::codec::{decode_u64_at, le_value, lemma_u64_le_value, encode_u64_to, lemma_u64_decode_canonical, lemma_u64_decode_roundtrip, u64_decode, u64_le, DecodeError};

verus! {

/// The application version this library writes into new transactions.
pub const APP_VERSION: u64 = 0;

/// attributes in StakedState-related transactions
#[derive(Debug, Clone, Copy, PartialEq, Eq)]
pub struct StakedStateOpAttributes {
    pub chain_hex_id: u8,
    pub app_version: u64,
}

/// The SCALE encoding of attributes: the chain id byte, then the application
/// version.
pub open spec fn attributes_encode(a: StakedStateOpAttributes) -> Seq<u8> {
    seq![a.chain_hex_id] + u64_le(a.app_version)
}

/// What decoding attributes from the front of `s` gives.
pub open spec fn attributes_decode(s: Seq<u8>) -> Result<(StakedStateOpAttributes, nat), DecodeError> {
    if s.len() == 0 {
        Err(DecodeError::NotEnoughData)
    } else {
        match u64_decode(s.drop_first()) {
            Err(e) => Err(e),
            Ok((app_version, n)) => Ok(
                (StakedStateOpAttributes { chain_hex_id: s[0], app_version }, n + 1),
            ),
        }
    }
}

/// Attributes followed by anything decode back to themselves; their encoding
/// takes nine bytes.
pub proof fn lemma_attributes_roundtrip(a: StakedStateOpAttributes, rest: Seq<u8>)
    ensures
        attributes_encode(a).len() == 9,
        attributes_decode(attributes_encode(a) + rest) == Ok::<(StakedStateOpAttributes, nat), DecodeError>(
            (a, 9),
        ),
{
    lemma_u64_decode_roundtrip(a.app_version, rest);
    assert((attributes_encode(a) + rest).drop_first() =~= u64_le(a.app_version) + rest);
}

/// Successfully decoded attributes were read from their own encoding.
pub proof fn lemma_attributes_canonical(s: Seq<u8>)
    ensures
        attributes_decode(s) matches Ok((a, n)) ==> n <= s.len() && s.take(n as int)
            == attributes_encode(a),
{
    if let Ok((a, n)) = attributes_decode(s) {
        lemma_u64_decode_canonical(s.drop_first());
        assert(s.take(n as int) =~= seq![s[0]] + s.drop_first().take(8));
    }
}

/// What the encoding of attributes holds: the chain id byte, then the eight
/// little-endian bytes of the application version.
pub proof fn lemma_attributes_encoding(a: StakedStateOpAttributes)
    ensures
        attributes_encode(a).len() == 9,
        attributes_encode(a)[0] == a.chain_hex_id,
        le_value(attributes_encode(a).skip(1)) == a.app_version,
{
    lemma_u64_le_value(a.app_version, seq![]);
    assert(attributes_encode(a).skip(1) =~= u64_le(a.app_version));
}

/// What decoding attributes reads: the first byte is the chain id and the
/// next eight, little-endian, the application version; fewer than nine bytes
/// are not enough data.
pub proof fn lemma_attributes_decoding(s: Seq<u8>)
    ensures
        s.len() < 9 ==> attributes_decode(s) == Err::<(StakedStateOpAttributes, nat), DecodeError>(DecodeError::NotEnoughData),
        s.len() >= 9 ==> le_value(s.subrange(1, 9)) <= u64::MAX,
        s.len() >= 9 ==> attributes_decode(s) == Ok::<(StakedStateOpAttributes, nat), DecodeError>(
            (StakedStateOpAttributes { chain_hex_id: s[0], app_version: le_value(s.subrange(1, 9)) as u64 }, 9),
        ),
{
    if s.len() >= 9 {
        lemma_u64_le_value(0, s.drop_first());
        assert(s.drop_first().take(8) =~= s.subrange(1, 9));
    }
}

impl StakedStateOpAttributes {
    /// Attributes for the chain `chain_hex_id`, with the current
    /// application version.
    pub fn new(chain_hex_id: u8) -> (res: Self)
        ensures
            res.chain_hex_id == chain_hex_id,
            res.app_version == APP_VERSION,
    {
        StakedStateOpAttributes { chain_hex_id, app_version: APP_VERSION }
    }

    /// Appends the SCALE encoding of the attributes to `dest`.
    pub fn encode_to(&self, dest: &mut Vec<u8>)
        ensures
            final(dest)@ == old(dest)@ + attributes_encode(*self),
    {
        dest.push(self.chain_hex_id);
        encode_u64_to(self.app_version, dest);
        assert(dest@ =~= old(dest)@ + attributes_encode(*self));
    }

    /// An estimate of the encoded size, for reserving space.
    pub fn size_hint(&self) -> (res: usize)
        ensures
            res == 5,
    {
        5
    }

    /// Decodes attributes from `input` at `pos`, giving them and the position
    /// after them.
    pub fn decode(input: &[u8], pos: usize) -> (res: Result<(StakedStateOpAttributes, usize), DecodeError>)
        requires
            pos <= input@.len(),
        ensures
            match res {
                Ok((a, end)) => pos <= end <= input@.len() && attributes_decode(input@.skip(pos as int))
                    == Ok::<(StakedStateOpAttributes, nat), DecodeError>((a, (end - pos) as nat)),
                Err(e) => attributes_decode(input@.skip(pos as int)) == Err::<(StakedStateOpAttributes, nat), DecodeError>(e),
            },
    {
        let ghost s = input@.skip(pos as int);
        if pos == input.len() {
            return Err(DecodeError::NotEnoughData);
        }
        let chain_hex_id = input[pos];
        assert(s.drop_first() =~= input@.skip(pos + 1));
        match decode_u64_at(input, pos + 1) {
            Some(app_version) => Ok((StakedStateOpAttributes { chain_hex_id, app_version }, pos + 9)),
            None => Err(DecodeError::NotEnoughData),
        }
    }
}

impl Default for StakedStateOpAttributes {
    fn default() -> (res: Self)
        ensures
            res.chain_hex_id == 0,
            res.app_version == 0,
    {
        StakedStateOpAttributes { chain_hex_id: 0, app_version: 0 }
    }
}

} // verus!
