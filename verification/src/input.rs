//! Pointers to the outputs that transactions spend.
use vstd::prelude::*;

use crate::codec::{decode_u16_at, le_value, lemma_u16_le_value, encode_u16_to, lemma_u16_le_roundtrip, push_array, read_array, u16_from_le, u16_le, DecodeError};

verus! {

/// The id of a transaction.
pub type TxId = [u8; 32];

/// The index of an output within its transaction.
pub type TxoIndex = u16;

/// Points to the output `index` of the transaction `id`.
#[derive(Debug, Clone, Copy, PartialEq, Eq)]
pub struct TxoPointer {
    pub id: TxId,
    pub index: TxoIndex,
}

impl View for TxoPointer {
    type V = (Seq<u8>, u16);

    open spec fn view(&self) -> (Seq<u8>, u16) {
        (self.id@, self.index)
    }
}

/// The number of bytes a pointer takes, encoded: the id and the index.
pub const TXO_POINTER_SIZE: usize = 34;

/// The SCALE encoding of a pointer: the 32 bytes of the id, then the index.
pub open spec fn txo_pointer_encode(p: (Seq<u8>, u16)) -> Seq<u8> {
    p.0 + u16_le(p.1)
}

/// The pointer held by the 34 bytes `b`.
pub open spec fn txo_pointer_of(b: Seq<u8>) -> (Seq<u8>, u16) {
    (b.take(32), u16_from_le(b.skip(32)))
}

/// What decoding a pointer from the front of `s` gives.
pub open spec fn txo_pointer_decode(s: Seq<u8>) -> Result<((Seq<u8>, u16), nat), DecodeError> {
    if s.len() < TXO_POINTER_SIZE {
        Err(DecodeError::NotEnoughData)
    } else {
        Ok((txo_pointer_of(s.take(TXO_POINTER_SIZE as int)), TXO_POINTER_SIZE as nat))
    }
}

/// The encoding of a pointer with a 32-byte id is 34 bytes, which read back
/// as the pointer.
pub proof fn lemma_txo_pointer_roundtrip(p: (Seq<u8>, u16))
    requires
        p.0.len() == 32,
    ensures
        txo_pointer_encode(p).len() == TXO_POINTER_SIZE,
        txo_pointer_of(txo_pointer_encode(p)) == p,
{
    lemma_u16_le_roundtrip(p.1, seq![]);
    let e = txo_pointer_encode(p);
    assert(e.take(32) =~= p.0);
    assert(e.skip(32) =~= u16_le(p.1));
}

/// Any 34 bytes are the encoding of the pointer they hold.
pub proof fn lemma_txo_pointer_of_canonical(b: Seq<u8>)
    requires
        b.len() == TXO_POINTER_SIZE,
    ensures
        txo_pointer_of(b).0.len() == 32,
        txo_pointer_encode(txo_pointer_of(b)) == b,
{
    lemma_u16_le_roundtrip(0, b.skip(32));
    assert(txo_pointer_encode(txo_pointer_of(b)) =~= b);
}

/// What a pointer's encoding holds: the 32 id bytes in order, then the two
/// little-endian bytes of the index.
pub proof fn lemma_txo_pointer_encoding(p: (Seq<u8>, u16))
    requires
        p.0.len() == 32,
    ensures
        txo_pointer_encode(p).len() == TXO_POINTER_SIZE,
        txo_pointer_encode(p).take(32) == p.0,
        le_value(txo_pointer_encode(p).skip(32)) == p.1,
{
    lemma_u16_le_value(p.1, seq![]);
    assert(txo_pointer_encode(p).take(32) =~= p.0);
    assert(txo_pointer_encode(p).skip(32) =~= u16_le(p.1));
}

/// What decoding a pointer reads: the first 32 bytes, in order, are the id
/// and the next two, little-endian, the index; fewer than 34 bytes are not
/// enough data.
pub proof fn lemma_txo_pointer_decoding(s: Seq<u8>)
    ensures
        s.len() < TXO_POINTER_SIZE ==> txo_pointer_decode(s) == Err::<((Seq<u8>, u16), nat), DecodeError>(DecodeError::NotEnoughData),
        s.len() >= TXO_POINTER_SIZE ==> txo_pointer_decode(s) == Ok::<((Seq<u8>, u16), nat), DecodeError>(
            ((s.take(32), le_value(s.subrange(32, 34)) as u16), TXO_POINTER_SIZE as nat),
        ),
{
    if s.len() >= TXO_POINTER_SIZE {
        lemma_txo_pointer_of_value(s.take(34));
        assert(s.take(34).take(32) =~= s.take(32));
        assert(s.take(34).skip(32) =~= s.subrange(32, 34));
    }
}

/// The pointer held by 34 bytes: the id is the first 32 in order, the index
/// the last two, little-endian.
pub proof fn lemma_txo_pointer_of_value(b: Seq<u8>)
    requires
        b.len() == TXO_POINTER_SIZE,
    ensures
        txo_pointer_of(b).0 == b.take(32),
        txo_pointer_of(b).1 == le_value(b.skip(32)),
{
    lemma_u16_le_value(0, b.skip(32));
    assert(b.skip(32).take(2) =~= b.skip(32));
}

impl TxoPointer {
    /// Appends the SCALE encoding of the pointer to `dest`.
    pub fn encode_to(&self, dest: &mut Vec<u8>)
        ensures
            final(dest)@ == old(dest)@ + txo_pointer_encode(self@),
    {
        push_array(dest, &self.id);
        encode_u16_to(self.index, dest);
        assert(dest@ =~= old(dest)@ + txo_pointer_encode(self@));
    }

    /// Decodes a pointer from `input` at `pos`, giving it and the position
    /// after it.
    pub fn decode(input: &[u8], pos: usize) -> (res: Result<(TxoPointer, usize), DecodeError>)
        requires
            pos <= input@.len(),
        ensures
            match res {
                Ok((p, end)) => pos <= end <= input@.len() && txo_pointer_decode(input@.skip(pos as int))
                    == Ok::<((Seq<u8>, u16), nat), DecodeError>((p@, (end - pos) as nat)),
                Err(e) => txo_pointer_decode(input@.skip(pos as int)) == Err::<((Seq<u8>, u16), nat), DecodeError>(e),
            },
    {
        let ghost s = input@.skip(pos as int);
        if input.len() - pos < TXO_POINTER_SIZE {
            return Err(DecodeError::NotEnoughData);
        }
        let id: [u8; 32] = read_array(input, pos);
        match decode_u16_at(input, pos + 32) {
            Some(index) => {
                let p = TxoPointer { id, index };
                assert(id@ =~= s.take(34).take(32));
                assert(input@.skip(pos + 32) =~= s.take(34).skip(32) + input@.skip(pos + 34));
                assert(u16_from_le(input@.skip(pos + 32)) == u16_from_le(s.take(34).skip(32)));
                Ok((p, pos + TXO_POINTER_SIZE))
            },
            None => Err(DecodeError::NotEnoughData),
        }
    }
}

} // verus!
