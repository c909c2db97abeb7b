//! Signatures that witness transactions.
use vstd::prelude::*;

use secp256k1::{Message, Secp256k1, SecretKey};

use crate::input::TxId;
use crate::key::{valid_secret_key, PrivateKey};

verus! {

/// The recoverable ECDSA signature that `secp256k1` computes for the 32-byte
/// message `msg` with the secret key `secret` (its nonce is derived by
/// RFC 6979, so it depends on these alone): the 64 bytes of its compact
/// serialization and its recovery id.
pub uninterp spec fn secp256k1_sign_recoverable(msg: Seq<u8>, secret: Seq<u8>) -> (Seq<u8>, i32);

/// Signs the digest `msg` with `secret`.
///
/// Calls `secp256k1::Secp256k1::sign_ecdsa_recoverable` on the message that
/// `Message::from_digest` makes of `msg` and the key that
/// `SecretKey::from_slice` makes of `secret`, and
/// `RecoverableSignature::serialize_compact`. The result is named, not
/// stated; of the recovery id the contract states the range that
/// libsecp256k1 gives it (0 to 3).
#[verifier::external_body]
fn sign_recoverable(msg: &[u8; 32], secret: &[u8; 32]) -> (res: ([u8; 64], i32))
    requires
        valid_secret_key(secret@),
    ensures
        (res.0@, res.1) == secp256k1_sign_recoverable(msg@, secret@),
        0 <= res.1 <= 3,
{
    let sk = SecretKey::from_slice(secret).expect("a valid secret key");
    let sig = Secp256k1::signing_only().sign_ecdsa_recoverable(&Message::from_digest(*msg), &sk);
    let (id, bytes) = sig.serialize_compact();
    (bytes, id.to_i32())
}

/// A recoverable ECDSA signature.
#[derive(Debug, Clone, Copy, PartialEq, Eq)]
pub struct EcdsaSignature {
    /// The compact serialization: the 32 bytes of `r`, then those of `s`.
    pub signature: [u8; 64],
    /// The recovery id, from 0 to 3.
    pub recovery_id: u8,
}

/// Whether `w` is the signature of the message `txid` by the secret key
/// `secret`.
pub open spec fn is_witness_of(w: EcdsaSignature, txid: Seq<u8>, secret: Seq<u8>) -> bool {
    &&& (w.signature@, w.recovery_id as i32) == secp256k1_sign_recoverable(txid, secret)
    &&& w.recovery_id <= 3
}

/// Signing is deterministic: two signatures of the same transaction id by the
/// same key are equal.
pub proof fn lemma_witness_deterministic(txid: Seq<u8>, secret: Seq<u8>, a: EcdsaSignature, b: EcdsaSignature)
    requires
        is_witness_of(a, txid, secret),
        is_witness_of(b, txid, secret),
    ensures
        a == b,
{
    broadcast use vstd::array::group_array_axioms;
    assert(a.signature =~= b.signature);
}

/// The signature of the transaction `txid` by `secret_key`.
pub fn get_ecdsa_witness(txid: &TxId, secret_key: &PrivateKey) -> (res: EcdsaSignature)
    ensures
        is_witness_of(res, txid@, secret_key@),
{
    let secret = secret_key.to_bytes();
    let (signature, id) = sign_recoverable(txid, &secret);
    EcdsaSignature { signature, recovery_id: id as u8 }
}

} // verus!
