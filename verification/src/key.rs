//! Key management
use vstd::prelude::*;

use rand::rngs::OsRng;
use rand::RngCore;
use secp256k1::{PublicKey as SecpPublicKey, Secp256k1, SecretKey};

use crate::error::{lemma_error_kind_of, Error, ErrorKind};

verus! {

/// The order of the group of the secp256k1 curve.
pub open spec fn secp256k1_order() -> nat {
    0xFFFF_FFFF_FFFF_FFFF_FFFF_FFFF_FFFF_FFFE_BAAE_DCE6_AF48_A03B_BFD2_5E8C_D036_4141nat
}

/// The number whose big-endian bytes are `s`.
pub open spec fn be_value(s: Seq<u8>) -> nat
    decreases s.len(),
{
    if s.len() == 0 {
        0
    } else {
        be_value(s.drop_last()) * 256 + s.last() as nat
    }
}

/// The 32 bytes of a valid secret key: read big-endian, a number that is not
/// zero and below the order of the curve.
pub open spec fn valid_secret_key(s: Seq<u8>) -> bool {
    s.len() == 32 && 0 < be_value(s) < secp256k1_order()
}

/// The compressed (33-byte) serialization of the public key of the secret key
/// `secret`, as `secp256k1` computes it.
pub uninterp spec fn secp256k1_public_key(secret: Seq<u8>) -> Seq<u8>;

/// Whether `bytes` are a valid secret key.
///
/// Calls `secp256k1::SecretKey::from_slice`, which refuses 32 bytes that read
/// big-endian as zero or as a number not below the curve order (libsecp256k1's
/// `secp256k1_ec_seckey_verify`).
#[verifier::external_body]
fn secret_key_is_valid(bytes: &[u8; 32]) -> (res: bool)
    ensures
        res == valid_secret_key(bytes@),
{
    match SecretKey::from_slice(bytes) {
        Ok(_) => true,
        Err(_) => false,
    }
}

/// The compressed serialization of the public key of `secret`.
///
/// Calls `secp256k1::PublicKey::from_secret_key` on the key that
/// `SecretKey::from_slice` makes of `secret`, and `PublicKey::serialize`. The
/// result is named, not stated: it is a function of `secret` alone.
#[verifier::external_body]
fn public_key_of(secret: &[u8; 32]) -> (res: [u8; 33])
    requires
        valid_secret_key(secret@),
    ensures
        res@ == secp256k1_public_key(secret@),
{
    let sk = SecretKey::from_slice(secret).expect("a valid secret key");
    SecpPublicKey::from_secret_key(&Secp256k1::signing_only(), &sk).serialize()
}

/// 32 bytes from the operating system's random number generator, or `None`
/// where it fails.
///
/// Calls `rand::RngCore::try_fill_bytes` on `rand::rngs::OsRng`. Nothing is
/// stated of the bytes: they are random.
#[verifier::external_body]
fn os_random_bytes() -> (res: Option<[u8; 32]>) {
    let mut bytes = [0u8; 32];
    match OsRng.try_fill_bytes(&mut bytes) {
        Ok(()) => Some(bytes),
        Err(_) => None,
    }
}

/// The error of a failed key generation.
fn key_generation_error() -> (res: Error)
    ensures
        res@ == ErrorKind::KeyGenerationError,
{
    proof {
        lemma_error_kind_of(ErrorKind::KeyGenerationError);
    }
    Error::from(ErrorKind::KeyGenerationError)
}

/// Private key used in Crypto.com Chain
pub struct PrivateKey {
    bytes: [u8; 32],
}

impl View for PrivateKey {
    type V = Seq<u8>;

    closed spec fn view(&self) -> Seq<u8> {
        self.bytes@
    }
}

impl PrivateKey {
    #[verifier::type_invariant]
    spec fn holds_valid_key(self) -> bool {
        valid_secret_key(self.bytes@)
    }

    /// Generates a new private key: random bytes from the operating system,
    /// drawn again while they are not a valid secret key. Fails with a key
    /// generation error when the random number generator fails.
    pub fn new() -> (res: Result<PrivateKey, Error>)
        ensures
            res matches Ok(k) ==> valid_secret_key(k@),
            res matches Err(e) ==> e@ == ErrorKind::KeyGenerationError,
    {
        let mut attempts: u64 = 0;
        loop
            decreases u64::MAX - attempts,
        {
            match os_random_bytes() {
                None => return Err(key_generation_error()),
                Some(bytes) => {
                    if let Some(key) = PrivateKey::from_bytes(bytes) {
                        return Ok(key);
                    }
                },
            }
            if attempts == u64::MAX {
                return Err(key_generation_error());
            }
            attempts = attempts + 1;
        }
    }

    /// The private key held by `bytes`, if they are a valid secret key.
    pub fn from_bytes(bytes: [u8; 32]) -> (res: Option<PrivateKey>)
        ensures
            res is Some <==> valid_secret_key(bytes@),
            res matches Some(k) ==> k@ == bytes@,
    {
        if secret_key_is_valid(&bytes) {
            Some(PrivateKey { bytes })
        } else {
            None
        }
    }

    /// The 32 bytes of the secret key.
    pub fn to_bytes(&self) -> (res: [u8; 32])
        ensures
            res@ == self@,
            valid_secret_key(res@),
    {
        proof {
            use_type_invariant(self);
        }
        self.bytes
    }
}

/// Public key used in Crypto.com Chain
pub struct PublicKey {
    bytes: [u8; 33],
}

impl View for PublicKey {
    type V = Seq<u8>;

    closed spec fn view(&self) -> Seq<u8> {
        self.bytes@
    }
}

/// The public key whose serialization is the public key of the secret key
/// `secret`.
pub closed spec fn public_key_of_secret(secret: Seq<u8>) -> PublicKey {
    PublicKey { bytes: choose|b: [u8; 33]| b@ == secp256k1_public_key(secret) }
}

impl PublicKey {
    /// The public key of `private_key`.
    pub fn from_private_key(private_key: &PrivateKey) -> (res: PublicKey)
        ensures
            res@ == secp256k1_public_key(private_key@),
            res == public_key_of_secret(private_key@),
    {
        broadcast use vstd::array::group_array_axioms;
        let secret = private_key.to_bytes();
        let bytes = public_key_of(&secret);
        let ghost chosen = choose|b: [u8; 33]| b@ == secp256k1_public_key(private_key@);
        assert(bytes@ == secp256k1_public_key(private_key@));
        assert(chosen =~= bytes);
        PublicKey { bytes }
    }

    /// The compressed (33-byte) serialization of the key.
    pub fn serialize(&self) -> (res: [u8; 33])
        ensures
            res@ == self@,
    {
        self.bytes
    }
}

impl<'a> From<&'a PrivateKey> for PublicKey {
    fn from(private_key: &'a PrivateKey) -> (res: PublicKey) {
        PublicKey::from_private_key(private_key)
    }
}

impl<'a> vstd::std_specs::convert::FromSpecImpl<&'a PrivateKey> for PublicKey {
    open spec fn obeys_from_spec() -> bool {
        true
    }

    open spec fn from_spec(private_key: &'a PrivateKey) -> PublicKey {
        public_key_of_secret(private_key@)
    }
}

} // verus!
