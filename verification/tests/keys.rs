use chain_core::error::{Error, ErrorKind};
use chain_core::key::{PrivateKey, PublicKey};
use chain_core::witness::get_ecdsa_witness;

fn key_one() -> [u8; 32] {
    let mut b = [0u8; 32];
    b[31] = 1;
    b
}

const ORDER: [u8; 32] = [
    0xFF, 0xFF, 0xFF, 0xFF, 0xFF, 0xFF, 0xFF, 0xFF, 0xFF, 0xFF, 0xFF, 0xFF, 0xFF, 0xFF, 0xFF, 0xFE,
    0xBA, 0xAE, 0xDC, 0xE6, 0xAF, 0x48, 0xA0, 0x3B, 0xBF, 0xD2, 0x5E, 0x8C, 0xD0, 0x36, 0x41, 0x41,
];

#[test]
fn secret_key_range() {
    assert!(PrivateKey::from_bytes([0; 32]).is_none());
    assert!(PrivateKey::from_bytes(ORDER).is_none());
    let mut below = ORDER;
    below[31] = 0x40;
    assert!(PrivateKey::from_bytes(below).is_some());
    assert_eq!(PrivateKey::from_bytes(key_one()).unwrap().to_bytes(), key_one());
}

#[test]
fn public_key_of_one_is_the_generator() {
    let k = PrivateKey::from_bytes(key_one()).unwrap();
    let p = PublicKey::from_private_key(&k);
    let g: Vec<u8> = (0..33)
        .map(|i| {
            u8::from_str_radix(
                &"0279BE667EF9DCBBAC55A06295CE870B07029BFCDB2DCE28D959F2815B16F81798"[2 * i..2 * i + 2],
                16,
            )
            .unwrap()
        })
        .collect();
    assert_eq!(p.serialize().to_vec(), g);
    assert_eq!(PublicKey::from(&k).serialize().to_vec(), g);
}

#[test]
fn generated_keys_are_valid_and_differ() {
    let a = PrivateKey::new().unwrap();
    let b = PrivateKey::new().unwrap();
    assert!(PrivateKey::from_bytes(a.to_bytes()).is_some());
    assert_ne!(a.to_bytes(), b.to_bytes());
}

#[test]
fn witness_recovers_to_signer() {
    let k = PrivateKey::from_bytes([0x5a; 32]).unwrap();
    let txid = [0x17u8; 32];
    let w = get_ecdsa_witness(&txid, &k);
    assert!(w.recovery_id <= 3);
    assert_eq!(w, get_ecdsa_witness(&txid, &k));
    assert_ne!(w, get_ecdsa_witness(&[0x18u8; 32], &k));
    let id = secp256k1::ecdsa::RecoveryId::from_i32(w.recovery_id as i32).unwrap();
    let sig = secp256k1::ecdsa::RecoverableSignature::from_compact(&w.signature, id).unwrap();
    let secp = secp256k1::Secp256k1::new();
    let recovered = secp.recover_ecdsa(&secp256k1::Message::from_digest(txid), &sig).unwrap();
    assert_eq!(recovered.serialize(), PublicKey::from_private_key(&k).serialize());
}

#[test]
fn error_kind_roundtrip() {
    for kind in [
        ErrorKind::StorageInitializationError,
        ErrorKind::StorageError,
        ErrorKind::KeyGenerationError,
        ErrorKind::RngError,
        ErrorKind::DecryptionError,
    ] {
        assert_eq!(Error::from(kind).kind(), kind);
    }
}

#[test]
fn error_messages() {
    assert_eq!(ErrorKind::StorageInitializationError.message(), "Storage initialization error");
    assert_eq!(ErrorKind::StorageError.message(), "Storage error");
    assert_eq!(ErrorKind::KeyGenerationError.message(), "Key generation error");
    assert_eq!(ErrorKind::RngError.message(), "Random number generator error");
    assert_eq!(ErrorKind::DecryptionError.message(), "Decryption error");
    assert_eq!(Error::from(ErrorKind::StorageError).message(), "Storage error");
}

#[test]
fn error_cause_is_kept() {
    let e = Error::with_cause(ErrorKind::StorageError, String::from("disk full"));
    assert_eq!(e.kind(), ErrorKind::StorageError);
    assert_eq!(e.cause(), Some("disk full"));
    assert_eq!(Error::from(ErrorKind::RngError).cause(), None);
}
