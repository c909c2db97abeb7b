use chain_core::address::{ExtendedAddr, StakedStateAddress};
use chain_core::attribute::{StakedStateOpAttributes, APP_VERSION};
use chain_core::codec::{decode_option_u64_at, encode_option_u64_to, DecodeError};
use chain_core::coin::{Coin, CoinError, MAX_COIN};
use chain_core::deposit::{DepositBondTx, MAX_DEPOSIT_TX_SIZE};
use chain_core::input::TxoPointer;
use chain_core::output::TxOut;

fn coin(v: u64) -> Coin {
    Coin::new(v).unwrap()
}

fn pointer(b: u8, index: u16) -> TxoPointer {
    TxoPointer { id: [b; 32], index }
}

fn deposit(n: usize) -> DepositBondTx {
    let inputs = (0..n).map(|i| pointer(i as u8, i as u16)).collect();
    DepositBondTx::new(
        inputs,
        StakedStateAddress::BasicRedeem([0x11; 20]),
        StakedStateOpAttributes::new(0xab),
    )
}

fn encode_deposit(tx: &DepositBondTx) -> Vec<u8> {
    let mut out = Vec::new();
    tx.encode_to(&mut out);
    out
}

#[test]
fn coin_bounds() {
    assert_eq!(Coin::new(MAX_COIN).unwrap().value(), MAX_COIN);
    assert_eq!(Coin::new(MAX_COIN + 1), Err(CoinError::OutOfBound(MAX_COIN + 1)));
    assert_eq!(Coin::zero().value(), 0);
    assert_eq!(Coin::max().value(), 10_000_000_000_000_000_000);
}

#[test]
fn coin_decode_refuses_amounts_above_supply() {
    let bytes = (MAX_COIN + 1).to_le_bytes();
    assert_eq!(Coin::decode(&bytes, 0), Err(DecodeError::CoinOutOfBound));
    let bytes = MAX_COIN.to_le_bytes();
    assert_eq!(Coin::decode(&bytes, 0), Ok((coin(MAX_COIN), 8)));
    assert_eq!(Coin::decode(&bytes[..7], 0), Err(DecodeError::NotEnoughData));
}

#[test]
fn coin_encoding_is_little_endian() {
    let mut out = vec![0xff];
    coin(0x0102_0304_0506_0708).encode_to(&mut out);
    assert_eq!(out, vec![0xff, 8, 7, 6, 5, 4, 3, 2, 1]);
}

#[test]
fn option_encoding() {
    let mut out = Vec::new();
    encode_option_u64_to(None, &mut out);
    encode_option_u64_to(Some(0x0a0b), &mut out);
    assert_eq!(out, vec![0, 1, 0x0b, 0x0a, 0, 0, 0, 0, 0, 0]);
    assert_eq!(decode_option_u64_at(&out, 0), Ok((None, 1)));
    assert_eq!(decode_option_u64_at(&out, 1), Ok((Some(0x0a0b), 10)));
    assert_eq!(decode_option_u64_at(&[2], 0), Err(DecodeError::InvalidOptionTag));
    assert_eq!(decode_option_u64_at(&[1, 0], 0), Err(DecodeError::NotEnoughData));
    assert_eq!(decode_option_u64_at(&[], 0), Err(DecodeError::NotEnoughData));
}

#[test]
fn attributes_new_uses_app_version() {
    let a = StakedStateOpAttributes::new(0x2a);
    assert_eq!(a.chain_hex_id, 0x2a);
    assert_eq!(a.app_version, APP_VERSION);
    assert_eq!(a.size_hint(), 5);
    let d = StakedStateOpAttributes::default();
    assert_eq!((d.chain_hex_id, d.app_version), (0, 0));
}

#[test]
fn attributes_roundtrip() {
    let a = StakedStateOpAttributes { chain_hex_id: 0xab, app_version: 0x0102_0304_0506_0708 };
    let mut out = Vec::new();
    a.encode_to(&mut out);
    assert_eq!(out, vec![0xab, 8, 7, 6, 5, 4, 3, 2, 1]);
    out.push(0x99);
    assert_eq!(StakedStateOpAttributes::decode(&out, 0), Ok((a, 9)));
    assert_eq!(StakedStateOpAttributes::decode(&out[..5], 0), Err(DecodeError::NotEnoughData));
    assert_eq!(StakedStateOpAttributes::decode(&out, 9), Err(DecodeError::NotEnoughData));
}

#[test]
fn tx_out_constructors() {
    let addr = ExtendedAddr::OrTree([3; 32]);
    let out = TxOut::new(addr, coin(10));
    assert_eq!(out.address, addr);
    assert_eq!(out.value, coin(10));
    assert_eq!(out.valid_from, None);
    let locked = TxOut::new_with_timelock(addr, coin(10), 1234);
    assert_eq!(locked.valid_from, Some(1234));
    assert_eq!(out.size_hint(), 38);
    assert_eq!(locked.size_hint(), 46);
}

#[test]
fn tx_out_roundtrip() {
    let out = TxOut::new(ExtendedAddr::OrTree([7; 32]), coin(1000));
    let mut bytes = Vec::new();
    out.encode_to(&mut bytes);
    let mut expected = vec![0u8];
    expected.extend_from_slice(&[7; 32]);
    expected.extend_from_slice(&[0xe8, 0x03, 0, 0, 0, 0, 0, 0]);
    expected.push(0);
    assert_eq!(bytes, expected);
    assert_eq!(bytes.len(), 42);
    assert_eq!(TxOut::decode(&bytes, 0), Ok((out, 42)));

    let locked = TxOut::new_with_timelock(ExtendedAddr::OrTree([7; 32]), coin(1000), 5);
    let mut bytes = vec![0xee, 0xee];
    locked.encode_to(&mut bytes);
    assert_eq!(bytes.len(), 52);
    assert_eq!(&bytes[43..], &[1, 5, 0, 0, 0, 0, 0, 0, 0]);
    bytes.push(0x77);
    assert_eq!(TxOut::decode(&bytes, 2), Ok((locked, 52)));
}

#[test]
fn tx_out_decode_errors() {
    let out = TxOut::new(ExtendedAddr::OrTree([7; 32]), coin(1000));
    let mut bytes = Vec::new();
    out.encode_to(&mut bytes);
    // unknown address variant
    let mut bad = bytes.clone();
    bad[0] = 1;
    assert_eq!(TxOut::decode(&bad, 0), Err(DecodeError::InvalidVariant));
    // amount above the supply
    let mut bad = bytes.clone();
    bad[33..41].copy_from_slice(&u64::MAX.to_le_bytes());
    assert_eq!(TxOut::decode(&bad, 0), Err(DecodeError::CoinOutOfBound));
    // bad option tag
    let mut bad = bytes.clone();
    bad[41] = 7;
    assert_eq!(TxOut::decode(&bad, 0), Err(DecodeError::InvalidOptionTag));
    // truncated
    assert_eq!(TxOut::decode(&bytes[..41], 0), Err(DecodeError::NotEnoughData));
    assert_eq!(TxOut::decode(&bytes[..20], 0), Err(DecodeError::NotEnoughData));
    assert_eq!(TxOut::decode(&[], 0), Err(DecodeError::NotEnoughData));
}

#[test]
fn txo_pointer_roundtrip() {
    let p = pointer(9, 0x0102);
    let mut bytes = Vec::new();
    p.encode_to(&mut bytes);
    assert_eq!(bytes.len(), 34);
    assert_eq!(&bytes[32..], &[2, 1]);
    assert_eq!(TxoPointer::decode(&bytes, 0), Ok((p, 34)));
    assert_eq!(TxoPointer::decode(&bytes[..33], 0), Err(DecodeError::NotEnoughData));
}

#[test]
fn staked_address_roundtrip() {
    let a = StakedStateAddress::BasicRedeem([0x42; 20]);
    let mut bytes = Vec::new();
    a.encode_to(&mut bytes);
    assert_eq!(bytes.len(), 21);
    assert_eq!(bytes[0], 0);
    assert_eq!(StakedStateAddress::decode(&bytes, 0), Ok((a, 21)));
    bytes[0] = 1;
    assert_eq!(StakedStateAddress::decode(&bytes, 0), Err(DecodeError::InvalidVariant));
}

#[test]
fn deposit_new_keeps_fields() {
    let tx = deposit(3);
    assert_eq!(tx.inputs.len(), 3);
    assert_eq!(tx.inputs[2], pointer(2, 2));
    assert_eq!(tx.to_staked_account, StakedStateAddress::BasicRedeem([0x11; 20]));
    assert_eq!(tx.attributes, StakedStateOpAttributes::new(0xab));
    assert_eq!(tx.size_hint(), 4 + 34 * 3 + 26);
}

#[test]
fn deposit_roundtrip() {
    let tx = deposit(2);
    let bytes = encode_deposit(&tx);
    assert_eq!(bytes.len(), 1 + 68 + 21 + 9);
    assert_eq!(bytes[0], 2 << 2);
    assert_eq!(DepositBondTx::decode(&bytes, 0), Ok((tx, bytes.len())));

    let empty = deposit(0);
    let bytes = encode_deposit(&empty);
    assert_eq!(bytes.len(), 31);
    assert_eq!(DepositBondTx::decode(&bytes, 0), Ok((empty, 31)));
}

#[test]
fn deposit_length_prefix_takes_two_bytes_from_64_inputs() {
    let tx = deposit(64);
    let bytes = encode_deposit(&tx);
    assert_eq!(&bytes[..2], &[0x01, 0x01]);
    assert_eq!(bytes.len(), 2 + 34 * 64 + 21 + 9);
}

#[test]
fn deposit_size_limit() {
    assert_eq!(MAX_DEPOSIT_TX_SIZE, 2208);
    // 64 inputs, the most a deposit may have, fit the limit exactly
    let tx = deposit(64);
    let bytes = encode_deposit(&tx);
    assert_eq!(bytes.len(), 2208);
    assert_eq!(DepositBondTx::decode(&bytes, 0), Ok((tx, 2208)));
    // 65 inputs take 2242 bytes and are refused
    let tx = deposit(65);
    let bytes = encode_deposit(&tx);
    assert_eq!(bytes.len(), 2242);
    assert_eq!(DepositBondTx::decode(&bytes, 0), Err(DecodeError::InputTooLarge));
    // the limit counts every remaining byte, trailing ones too
    let mut bytes = encode_deposit(&deposit(1));
    bytes.resize(MAX_DEPOSIT_TX_SIZE + 1, 0);
    assert_eq!(DepositBondTx::decode(&bytes, 0), Err(DecodeError::InputTooLarge));
    bytes.truncate(MAX_DEPOSIT_TX_SIZE);
    assert_eq!(DepositBondTx::decode(&bytes, 0), Ok((deposit(1), 65)));
}

#[test]
fn deposit_decode_errors() {
    // a compact length that is not in its shortest form
    assert_eq!(DepositBondTx::decode(&[0x01, 0x00], 0), Err(DecodeError::BadCompactLength));
    assert_eq!(DepositBondTx::decode(&[], 0), Err(DecodeError::BadCompactLength));
    // two inputs announced, one present
    let mut bytes = encode_deposit(&deposit(1));
    bytes[0] = 2 << 2;
    bytes.truncate(1 + 34 + 10);
    assert_eq!(DepositBondTx::decode(&bytes, 0), Err(DecodeError::NotEnoughData));
    // bad account variant
    let mut bytes = encode_deposit(&deposit(1));
    bytes[35] = 3;
    assert_eq!(DepositBondTx::decode(&bytes, 0), Err(DecodeError::InvalidVariant));
    // truncated attributes
    let bytes = encode_deposit(&deposit(1));
    assert_eq!(DepositBondTx::decode(&bytes[..bytes.len() - 1], 0), Err(DecodeError::NotEnoughData));
}
