//! Deposit transactions: they take unspent outputs and bond their amount,
//! less the fee, to a staked-state account.
use vstd::prelude::*;

use crate::address::{lemma_variant0_canonical, lemma_variant0_decoding, lemma_variant0_encoding, lemma_variant0_roundtrip, variant0_decode, variant0_encode, StakedStateAddress};
use crate::attribute::{attributes_decode, lemma_attributes_decoding, lemma_attributes_encoding, attributes_encode, lemma_attributes_canonical, lemma_attributes_roundtrip, StakedStateOpAttributes};
use crate::codec::{compact_u32_decode, le_value, compact_u32_encode, compact_u32_encoded_len, compact_u32_len, decode_compact_u32_at, encode_compact_u32_to, lemma_compact_u32_canonical, lemma_compact_u32_roundtrip, DecodeError};
use crate::input::{lemma_txo_pointer_encoding, lemma_txo_pointer_of_canonical, lemma_txo_pointer_of_value, lemma_txo_pointer_roundtrip, txo_pointer_encode, txo_pointer_of, TxoPointer, TXO_POINTER_SIZE};

verus! {

/// The most bytes a deposit transaction may take when decoded.
///
/// Each input is 34 bytes. At most 64 inputs are allowed, so the largest
/// deposit takes a 2-byte length prefix, 34 * 64 bytes of inputs, 21 for the
/// account and 9 for the attributes: 2208 bytes.
pub const MAX_DEPOSIT_TX_SIZE: usize = 2 + 34 * 64 + 21 + 9;

/// takes UTXOs inputs, deposits them in the specified StakedState's bonded amount - fee
/// (updates StakedState's bonded + nonce)
#[derive(Debug, Clone, PartialEq, Eq)]
pub struct DepositBondTx {
    pub inputs: Vec<TxoPointer>,
    pub to_staked_account: StakedStateAddress,
    pub attributes: StakedStateOpAttributes,
}

/// What a [`DepositBondTx`] holds, as plain values.
#[verifier::ext_equal]
pub struct DepositBondTxView {
    /// The spent outputs: transaction id and output index of each.
    pub inputs: Seq<(Seq<u8>, u16)>,
    /// The redeem address of the account.
    pub to_staked_account: Seq<u8>,
    pub attributes: StakedStateOpAttributes,
}

impl View for DepositBondTx {
    type V = DepositBondTxView;

    open spec fn view(&self) -> DepositBondTxView {
        DepositBondTxView {
            inputs: self.inputs@.map_values(|p: TxoPointer| p@),
            to_staked_account: self.to_staked_account@,
            attributes: self.attributes,
        }
    }
}

/// The deposits a [`DepositBondTx`] can hold and encode: ids of 32 bytes, a
/// 20-byte account, and no more inputs than a compact `u32` can count.
pub open spec fn deposit_wf(v: DepositBondTxView) -> bool {
    &&& v.inputs.len() <= u32::MAX
    &&& forall|i: int| 0 <= i < v.inputs.len() ==> (#[trigger] v.inputs[i]).0.len() == 32
    &&& v.to_staked_account.len() == 20
}

/// The encodings of the pointers `ps`, one after the other.
pub open spec fn txo_pointers_encode(ps: Seq<(Seq<u8>, u16)>) -> Seq<u8>
    decreases ps.len(),
{
    if ps.len() == 0 {
        Seq::empty()
    } else {
        txo_pointers_encode(ps.drop_last()) + txo_pointer_encode(ps.last())
    }
}

/// What decoding `n` pointers from the front of `s` gives: each takes the
/// next 34 bytes, and decoding fails when fewer than `34 * n` bytes remain.
pub open spec fn txo_pointers_decode(s: Seq<u8>, n: nat) -> Result<(Seq<(Seq<u8>, u16)>, nat), DecodeError> {
    if s.len() < n * 34 {
        Err(DecodeError::NotEnoughData)
    } else {
        Ok(
            (
                Seq::new(n, |i: int| txo_pointer_of(s.subrange(34 * i, 34 * i + 34))),
                n * 34,
            ),
        )
    }
}

/// The SCALE encoding of a deposit: the number of inputs as a compact
/// `u32`, the inputs, the account and the attributes.
pub open spec fn deposit_encode(v: DepositBondTxView) -> Seq<u8> {
    compact_u32_encode(v.inputs.len() as u32) + txo_pointers_encode(v.inputs) + variant0_encode(
        v.to_staked_account,
    ) + attributes_encode(v.attributes)
}

/// What decoding a deposit from the front of `s` gives: refused when more
/// than [`MAX_DEPOSIT_TX_SIZE`] bytes remain; otherwise the number of inputs,
/// the inputs, the account and the attributes, the first error stopping it.
pub open spec fn deposit_decode(s: Seq<u8>) -> Result<(DepositBondTxView, nat), DecodeError> {
    if s.len() > MAX_DEPOSIT_TX_SIZE {
        Err(DecodeError::InputTooLarge)
    } else {
        match compact_u32_decode(s) {
            None => Err(DecodeError::BadCompactLength),
            Some(n) => {
                let k = compact_u32_len(n);
                match txo_pointers_decode(s.skip(k as int), n as nat) {
                    Err(e) => Err(e),
                    Ok((inputs, m1)) => match variant0_decode(s.skip((k + m1) as int), 20) {
                        Err(e) => Err(e),
                        Ok((to_staked_account, m2)) => match attributes_decode(
                            s.skip((k + m1 + m2) as int),
                        ) {
                            Err(e) => Err(e),
                            Ok((attributes, m3)) => Ok(
                                (
                                    DepositBondTxView { inputs, to_staked_account, attributes },
                                    k + m1 + m2 + m3,
                                ),
                            ),
                        },
                    },
                }
            },
        }
    }
}

/// The pointers `ps` with 32-byte ids encode to `34 * ps.len()` bytes, the
/// `i`th pointer at `34 * i`.
pub proof fn lemma_txo_pointers_layout(ps: Seq<(Seq<u8>, u16)>)
    requires
        forall|i: int| 0 <= i < ps.len() ==> (#[trigger] ps[i]).0.len() == 32,
    ensures
        txo_pointers_encode(ps).len() == 34 * ps.len(),
        forall|i: int|
            0 <= i < ps.len() ==> #[trigger] txo_pointers_encode(ps).subrange(34 * i, 34 * i + 34)
                == txo_pointer_encode(ps[i]),
    decreases ps.len(),
{
    if ps.len() > 0 {
        let init = ps.drop_last();
        lemma_txo_pointers_layout(init);
        lemma_txo_pointer_roundtrip(ps.last());
        let e = txo_pointers_encode(ps);
        assert forall|i: int| 0 <= i < ps.len() implies #[trigger] e.subrange(34 * i, 34 * i + 34)
            == txo_pointer_encode(ps[i]) by {
            if i < ps.len() - 1 {
                assert(init[i] == ps[i]);
                assert(e.subrange(34 * i, 34 * i + 34) =~= txo_pointers_encode(init).subrange(
                    34 * i,
                    34 * i + 34,
                ));
            } else {
                assert(e.subrange(34 * i, 34 * i + 34) =~= txo_pointer_encode(ps.last()));
            }
        }
    }
}

/// Pointers with 32-byte ids, followed by anything, decode back to
/// themselves.
pub proof fn lemma_txo_pointers_roundtrip(ps: Seq<(Seq<u8>, u16)>, rest: Seq<u8>)
    requires
        forall|i: int| 0 <= i < ps.len() ==> (#[trigger] ps[i]).0.len() == 32,
    ensures
        txo_pointers_encode(ps).len() == 34 * ps.len(),
        txo_pointers_decode(txo_pointers_encode(ps) + rest, ps.len()) == Ok::<(Seq<(Seq<u8>, u16)>, nat), DecodeError>(
            (ps, 34 * ps.len()),
        ),
{
    lemma_txo_pointers_layout(ps);
    let e = txo_pointers_encode(ps);
    let s = e + rest;
    let got = Seq::new(ps.len(), |i: int| txo_pointer_of(s.subrange(34 * i, 34 * i + 34)));
    assert forall|i: int| 0 <= i < ps.len() implies got[i] == ps[i] by {
        assert(s.subrange(34 * i, 34 * i + 34) =~= e.subrange(34 * i, 34 * i + 34));
        lemma_txo_pointer_roundtrip(ps[i]);
    }
    assert(got =~= ps);
}

/// Successfully decoded pointers have 32-byte ids and were read from their
/// own encoding.
pub proof fn lemma_txo_pointers_canonical(s: Seq<u8>, n: nat)
    ensures
        txo_pointers_decode(s, n) matches Ok((ps, m)) ==> {
            &&& ps.len() == n
            &&& forall|i: int| 0 <= i < ps.len() ==> (#[trigger] ps[i]).0.len() == 32
            &&& m <= s.len()
            &&& s.take(m as int) == txo_pointers_encode(ps)
        },
    decreases n,
{
    if let Ok((ps, m)) = txo_pointers_decode(s, n) {
        if n == 0 {
            assert(s.take(0) =~= Seq::<u8>::empty());
        } else {
            lemma_txo_pointers_canonical(s, (n - 1) as nat);
            let (init, m0) = txo_pointers_decode(s, (n - 1) as nat)->Ok_0;
            assert(init =~= ps.drop_last());
            let last = s.subrange(34 * (n - 1), (34 * n) as int);
            lemma_txo_pointer_of_canonical(last);
            assert(ps.last() == txo_pointer_of(last));
            assert(s.take(m as int) =~= s.take(m0 as int) + last);
        }
        assert forall|i: int| 0 <= i < ps.len() implies (#[trigger] ps[i]).0.len() == 32 by {
            lemma_txo_pointer_of_canonical(s.subrange(34 * i, 34 * i + 34));
        }
    }
}

/// The number of bytes a deposit takes, encoded: the length prefix, 34 per
/// input, 21 for the account and 9 for the attributes.
pub open spec fn deposit_encoded_len(v: DepositBondTxView) -> nat {
    compact_u32_len(v.inputs.len() as u32) + 34 * v.inputs.len() + 21 + 9
}

/// A deposit followed by anything decodes back to itself, provided the
/// bytes handed to the decoder are within [`MAX_DEPOSIT_TX_SIZE`].
pub proof fn lemma_deposit_roundtrip(v: DepositBondTxView, rest: Seq<u8>)
    requires
        deposit_wf(v),
        deposit_encode(v).len() + rest.len() <= MAX_DEPOSIT_TX_SIZE,
    ensures
        deposit_encode(v).len() == deposit_encoded_len(v),
        deposit_decode(deposit_encode(v) + rest) == Ok::<(DepositBondTxView, nat), DecodeError>(
            (v, deposit_encode(v).len()),
        ),
{
    let n = v.inputs.len() as u32;
    let c = compact_u32_encode(n);
    let ps = txo_pointers_encode(v.inputs);
    let a = variant0_encode(v.to_staked_account);
    let at = attributes_encode(v.attributes);
    let s = c + ps + a + at + rest;
    lemma_compact_u32_roundtrip(n, ps + a + at + rest);
    lemma_txo_pointers_roundtrip(v.inputs, a + at + rest);
    lemma_variant0_roundtrip(v.to_staked_account, at + rest);
    lemma_attributes_roundtrip(v.attributes, rest);
    let k = c.len();
    assert(s =~= c + (ps + a + at + rest));
    assert(s.skip(k as int) =~= ps + (a + at + rest));
    assert(s.skip((k + ps.len()) as int) =~= a + (at + rest));
    assert(s.skip((k + ps.len() + 21) as int) =~= at + rest);
    assert(deposit_encode(v) + rest =~= s);
}

/// A successfully decoded deposit can be held and encoded by a
/// [`DepositBondTx`], and was read from its own encoding.
pub proof fn lemma_deposit_canonical(s: Seq<u8>)
    ensures
        deposit_decode(s) matches Ok((v, n)) ==> deposit_wf(v) && n <= s.len() && s.take(n as int)
            == deposit_encode(v),
{
    if let Ok((v, n)) = deposit_decode(s) {
        let c = compact_u32_decode(s)->Some_0;
        let k = compact_u32_len(c);
        lemma_compact_u32_canonical(s);
        let (_, m1) = txo_pointers_decode(s.skip(k as int), c as nat)->Ok_0;
        lemma_txo_pointers_canonical(s.skip(k as int), c as nat);
        let (_, m2) = variant0_decode(s.skip((k + m1) as int), 20)->Ok_0;
        lemma_variant0_canonical(s.skip((k + m1) as int), 20);
        let (_, m3) = attributes_decode(s.skip((k + m1 + m2) as int))->Ok_0;
        lemma_attributes_canonical(s.skip((k + m1 + m2) as int));
        assert(v.inputs.len() as u32 == c);
        assert(s.take(n as int) =~= s.take(k as int) + s.skip(k as int).take(m1 as int) + s.skip(
            (k + m1) as int,
        ).take(m2 as int) + s.skip((k + m1 + m2) as int).take(m3 as int));
    }
}

/// More than [`MAX_DEPOSIT_TX_SIZE`] bytes are refused, whatever they hold.
pub proof fn lemma_deposit_refuses_large_input(s: Seq<u8>)
    requires
        s.len() > MAX_DEPOSIT_TX_SIZE,
    ensures
        deposit_decode(s) == Err::<(DepositBondTxView, nat), DecodeError>(DecodeError::InputTooLarge),
{
}

/// A deposit of at most 64 inputs encodes within [`MAX_DEPOSIT_TX_SIZE`]
/// bytes, so that its encoding alone decodes back to it.
pub proof fn lemma_deposit_up_to_64_inputs_fit(v: DepositBondTxView)
    requires
        deposit_wf(v),
        v.inputs.len() <= 64,
    ensures
        deposit_encode(v).len() <= MAX_DEPOSIT_TX_SIZE,
        deposit_decode(deposit_encode(v)) == Ok::<(DepositBondTxView, nat), DecodeError>(
            (v, deposit_encode(v).len()),
        ),
{
    lemma_compact_u32_roundtrip(v.inputs.len() as u32, Seq::empty());
    lemma_txo_pointers_layout(v.inputs);
    lemma_deposit_roundtrip(v, Seq::empty());
    assert(deposit_encode(v) + Seq::<u8>::empty() =~= deposit_encode(v));
}

/// What a deposit's encoding holds, byte by byte: the compact count of the
/// inputs; for each input, the 32 id bytes in order and the two
/// little-endian bytes of the index; the account's variant byte 0 and its 20
/// bytes in order; the chain id byte; the eight little-endian bytes of the
/// application version.
pub proof fn lemma_deposit_encoding(v: DepositBondTxView)
    requires
        deposit_wf(v),
    ensures
        ({
            let n = v.inputs.len();
            let c = compact_u32_encode(n as u32);
            let k = c.len();
            let a: int = (k + 34 * n) as int;
            let e = deposit_encode(v);
            &&& e.len() == a + 30
            &&& e.take(k as int) == c
            &&& forall|i: int|
                0 <= i < n ==> #[trigger] e.subrange(k + 34 * i, k + 34 * i + 32) == v.inputs[i].0
                    && le_value(e.subrange(k + 34 * i + 32, k + 34 * i + 34)) == v.inputs[i].1
            &&& e[a as int] == 0
            &&& e.subrange(a + 1, a + 21) == v.to_staked_account
            &&& e[a + 21] == v.attributes.chain_hex_id
            &&& le_value(e.subrange(a + 22, a + 30)) == v.attributes.app_version
        }),
{
    let n = v.inputs.len();
    let c = compact_u32_encode(n as u32);
    let k = c.len();
    let ps = txo_pointers_encode(v.inputs);
    let acc = variant0_encode(v.to_staked_account);
    let at = attributes_encode(v.attributes);
    let e = deposit_encode(v);
    let a: int = (k + 34 * n) as int;
    lemma_txo_pointers_layout(v.inputs);
    lemma_variant0_encoding(v.to_staked_account);
    lemma_attributes_encoding(v.attributes);
    assert(e =~= c + ps + acc + at);
    assert(e.take(k as int) =~= c);
    assert forall|i: int|
        0 <= i < n implies #[trigger] e.subrange(k + 34 * i, k + 34 * i + 32) == v.inputs[i].0
            && le_value(e.subrange(k + 34 * i + 32, k + 34 * i + 34)) == v.inputs[i].1 by {
        let pe = ps.subrange(34 * i, 34 * i + 34);
        lemma_txo_pointer_encoding(v.inputs[i]);
        assert(e.subrange(k + 34 * i, k + 34 * i + 32) =~= pe.take(32));
        assert(e.subrange(k + 34 * i + 32, k + 34 * i + 34) =~= pe.skip(32));
    }
    assert(e.subrange(a + 1, a + 21) =~= acc.skip(1));
    assert(e.subrange(a + 22, a + 30) =~= at.skip(1));
}

/// What decoding a deposit reads, byte by byte: more than
/// [`MAX_DEPOSIT_TX_SIZE`] bytes are refused; then the compact count `n` of
/// inputs; then for each input 34 bytes, the id in order and the index
/// little-endian; then the account's variant byte, which must be 0, and its
/// 20 bytes in order; then the chain id byte and the eight little-endian
/// bytes of the application version. The first part that is missing or wrong
/// gives the error.
pub proof fn lemma_deposit_decoding(s: Seq<u8>)
    ensures
        s.len() > MAX_DEPOSIT_TX_SIZE ==> deposit_decode(s) == Err::<(DepositBondTxView, nat), DecodeError>(DecodeError::InputTooLarge),
        s.len() <= MAX_DEPOSIT_TX_SIZE && compact_u32_decode(s) is None ==> deposit_decode(s)
            == Err::<(DepositBondTxView, nat), DecodeError>(DecodeError::BadCompactLength),
        s.len() <= MAX_DEPOSIT_TX_SIZE ==> (compact_u32_decode(s) matches Some(n) ==> {
            let k = compact_u32_len(n);
            let a: int = k + 34 * n;
            &&& s.len() <= a ==> deposit_decode(s) == Err::<(DepositBondTxView, nat), DecodeError>(DecodeError::NotEnoughData)
            &&& s.len() > a && s[a as int] != 0 ==> deposit_decode(s) == Err::<(DepositBondTxView, nat), DecodeError>(DecodeError::InvalidVariant)
            &&& s.len() > a && s[a as int] == 0 && s.len() < a + 30 ==> deposit_decode(s) == Err::<(DepositBondTxView, nat), DecodeError>(DecodeError::NotEnoughData)
            &&& s.len() >= a + 30 && s[a as int] == 0 ==> (deposit_decode(s) matches Ok((v, m)) && {
                &&& m == a + 30
                &&& v.inputs.len() == n
                &&& forall|i: int|
                    0 <= i < n ==> #[trigger] v.inputs[i].0 == s.subrange(k + 34 * i, k + 34 * i + 32)
                        && v.inputs[i].1 == le_value(s.subrange(k + 34 * i + 32, k + 34 * i + 34))
                &&& v.to_staked_account == s.subrange(a + 1, a + 21)
                &&& v.attributes.chain_hex_id == s[a + 21]
                &&& v.attributes.app_version == le_value(s.subrange(a + 22, a + 30))
            })
        }),
{
    if s.len() <= MAX_DEPOSIT_TX_SIZE {
        if let Some(n) = compact_u32_decode(s) {
            let k = compact_u32_len(n);
            let a: int = k + 34 * n;
            lemma_compact_u32_canonical(s);
            let s1 = s.skip(k as int);
            if s.len() >= a {
                let s2 = s.skip(a as int);
                assert(s.skip((k + (n as nat) * 34) as int) =~= s2);
                lemma_variant0_decoding(s2, 20);
                if s.len() > a {
                    assert(s2[0] == s[a as int]);
                }

                if s.len() >= a + 21 && s[a as int] == 0 {
                    let s3 = s.skip(a + 21);
                    assert(s.skip((k + (n as nat) * 34 + 21) as int) =~= s3);
                    lemma_attributes_decoding(s3);
                    assert(s2.subrange(1, 21) =~= s.subrange(a + 1, a + 21));
                    if s.len() >= a + 30 {
                        assert(s3.subrange(1, 9) =~= s.subrange(a + 22, a + 30));
                        assert(s3[0] == s[a + 21]);
                        let (v, m) = deposit_decode(s)->Ok_0;
                        assert forall|i: int| 0 <= i < n implies #[trigger] v.inputs[i].0 == s.subrange(
                            k + 34 * i,
                            k + 34 * i + 32,
                        ) && v.inputs[i].1 == le_value(s.subrange(k + 34 * i + 32, k + 34 * i + 34)) by {
                            let b = s1.subrange(34 * i, 34 * i + 34);
                            lemma_txo_pointer_of_value(b);
                            assert(b.take(32) =~= s.subrange(k + 34 * i, k + 34 * i + 32));
                            assert(b.skip(32) =~= s.subrange(k + 34 * i + 32, k + 34 * i + 34));
                        }
                    }
                }
            }
        }
    }
}

impl DepositBondTx {
    pub fn new(
        inputs: Vec<TxoPointer>,
        to_staked_account: StakedStateAddress,
        attributes: StakedStateOpAttributes,
    ) -> (res: Self)
        ensures
            res.inputs == inputs,
            res.to_staked_account == to_staked_account,
            res.attributes == attributes,
    {
        DepositBondTx { inputs, to_staked_account, attributes }
    }

    /// Appends the SCALE encoding of the deposit to `dest`; the deposit is one
    /// that decoding gives back, when the bytes decoded are within the limit.
    pub fn encode_to(&self, dest: &mut Vec<u8>)
        requires
            self.inputs.len() <= u32::MAX,
        ensures
            final(dest)@ == old(dest)@ + deposit_encode(self@),
            deposit_wf(self@),
    {
        let ghost v = self@;
        let n = self.inputs.len();
        encode_compact_u32_to(n as u32, dest);
        let ghost start = dest@;
        let mut i: usize = 0;
        while i < n
            invariant
                n == self.inputs.len(),
                v == self@,
                i <= n,
                dest@ == start + txo_pointers_encode(v.inputs.take(i as int)),
            decreases n - i,
        {
            self.inputs[i].encode_to(dest);
            assert(v.inputs.take(i + 1).drop_last() =~= v.inputs.take(i as int));
            i = i + 1;
        }
        assert(v.inputs.take(n as int) =~= v.inputs);
        self.to_staked_account.encode_to(dest);
        self.attributes.encode_to(dest);
        assert(dest@ =~= old(dest)@ + deposit_encode(v));
        assert forall|j: int| 0 <= j < v.inputs.len() implies (#[trigger] v.inputs[j]).0.len() == 32 by {
            assert(v.inputs[j] == self.inputs@[j]@);
        }
    }

    /// An estimate of the encoded size, for reserving space: the size hint of the
    /// inputs (four bytes and 34 per input), 21 for the account and 5 for the
    /// attributes.
    pub fn size_hint(&self) -> (res: usize)
        requires
            4 + 34 * self.inputs.len() + 26 <= usize::MAX,
        ensures
            res == 4 + 34 * self.inputs.len() + 26,
    {
        4 + TXO_POINTER_SIZE * self.inputs.len() + 21 + 5
    }

    /// Decodes a deposit from `input` at `pos`, giving it and the position
    /// after it; more than [`MAX_DEPOSIT_TX_SIZE`] remaining bytes are
    /// refused before anything is read.
    pub fn decode(input: &[u8], pos: usize) -> (res: Result<(DepositBondTx, usize), DecodeError>)
        requires
            pos <= input@.len(),
        ensures
            match res {
                Ok((t, end)) => pos <= end <= input@.len() && deposit_decode(input@.skip(pos as int))
                    == Ok::<(DepositBondTxView, nat), DecodeError>((t@, (end - pos) as nat)),
                Err(e) => deposit_decode(input@.skip(pos as int)) == Err::<(DepositBondTxView, nat), DecodeError>(e),
            },
    {
        let ghost s = input@.skip(pos as int);
        if input.len() - pos > MAX_DEPOSIT_TX_SIZE {
            return Err(DecodeError::InputTooLarge);
        }
        let n = match decode_compact_u32_at(input, pos) {
            Some(n) => n,
            None => return Err(DecodeError::BadCompactLength),
        };
        proof {
            lemma_compact_u32_canonical(s);
        }
        let k = compact_u32_encoded_len(n);
        let p1 = pos + k;
        let ghost s1 = input@.skip(p1 as int);
        assert(s1 =~= s.skip(k as int));
        let mut inputs: Vec<TxoPointer> = Vec::new();
        let mut p = p1;
        let mut i: u32 = 0;
        while i < n
            invariant
                p1 <= p <= input@.len(),
                input@.len() == input.len(),
                pos <= input@.len(),
                s == input@.skip(pos as int),
                s.len() <= MAX_DEPOSIT_TX_SIZE,
                compact_u32_decode(s) == Some(n),
                p1 == pos + compact_u32_len(n),
                s1 == s.skip(compact_u32_len(n) as int),
                s1 == input@.skip(p1 as int),
                i <= n,
                p == p1 + 34 * i,
                inputs@.map_values(|q: TxoPointer| q@) =~= Seq::new(
                    i as nat,
                    |j: int| txo_pointer_of(s1.subrange(34 * j, 34 * j + 34)),
                ),
            decreases n - i,
        {
            match TxoPointer::decode(input, p) {
                Ok((q, end)) => {
                    let ghost before = inputs@;
                    inputs.push(q);
                    assert(input@.skip(p as int).take(34) =~= s1.subrange(34 * i, 34 * i + 34));
                    assert(inputs@.map_values(|q: TxoPointer| q@) =~= before.map_values(
                        |q: TxoPointer| q@,
                    ).push(q@));
                    p = end;
                    i = i + 1;
                },
                Err(e) => {
                    assert(txo_pointers_decode(s1, n as nat) == Err::<(Seq<(Seq<u8>, u16)>, nat), DecodeError>(e));
                    return Err(e);
                },
            }
        }
        let ghost m1 = (34 * n) as nat;
        assert(input@.skip(p as int) =~= s.skip((k + m1) as int));
        let (to_staked_account, p2) = match StakedStateAddress::decode(input, p) {
            Ok(r) => r,
            Err(e) => return Err(e),
        };
        assert(input@.skip(p2 as int) =~= s.skip(p2 - pos));
        let (attributes, p3) = match StakedStateOpAttributes::decode(input, p2) {
            Ok(r) => r,
            Err(e) => return Err(e),
        };
        Ok((DepositBondTx { inputs, to_staked_account, attributes }, p3))
    }
}

} // verus!
