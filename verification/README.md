# chain_core

Transaction data of the chain and client-side key handling, verified with Verus.

- `src/codec.rs`: the SCALE primitives (little-endian integers, compact
  lengths, optional values); the integer encodings call `parity_scale_codec`.
- `src/coin.rs`, `src/address.rs`, `src/input.rs`: coin amounts, addresses and
  output pointers with their encodings.
- `src/output.rs`, `src/attribute.rs`, `src/deposit.rs`: transaction outputs,
  staked-state attributes and deposit transactions. Each type states its
  encoding and decoding as spec functions, and proves that decoding an encoding
  gives the value back and that whatever decodes was read from its own
  encoding.
- `src/error.rs`, `src/key.rs`, `src/witness.rs`: client errors, secp256k1
  keys and recoverable signatures of transaction ids.
- `app/`: the Sled-backed storage and serde forms of the transaction data.

Not here: the text (`Display`) forms of outputs and deposit transactions.
They print each address, amount and input in formats (bech32 addresses,
decimal coin amounts, the text of an output pointer) that belong to those
types' own modules, which this library does not hold; the serde forms in
`app/` likewise give addresses as raw bytes rather than bech32 text.
