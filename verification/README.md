# pallet_kitties

A verified model of a kitties pallet: accounts mint kitties whose DNA is the
BLAKE2b-256 hash of the chain context and a counter, transfer them, put them on
sale and buy them.

- `src/types.rs`: kitties, errors, origins, events, the chain context.
- `src/store.rs`: a vector of key/value entries seen as a map, with its lemmas.
- `src/spec.rs`: the storage as mathematical values and what each call does to it.
- `src/dna.rs`: the bytes a DNA is hashed from, and the calls into
  `parity-scale-codec` and `sp-crypto-hashing`.
- `src/pallet.rs`: the storage and the calls, each proved against `spec.rs`.
- `src/laws.rs`: properties of the calls (consistency of the storage, transfers
  that undo each other, purchases).

Buying a kitty is split in two around the payment, which the currency layer
makes: `buy_kitty_quote` checks the purchase, `buy_kitty_settle` completes it
with the outcome of the payment.
