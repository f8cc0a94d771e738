# grey

Verified pieces of a JAM node, written in Verus:

- `src/emitter.rs`: the PVM standard-program and code-blob encoders, with the
  packed-bitmask layout and a proof that an emitted program reads back as the
  parts it was built from.
- `src/assurances.rs`: the availability-assurances state transition, specified
  rule by rule, with the reports it makes available and the slots it clears.
- `src/crypto.rs`: Ed25519 keypairs and verification over `ed25519-dalek`, the
  Blake2b-256 hash over `blake2`, and the assurance signing message.
- `src/types.rs`: the protocol values these use.
- `src/throughput.rs`: the pixel batch, run statistics and polling decisions of
  the throughput scenario.

`app/` holds the async scenario loop and its floating-point metrics; `tests/`
holds the tests.
