# avm_contract_sdk

Guest-side codecs and runtime decisions for AVM core-WASM contracts, written
in Verus.

- `src/wire.rs`: little-endian integers and byte-string helpers.
- `src/input.rs`: decoders of the canonical ACMI (message) and ACBI (batch)
  input frames, each specified by a spec function over the raw bytes that
  gives the decoded value or the first error met.
- `src/output.rs`: validation and encoding of the ACMO and ACBO output frames
  and of event field lists, each specified by the exact bytes or the first
  rule broken.
- `src/runtime.rs`: the bounded guest arena (at most two live allocations,
  freed last-in first-out) and the `init`, `process_message` and
  `process_batch` entrypoint decisions.
- `app/lib.rs`: the export macros that install the C ABI of a contract over a
  process-wide arena.
- `tests/`: scenario tests on concrete frames.
