# percolator_matcher

The Percolator matcher: the CPI wire format that the risk engine and matcher
programs share, and a reference oracle-anchored AMM, verified with Verus.

- `src/le_bytes.rs` — little-endian encoding, modelled as arithmetic on byte sequences.
- `src/abi.rs` — call and return formats, their parsers and serializer, and the
  round-trip and canonical-encoding laws.
- `src/amm.rs` — LP configuration, pricing, and the laws on prices and fills.
- `src/program.rs` — the instruction handler's decisions on plain account views.
- `app/lib.rs` — the Solana entry point around `program::process_instruction`.
