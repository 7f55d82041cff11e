//! Percolator matcher: the CPI wire format shared with the risk engine, and a
//! reference oracle-anchored AMM that prices trade requests.
//!
//! - `le_bytes`: little-endian integer encoding over byte sequences.
//! - `abi`: the call and return wire formats and their laws.
//! - `amm`: LP configuration and the reference pricing engine.
//! - `error`: why the matcher refuses an instruction.
//! - `program`: the decisions of the matcher's instruction handler.
pub mod abi;
pub mod amm;
pub mod error;
pub mod le_bytes;
pub mod program;
