//! A small commit-and-prove engine over a prime field: constraint systems,
//! witness generation, proving, verification and a canonical byte codec.

pub mod field;
pub mod circuit;
pub mod witness;
pub mod scheme;
pub mod prover;
pub mod codec;
pub mod api;
