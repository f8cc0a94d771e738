//! Verified building blocks of a JAM node: the PVM program-blob emitter,
//! the availability-assurances state transition, Ed25519 signing keys and
//! the pure parts of the sustained-throughput scenario.

pub mod assurances;
pub mod crypto;
pub mod emitter;
pub mod throughput;
pub mod types;
