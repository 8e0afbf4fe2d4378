//! A minimal single-node ledger: proof-of-work blocks, hash-linked into a
//! chain, each validated against the chain's structure and a simplified
//! unspent-output transaction model before it is accepted.

pub mod block;
pub mod blockchain;
pub mod guarantees;
pub mod hashable;
pub mod text;
pub mod transaction;
pub mod utility;
