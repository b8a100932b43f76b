//! Arithmetic-circuit gadgets that prove membership of a secret leaf in a
//! Merkle tree with a public root, inside a rank-1 constraint system.
//!
//! Two authentication-path walkers are provided: an algebraic one whose layer
//! hash is the Jubjub Pedersen hash ([`merkle::MerklePedersen`]) and a
//! bit-oriented one whose layer hash is the SHA-256 compression function
//! ([`merkle_sha::JoinSplit`]). Both register their constraints on a
//! `bellman` constraint system through the trusted layer in [`gadgets`].

pub mod bits;
pub mod gadgets;
pub mod merkle;
pub mod merkle_sha;
