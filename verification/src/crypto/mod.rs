//! Cryptographic primitives the protocol relies on.

pub mod ecdsa;
