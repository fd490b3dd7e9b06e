//! An authenticated key-value tree core: a compressed, binary, Merkleised
//! radix tree over bit-addressed keys.
//!
//! The crate provides the bit-key algebra that drives path compression, the
//! node variants with their deterministic hash construction, and the pointer
//! discipline (clean/dirty, hash-only extraction, deep leaf copies) that
//! higher layers build tree operations on.

pub mod hash;
pub mod key;
pub mod node;
