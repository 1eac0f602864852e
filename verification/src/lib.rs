//! Homomorphic AES-128 decryption: an AES ciphertext block is turned
//! into 128 individually encrypted plaintext bits without decrypting any
//! intermediate state, by walking precomputed, key-dependent lookup
//! tables with encrypted selector bits.
//!
//! The heart of the crate is the bootstrapped lookup-table machinery:
//! byte tables are packed into accumulator polynomials ([`lut`]), the
//! blind-rotation walk evaluates them on encrypted bytes ([`fhe`]), and
//! the round pipeline composes the walks with the fused inverse
//! ShiftRows and MixColumns transforms across ten rounds ([`pipeline`],
//! [`keys`], [`state`], [`gf`]). A comparison and workload engine
//! post-processes the transciphered output ([`workload`], [`maxcmp`],
//! [`encode`]).
//!
//! Everything the crate computes is stated in its contracts; the
//! lattice primitives themselves (trivial encryption, sample
//! extraction, ciphertext addition, decryption, external products and
//! conditional selects) are called through trusted wrappers whose
//! contracts state what the lattice library's code does to the raw
//! coefficients.

/// Bit encoding and rounding decode at the top scale.
pub mod encode;
/// The lattice-backed side: opaque ciphertext types, trusted wrappers,
/// and the verified encrypted-state transforms built on them.
pub mod fhe;
/// Galois-field doubling chains for the inverse MixColumns multipliers.
pub mod gf;
/// Keyed lookup tables: key expansion and the fused per-round tables.
pub mod keys;
/// Accumulator packing and the plaintext model of the blind-rotation
/// walk.
pub mod lut;
/// The bit-serial comparison engine's decision structure.
pub mod maxcmp;
/// The byte-level round pipeline.
pub mod pipeline;
/// Block layout, permutations and output packing.
pub mod state;
/// The workload engine on encoded bit lists.
pub mod workload;

use vstd::prelude::*;

verus! {

/// Workload-size tags used for persisted key and ciphertext artifacts.
pub fn get_size_string(position: usize) -> (r: &'static str)
    ensures
        position == 0 ==> r@ == "toy"@,
        position == 1 ==> r@ == "small"@,
        position == 2 ==> r@ == "medium"@,
        position >= 3 ==> r@ == "unknown"@,
{
    match position {
        0 => "toy",
        1 => "small",
        2 => "medium",
        _ => "unknown",
    }
}

} // verus!
