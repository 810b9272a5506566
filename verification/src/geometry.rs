//! Fixed sizes of the plot binary layout.

use vstd::prelude::*;

verus! {

/// Size in bytes of one Shabal-256 hash, half of a scoop record.
pub const HASH_SIZE: u64 = 32;

/// Size in bytes of one scoop record: two hash halves.
pub const SCOOP_SIZE: u64 = HASH_SIZE * 2;

/// Number of scoops in every nonce.
pub const SCOOPS_IN_NONCE: u64 = 4096;

/// Size in bytes of one nonce.
pub const NONCE_SIZE: u64 = SCOOP_SIZE * SCOOPS_IN_NONCE;

/// Number of scoop-block pairs the conversion touches, independent of the
/// nonce count: the first half of the scoop range, each paired with its
/// mirrored partner.
pub const SCOOP_PAIRS: u64 = SCOOPS_IN_NONCE / 2;

/// The conversion walks `SCOOP_PAIRS` pairs of blocks of
/// `nonces * SCOOP_SIZE` bytes each, reading and writing both blocks of a
/// pair once; the bytes read, and equally the bytes written, over the whole
/// run are exactly one pass over the `nonces * NONCE_SIZE` bytes of the file.
pub proof fn lemma_pairs_cover_file(nonces: int)
    ensures
        2 * (SCOOP_PAIRS as int) * (nonces * (SCOOP_SIZE as int)) == nonces * (NONCE_SIZE as int),
{
    assert(2 * (SCOOP_PAIRS as int) * (nonces * (SCOOP_SIZE as int)) == nonces * (NONCE_SIZE
        as int)) by (nonlinear_arith);
}

} // verus!
