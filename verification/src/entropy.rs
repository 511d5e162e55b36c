//! The random sources behind the generators: HC-128 and ChaCha20 stream
//! ciphers, seeded from the operating system.

use vstd::prelude::*;
use rand::seq::SliceRandom;
use rand::{Rng, RngExt, SeedableRng};
use rand_chacha::ChaCha20Rng;
use rand_hc::Hc128Rng;

verus! {

#[verifier::external_type_specification]
#[verifier::external_body]
pub struct ExChaCha20Rng(rand_chacha::ChaCha20Rng);

#[verifier::external_type_specification]
#[verifier::external_body]
pub struct ExHc128Rng(rand_hc::Hc128Rng);

#[verifier::external_type_specification]
#[verifier::external_body]
pub struct ExSysError(rand::rngs::SysError);

/// `ChaCha20Rng::try_from_rng(&mut SysRng)`: a ChaCha20 generator keyed from
/// the operating system, or the operating system's error. Which of the two
/// comes back depends on the machine, so nothing is stated of it.
#[verifier::external_body]
pub(crate) fn chacha_from_system() -> (r: Result<ChaCha20Rng, rand::rngs::SysError>) {
    ChaCha20Rng::try_from_rng(&mut rand::rngs::SysRng)
}

/// `Hc128Rng::try_from_rng(&mut SysRng)`: an HC-128 generator keyed from
/// the operating system's random source, or that source's error. Which of
/// the two comes back depends on the machine, so nothing is stated of it.
#[verifier::external_body]
pub(crate) fn hc128_from_system() -> (r: Result<Hc128Rng, rand::rngs::SysError>) {
    Hc128Rng::try_from_rng(&mut rand::rngs::SysRng)
}

/// `Error::raw_os_error` of getrandom: the operating system's error code
/// behind a failure of its random source, if the failure came from the
/// operating system. The error is an opaque value here, so the code is not
/// tied to it by any clause; nothing is stated of the result.
#[verifier::external_body]
pub(crate) fn os_error_code(e: rand::rngs::SysError) -> (code: Option<i32>) {
    e.raw_os_error()
}

/// `Rng::fill_bytes` on a ChaCha20 generator: overwrites every byte of the
/// buffer with keystream. The bytes are random; what is stated is that the
/// buffer keeps its length.
#[verifier::external_body]
pub(crate) fn chacha_fill_bytes(rng: &mut ChaCha20Rng, buf: &mut Vec<u8>)
    ensures
        final(buf)@.len() == old(buf)@.len(),
{
    rng.fill_bytes(buf.as_mut_slice())
}

/// `Rng::fill_bytes` on an HC-128 generator: as `chacha_fill_bytes`.
#[verifier::external_body]
pub(crate) fn hc128_fill_bytes(rng: &mut Hc128Rng, buf: &mut Vec<u8>)
    ensures
        final(buf)@.len() == old(buf)@.len(),
{
    rng.fill_bytes(buf.as_mut_slice())
}

/// `SliceRandom::shuffle` with a ChaCha20 generator: a Fisher-Yates shuffle,
/// so the result is a permutation of the input (which one is random).
#[verifier::external_body]
pub(crate) fn chacha_shuffle(rng: &mut ChaCha20Rng, v: &mut Vec<usize>)
    ensures
        final(v)@.to_multiset() == old(v)@.to_multiset(),
{
    v.as_mut_slice().shuffle(rng)
}

/// `SliceRandom::shuffle` with an HC-128 generator: as `chacha_shuffle`.
#[verifier::external_body]
pub(crate) fn hc128_shuffle(rng: &mut Hc128Rng, v: &mut Vec<usize>)
    ensures
        final(v)@.to_multiset() == old(v)@.to_multiset(),
{
    v.as_mut_slice().shuffle(rng)
}

/// `RngExt::random_range(0..n)` with a ChaCha20 generator: a uniformly chosen
/// index below `n`. An empty range panics, so `n` must be positive.
#[verifier::external_body]
pub(crate) fn chacha_index(rng: &mut ChaCha20Rng, n: usize) -> (r: usize)
    requires
        n > 0,
    ensures
        r < n,
{
    rng.random_range(0..n)
}

/// `RngExt::random_range(0..n)` with an HC-128 generator: as `chacha_index`.
#[verifier::external_body]
pub(crate) fn hc128_index(rng: &mut Hc128Rng, n: usize) -> (r: usize)
    requires
        n > 0,
    ensures
        r < n,
{
    rng.random_range(0..n)
}

} // verus!
