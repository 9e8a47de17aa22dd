use rand::Rng;
use vstd::prelude::*;

verus! {

/// Relies on `rand::Rng::gen_range` over `lo..hi` with the thread-local
/// generator: the draw lies in `[lo, hi)`; it panics on an empty range, which
/// `requires` rules out.
#[verifier::external_body]
pub(crate) fn random_in(lo: usize, hi: usize) -> (r: usize)
    requires
        lo < hi,
    ensures
        lo <= r < hi,
{
    rand::thread_rng().gen_range(lo..hi)
}

/// Relies on `rand::Rng::gen::<bool>` with the thread-local generator: a fair
/// coin; nothing is promised of its value.
#[verifier::external_body]
pub(crate) fn random_bool() -> (r: bool) {
    rand::thread_rng().gen::<bool>()
}

/// Relies on `rand::Rng::gen::<u8>` with the thread-local generator: a
/// uniformly drawn byte; nothing is promised of its value.
#[verifier::external_body]
pub(crate) fn random_byte() -> (r: u8) {
    rand::thread_rng().gen::<u8>()
}

} // verus!
