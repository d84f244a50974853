use vstd::prelude::*;
use rand::rngs::StdRng;

verus! {

/// rand's `StdRng`, carried as an opaque value.
#[verifier::external_type_specification]
#[verifier::external_body]
pub struct ExStdRng(StdRng);

/// Relies on rand's `Rng::gen_range` over a half-open `i64` range: it
/// returns a value in `[lo, hi)` and panics when the range is empty.
#[verifier::external_body]
pub(crate) fn draw_in(rng: &mut StdRng, lo: i64, hi: i64) -> (r: i64)
    requires
        lo < hi,
    ensures
        lo <= r < hi,
{
    rand::Rng::gen_range(rng, lo..hi)
}

/// Relies on rand's `SeedableRng::seed_from_u64`: a generator determined by `seed`.
#[verifier::external_body]
pub(crate) fn seeded_rng(seed: u64) -> (r: StdRng) {
    rand::SeedableRng::seed_from_u64(seed)
}

} // verus!
