//! The random stream: rand's standard generator, seen only through the draws below.
use vstd::prelude::*;
use rand::Rng;
use rand::rngs::StdRng;

verus! {

#[verifier::external_type_specification]
#[verifier::external_body]
pub struct ExStdRng(StdRng);

/// Relies on rand's `Rng::gen_range` over `0..len`: an index below `len`,
/// which must not be zero.
#[verifier::external_body]
pub(crate) fn gen_index(rng: &mut StdRng, len: usize) -> (r: usize)
    requires
        len > 0,
    ensures
        r < len,
{
    rng.gen_range(0..len)
}

/// A value of `lo..=hi`, each as likely as the others.
pub(crate) fn gen_between(rng: &mut StdRng, lo: i32, hi: i32) -> (r: i32)
    requires
        lo <= hi,
        hi - lo < 16777216,
    ensures
        lo <= r <= hi,
{
    let k = gen_index(rng, (hi - lo + 1) as usize);
    lo + k as i32
}

/// Relies on rand's `Rng::gen_ratio`: true with chance `num / den`; never for a
/// zero numerator, always when `num == den`.
#[verifier::external_body]
pub(crate) fn gen_ratio(rng: &mut StdRng, num: u32, den: u32) -> (r: bool)
    requires
        0 < den,
        num <= den,
    ensures
        num == 0 ==> !r,
        num == den ==> r,
{
    rng.gen_ratio(num, den)
}

/// Relies on rand's `Rng::gen` for `u32`: any value, used as a lottery seed.
#[verifier::external_body]
pub(crate) fn gen_seed(rng: &mut StdRng) -> u32 {
    rng.gen::<u32>()
}

} // verus!
