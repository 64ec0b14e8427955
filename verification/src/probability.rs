//! Acceptance probabilities and the uniform draws they are compared with.

use rand::Rng;
use vstd::prelude::*;

verus! {

/// Number of equally likely values of a uniform draw: `2^53`.
pub const RESOLUTION: u64 = 0x20_0000_0000_0000;

/// A probability on a grid of `RESOLUTION` steps.
///
/// A probability `p` is held as the number of draws, out of the
/// `RESOLUTION` equally likely ones, that it admits. A uniform draw in
/// the unit interval is a multiple `k / RESOLUTION`, so "`p` exceeds the
/// draw" is the same test as "`k` is below the threshold of `p`".
#[derive(Clone, Copy, Debug, PartialEq, Eq, Structural)]
pub struct Probability {
    threshold: u64,
}

impl Probability {
    /// How many of the `RESOLUTION` possible draws are admitted.
    pub closed spec fn threshold(&self) -> nat {
        self.threshold as nat
    }

    /// Whether the probability admits the draw.
    pub open spec fn spec_admits(&self, draw: u64) -> bool {
        draw < self.threshold()
    }

    /// The probability that admits `threshold` of the `RESOLUTION` draws;
    /// a larger threshold counts as certainty.
    pub fn from_threshold(threshold: u64) -> (p: Self)
        ensures
            p.threshold() == if threshold <= RESOLUTION {
                threshold
            } else {
                RESOLUTION
            },
    {
        if threshold <= RESOLUTION {
            Self { threshold }
        } else {
            Self { threshold: RESOLUTION }
        }
    }

    /// The probability zero.
    pub closed spec fn spec_never() -> Self {
        Self { threshold: 0 }
    }

    /// The probability one.
    pub closed spec fn spec_always() -> Self {
        Self { threshold: RESOLUTION }
    }

    /// The probability zero: no draw is admitted.
    pub fn never() -> (p: Self)
        ensures
            p == Self::spec_never(),
    {
        Self { threshold: 0 }
    }

    /// The probability one: every draw is admitted.
    pub fn always() -> (p: Self)
        ensures
            p == Self::spec_always(),
    {
        Self { threshold: RESOLUTION }
    }

    /// The number of admitted draws.
    pub fn admitted_draws(&self) -> (threshold: u64)
        ensures
            threshold == self.threshold(),
    {
        self.threshold
    }

    /// Whether the probability is one, so that no draw is needed.
    pub fn is_certain(&self) -> (certain: bool)
        ensures
            certain == (self.threshold() >= RESOLUTION),
    {
        self.threshold >= RESOLUTION
    }

    /// Whether the probability admits the draw.
    pub fn admits(&self, draw: u64) -> (admitted: bool)
        ensures
            admitted == self.spec_admits(draw),
    {
        draw < self.threshold
    }
}

/// Probability zero admits no draw, probability one every draw.
pub proof fn lemma_certainties(draw: u64)
    ensures
        !Probability::spec_never().spec_admits(draw),
        draw < RESOLUTION ==> Probability::spec_always().spec_admits(draw),
        Probability::spec_never().threshold() == 0,
        Probability::spec_always().threshold() == RESOLUTION,
{
}

/// `rand::rngs::ThreadRng`, the handle to a thread's random number
/// generator: carried through as it is, nothing is known of what it holds.
#[verifier::external_type_specification]
#[verifier::external_body]
pub struct ExThreadRng(rand::rngs::ThreadRng);

/// A handle to the random number generator of the current thread, by
/// `rand::rng`. The generator panics where the operating system cannot
/// seed it: that is the machine's failure, as running out of memory is,
/// and no argument of this call.
#[verifier::external_body]
pub(crate) fn thread_generator() -> (rng: rand::rngs::ThreadRng) {
    rand::rng()
}

/// Sixty-four random bits, by `rand::Rng::random`. Nothing is claimed of
/// them. The generator panics where the operating system cannot reseed
/// it, which no argument of this call decides.
#[verifier::external_body]
fn random_bits(rng: &mut rand::rngs::ThreadRng) -> (bits: u64) {
    rng.random::<u64>()
}

/// An index that is uniform over `0..n`, by `rand::Rng::random_range`,
/// which panics on an empty range and else returns a value of the range.
/// The generator panics where the operating system cannot reseed it,
/// which no argument of this call decides.
#[verifier::external_body]
fn random_below(rng: &mut rand::rngs::ThreadRng, n: usize) -> (index: usize)
    requires
        n > 0,
    ensures
        index < n,
{
    rng.random_range(0..n)
}

/// The draw that a random word stands for: its upper 53 bits, so that
/// equally likely words give equally likely draws.
pub open spec fn spec_draw_of(bits: u64) -> u64 {
    bits >> 11
}

/// The draw that a random word stands for: its upper 53 bits.
pub fn draw_of(bits: u64) -> (draw: u64)
    ensures
        draw == spec_draw_of(bits),
        draw < RESOLUTION,
{
    let draw: u64 = bits >> 11;
    assert(draw < 0x20_0000_0000_0000u64) by (bit_vector)
        requires
            draw == bits >> 11,
    ;
    draw
}

/// A draw that is uniform over the values below `RESOLUTION`: the draw
/// that a random word from the generator of the current thread stands
/// for.
pub fn uniform_draw() -> (draw: u64)
    ensures
        draw < RESOLUTION,
{
    let mut rng = thread_generator();
    let bits: u64 = random_bits(&mut rng);
    draw_of(bits)
}

/// A place that is uniform over `0..n`, from the generator of the current
/// thread.
pub fn random_index(n: usize) -> (index: usize)
    requires
        n > 0,
    ensures
        index < n,
{
    let mut rng = thread_generator();
    random_below(&mut rng, n)
}

} // verus!
