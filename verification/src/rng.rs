use vstd::prelude::*;

verus! {

/// One step of the seeded delay stream: a 64-bit linear congruential
/// generator with Knuth's MMIX constants, taken modulo 2^64. The exact
/// stream is part of this library's compatibility contract: every scheduled
/// envelope consumes one step, so changing the stream changes every
/// scenario's timeline.
#[verifier::opaque]
pub open spec fn stream_next(s: u64) -> u64 {
    vstd::wrapping::u64_specs::wrapping_add(
        vstd::wrapping::u64_specs::wrapping_mul(s, 6364136223846793005),
        1442695040888963407,
    )
}

/// The stream state after `k` draws from `seed`.
pub open spec fn stream_after(seed: u64, k: nat) -> u64
    decreases k,
{
    if k == 0 {
        seed
    } else {
        stream_next(stream_after(seed, (k - 1) as nat))
    }
}

/// The delay carried by one stream state: uniform over `[1, 10)`.
pub open spec fn delay_of(s: u64) -> u64 {
    (1 + s % 9) as u64
}

/// The reproducible per-message delay generator: a pseudorandom stream
/// seeded once at construction, advanced exactly once per scheduled
/// envelope. The draw is a deterministic function of the seed and the draw
/// index alone.
pub struct DelayOracle {
    state: u64,
}

impl DelayOracle {
    pub closed spec fn spec_state(&self) -> u64 {
        self.state
    }

    pub fn seed(network_seed: u64) -> (o: DelayOracle)
        ensures
            o.spec_state() == network_seed,
    {
        DelayOracle { state: network_seed }
    }

    /// Advance the stream once and return the drawn delay, in `[1, 10)`.
    pub fn next_delay(&mut self) -> (d: u64)
        ensures
            final(self).spec_state() == stream_next(old(self).spec_state()),
            d == delay_of(final(self).spec_state()),
            1 <= d < 10,
    {
        proof {
            reveal(stream_next);
        }
        self.state = self.state.wrapping_mul(6364136223846793005).wrapping_add(1442695040888963407);
        1 + self.state % 9
    }
}

} // verus!
