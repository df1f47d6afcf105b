use vstd::prelude::*;

verus! {

/// Multiplier of the 64-bit linear congruential step (PCG family).
pub const PCG_MULTIPLIER: u64 = 6364136223846793005;

/// Increment of the 64-bit linear congruential step; any odd value gives a
/// full-period generator.
pub const PCG_INCREMENT: u64 = 1442695040888963407;

/// The seeded random source that drives map generation and monster
/// placement.  The whole generator is a pure function of its 64-bit state,
/// which is what makes generation deterministic in the seed.
#[derive(Clone, Copy, Debug, PartialEq, Eq, Structural)]
pub struct Pcg32 {
    pub state: u64,
}

/// One linear congruential step of the generator state.
#[verifier::opaque]
pub open spec fn pcg_step(s: u64) -> u64 {
    (((s as int) * (PCG_MULTIPLIER as int) + (PCG_INCREMENT as int)) % 0x1_0000_0000_0000_0000) as u64
}

/// The 32-bit output drawn from a generator state (xorshift-high followed by
/// a random rotation, the PCG "XSH-RR" output function).
#[verifier::opaque]
pub open spec fn pcg_output(s: u64) -> u32 {
    let xs = (((s >> 18) ^ s) >> 27) as u32;
    let rot = (s >> 59) as u32;
    (xs >> rot) | (xs << (((32 - rot) as u32) & 31))
}

/// The output of the draw made from state `s`: the state is stepped once and
/// the new state is hashed down to 32 bits.
#[verifier::opaque]
pub open spec fn pcg_next(s: u64) -> u32 {
    pcg_output(pcg_step(s))
}

/// The value `gen_range(lo, hi)` returns when drawn from state `s`.
#[verifier::opaque]
pub open spec fn pcg_range(s: u64, lo: int, hi: int) -> int {
    lo + (pcg_next(s) as int) * (hi - lo) / 0x1_0000_0000
}

/// The value `gen_bool()` returns when drawn from state `s`.
#[verifier::opaque]
pub open spec fn pcg_bool(s: u64) -> bool {
    (pcg_next(s) >> 31) == 1
}

impl Pcg32 {
    /// Seed the generator.  The seed is mixed through one step so that small
    /// seeds do not yield nearly-equal early states.
    pub fn new(seed: u64) -> (r: Pcg32)
        ensures
            r.state == pcg_step(seed),
    {
        let mut rng = Pcg32 { state: seed };
        let _ = rng.next_u32();
        rng
    }

    /// Advance the state once and return 32 fresh bits.
    pub fn next_u32(&mut self) -> (r: u32)
        ensures
            final(self).state == pcg_step(old(self).state),
            r == pcg_next(old(self).state),
    {
        self.state = self.state.wrapping_mul(PCG_MULTIPLIER).wrapping_add(PCG_INCREMENT);
        let s = self.state;
        proof {
            reveal(pcg_output);
            reveal(pcg_next);
            lemma_pcg_step_is_wrapping(old(self).state);
        }
        let xs = (((s >> 18u64) ^ s) >> 27u64) as u32;
        let rot = (s >> 59u64) as u32;
        assert(rot < 32 && (((32 - rot) as u32) & 31) < 32) by (bit_vector)
            requires
                rot == (s >> 59u64) as u32,
        ;
        (xs >> rot) | (xs << ((32 - rot) & 31))
    }

    /// A uniformly distributed value in `[lo, hi)`.
    pub fn gen_range(&mut self, lo: i32, hi: i32) -> (r: i32)
        requires
            lo < hi,
            hi - lo <= i32::MAX,
        ensures
            final(self).state == pcg_step(old(self).state),
            r == pcg_range(old(self).state, lo as int, hi as int),
            lo <= r < hi,
    {
        let span = (hi as i64 - lo as i64) as u64;
        let u = self.next_u32();
        proof {
            reveal(pcg_range);
            assert((u as int) * (span as int) < 0x1_0000_0000 * (span as int)) by (nonlinear_arith)
                requires
                    (u as int) < 0x1_0000_0000,
                    span > 0,
            ;
            assert(0x1_0000_0000 * (span as int) <= 0x8000_0000_0000_0000) by (nonlinear_arith)
                requires
                    0 < span <= 0x8000_0000,
            ;
        }
        let prod: u64 = (u as u64) * span;
        proof {
            vstd::bits::lemma_u64_shr_is_div(prod, 32);
            vstd::arithmetic::power2::lemma2_to64();
            assert((prod as int) / 0x1_0000_0000 < span as int) by (nonlinear_arith)
                requires
                    (prod as int) < 0x1_0000_0000 * (span as int),
                    span > 0,
            ;
        }
        let idx = (prod >> 32u64) as u32;
        lo + (idx as i32)
    }

    /// A uniformly distributed boolean (the top bit of a fresh draw).
    pub fn gen_bool(&mut self) -> (r: bool)
        ensures
            final(self).state == pcg_step(old(self).state),
            r == pcg_bool(old(self).state),
    {
        let u = self.next_u32();
        proof {
            reveal(pcg_bool);
        }
        (u >> 31u32) == 1
    }
}

/// The generator state after `n` draws from state `s`.
pub open spec fn pcg_steps(s: u64, n: nat) -> u64
    decreases n,
{
    if n == 0 {
        s
    } else {
        pcg_step(pcg_steps(s, (n - 1) as nat))
    }
}

/// One more draw advances the stepped state once.
pub proof fn lemma_pcg_steps_snoc(s: u64, n: nat)
    ensures
        pcg_steps(s, n + 1) == pcg_step(pcg_steps(s, n)),
{
    assert(((n + 1) - 1) as nat == n);
}

/// A range draw always lands inside the requested half-open interval.
pub proof fn lemma_pcg_range_bounds(s: u64, lo: int, hi: int)
    requires
        lo < hi,
    ensures
        lo <= pcg_range(s, lo, hi) < hi,
{
    reveal(pcg_range);
    let u = pcg_next(s) as int;
    let span = hi - lo;
    assert(0 <= u < 0x1_0000_0000);
    assert(u * span < 0x1_0000_0000 * span) by (nonlinear_arith)
        requires
            0 <= u < 0x1_0000_0000,
            span > 0,
    ;
    assert(u * span / 0x1_0000_0000 < span) by (nonlinear_arith)
        requires
            u * span < 0x1_0000_0000 * span,
            span > 0,
    ;
    assert(u * span >= 0) by (nonlinear_arith)
        requires
            u >= 0,
            span > 0,
    ;
    assert(u * span / 0x1_0000_0000 >= 0) by (nonlinear_arith)
        requires
            u * span >= 0,
    ;
}

/// The modular spec of the state step agrees with the wrapping operations
/// the stepping code uses.
proof fn lemma_pcg_step_is_wrapping(s: u64)
    ensures
        pcg_step(s) == s.wrapping_mul(PCG_MULTIPLIER).wrapping_add(PCG_INCREMENT),
{
    reveal(pcg_step);
    let m = PCG_MULTIPLIER as int;
    let c = PCG_INCREMENT as int;
    let w = 0x1_0000_0000_0000_0000int;
    let p = (s as int * m) % w;
    assert((p + c) % w == (s as int * m + c) % w) by {
        vstd::arithmetic::div_mod::lemma_add_mod_noop((s as int) * m, c, w);
        vstd::arithmetic::div_mod::lemma_mod_twice(s as int * m, w);
        vstd::arithmetic::div_mod::lemma_add_mod_noop(p, c, w);
        vstd::arithmetic::div_mod::lemma_mod_twice(c, w);
    }
}

} // verus!
