//! xoshiro256** (Blackman & Vigna), seeded through splitmix64: the deterministic source of
//! the noise generators.

use vstd::prelude::*;
use vstd::wrapping::u64_specs::{wrapping_add, wrapping_mul};

verus! {

pub const SPLITMIX_GAMMA: u64 = 0x9E37_79B9_7F4A_7C15;

pub const SPLITMIX_M1: u64 = 0xBF58_476D_1CE4_E5B9;

pub const SPLITMIX_M2: u64 = 0x94D0_49BB_1331_11EB;

/// Rotation of a 64-bit word to the left by `k` bits, `0 < k < 64`.
pub open spec fn rotl_spec(x: u64, k: u64) -> u64 {
    (x << k) | (x >> ((64 - k) as u64))
}

/// `x.rotate_left(k)` for `0 < k < 64`.
pub fn rotl(x: u64, k: u64) -> (r: u64)
    requires
        0 < k < 64,
    ensures
        r == rotl_spec(x, k),
{
    (x << k) | (x >> (64 - k))
}

/// The splitmix64 output function.
pub open spec fn splitmix_mix(s: u64) -> u64 {
    let z1 = wrapping_mul(s ^ (s >> 30u64), SPLITMIX_M1);
    let z2 = wrapping_mul(z1 ^ (z1 >> 27u64), SPLITMIX_M2);
    z2 ^ (z2 >> 31u64)
}

/// The splitmix64 state after `k` steps from `seed`.
pub open spec fn splitmix_state(seed: u64, k: nat) -> u64
    decreases k,
{
    if k == 0 {
        seed
    } else {
        wrapping_add(splitmix_state(seed, (k - 1) as nat), SPLITMIX_GAMMA)
    }
}

/// The four xoshiro words seeded from `seed`: the first four splitmix64 outputs.
pub open spec fn seeded_state(seed: u64) -> Seq<u64> {
    seq![
        splitmix_mix(splitmix_state(seed, 1)),
        splitmix_mix(splitmix_state(seed, 2)),
        splitmix_mix(splitmix_state(seed, 3)),
        splitmix_mix(splitmix_state(seed, 4)),
    ]
}

/// The number xoshiro256** outputs for state `s`.
pub open spec fn xoshiro_output(s: Seq<u64>) -> u64 {
    wrapping_mul(rotl_spec(wrapping_mul(s[1], 5), 7), 9)
}

/// The xoshiro256** state that follows `s`.
pub open spec fn xoshiro_next(s: Seq<u64>) -> Seq<u64> {
    let t = s[1] << 17u64;
    let s2 = s[2] ^ s[0];
    let s3 = s[3] ^ s[1];
    let s1 = s[1] ^ s2;
    let s0 = s[0] ^ s3;
    seq![s0, s1, s2 ^ t, rotl_spec(s3, 45)]
}

/// The `k`-th number drawn from a generator seeded with `seed`.
pub open spec fn draw(seed: u64, k: nat) -> u64 {
    xoshiro_output(state_after(seed, k))
}

/// The state after `k` draws from a generator seeded with `seed`.
pub open spec fn state_after(seed: u64, k: nat) -> Seq<u64>
    decreases k,
{
    if k == 0 {
        seeded_state(seed)
    } else {
        xoshiro_next(state_after(seed, (k - 1) as nat))
    }
}

/// xoshiro256** generator.
#[derive(Debug, Clone)]
pub struct Rng {
    s0: u64,
    s1: u64,
    s2: u64,
    s3: u64,
}

impl View for Rng {
    type V = Seq<u64>;

    closed spec fn view(&self) -> Seq<u64> {
        seq![self.s0, self.s1, self.s2, self.s3]
    }
}

fn splitmix_next(s: &mut u64) -> (r: u64)
    ensures
        *final(s) == wrapping_add(*old(s), SPLITMIX_GAMMA),
        r == splitmix_mix(*final(s)),
{
    *s = s.wrapping_add(SPLITMIX_GAMMA);
    let mut z = *s;
    z = (z ^ (z >> 30)).wrapping_mul(SPLITMIX_M1);
    z = (z ^ (z >> 27)).wrapping_mul(SPLITMIX_M2);
    z ^ (z >> 31)
}

impl Rng {
    /// Seed through splitmix64.
    pub fn new(seed: u64) -> (r: Rng)
        ensures
            r@ == seeded_state(seed),
    {
        let mut s = seed;
        let a = splitmix_next(&mut s);
        let b = splitmix_next(&mut s);
        let c = splitmix_next(&mut s);
        let d = splitmix_next(&mut s);
        proof {
            reveal_with_fuel(splitmix_state, 5);
        }
        Rng { s0: a, s1: b, s2: c, s3: d }
    }

    /// The next 64 random bits.
    pub fn next_u64(&mut self) -> (r: u64)
        ensures
            r == xoshiro_output(old(self)@),
            final(self)@ == xoshiro_next(old(self)@),
    {
        let result = rotl(self.s1.wrapping_mul(5), 7).wrapping_mul(9);
        let t = self.s1 << 17;
        self.s2 = self.s2 ^ self.s0;
        self.s3 = self.s3 ^ self.s1;
        self.s1 = self.s1 ^ self.s2;
        self.s0 = self.s0 ^ self.s3;
        self.s2 = self.s2 ^ t;
        self.s3 = rotl(self.s3, 45);
        result
    }
}

/// Drawing from a generator, again and again, walks the sequence its seed determines: the
/// `k`-th draw only depends on the seed.
pub proof fn lemma_draws_follow_seed(seed: u64, k: nat)
    ensures
        state_after(seed, k + 1) == xoshiro_next(state_after(seed, k)),
        draw(seed, k) == xoshiro_output(state_after(seed, k)),
{
}

} // verus!
