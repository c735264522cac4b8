use vstd::prelude::*;

verus! {

/// The state an effect's random stream starts from for `seed`.
pub open spec fn seeded(seed: u32) -> u64 {
    (((seed as nat) * 0x9E3779B97F4A7C15nat) % 0x1_0000_0000_0000_0000nat) as u64 ^ 0xD1B54A32D192ED03u64
}

/// One xorshift step (shifts 13, 7, 17).
pub open spec fn xorshift(s: u64) -> u64 {
    let a = s ^ (s << 13u64);
    let b = a ^ (a >> 7u64);
    b ^ (b << 17u64)
}

/// A small random stream for the effects, repeatable from its seed.
pub struct Rng {
    state: u64,
}

impl Rng {
    pub closed spec fn state_spec(&self) -> u64 {
        self.state
    }

    /// The stream of `seed`.
    pub fn new(seed: u32) -> (r: Self)
        ensures
            r.state_spec() == seeded(seed),
    {
        Rng { state: (seed as u64).wrapping_mul(0x9E3779B97F4A7C15u64) ^ 0xD1B54A32D192ED03u64 }
    }

    /// Advances the stream and gives its next 53 random bits (a number
    /// below 2^53, which divided by 2^53 is a value in [0, 1)).
    pub fn next_bits(&mut self) -> (r: u64)
        ensures
            final(self).state_spec() == xorshift(old(self).state_spec()),
            r == final(self).state_spec() >> 11u64,
            r < 0x20_0000_0000_0000u64,
    {
        let s0 = self.state;
        let a = s0 ^ (s0 << 13u64);
        let b = a ^ (a >> 7u64);
        let c = b ^ (b << 17u64);
        self.state = c;
        let r = c >> 11u64;
        assert(c >> 11u64 < 0x20_0000_0000_0000u64) by (bit_vector);
        r
    }
}

/// The hash of the noise cell (`ix`, `iy`) of a sway effect seeded with
/// `seed`, kept to 0..999 (the cell's value is that number divided by
/// 1000).
pub open spec fn cell_hash(ix: i32, iy: i32, seed: u32) -> u32 {
    let h0 = vstd::wrapping::i32_specs::wrapping_add(
        vstd::wrapping::i32_specs::wrapping_mul(ix, 374761393i32),
        vstd::wrapping::i32_specs::wrapping_mul(iy, 668265263i32),
    );
    let h1 = vstd::wrapping::i32_specs::wrapping_add(h0, (seed ^ 0x9E37_79B9u32) as i32);
    let h2 = h1 ^ (h1 >> 13i32);
    let h3 = vstd::wrapping::i32_specs::wrapping_mul(h2, 1274126177i32);
    let h4 = h3 ^ (h3 >> 16i32);
    ((h4 as u32) % 1000) as u32
}

/// The hash of a noise cell of a sway effect, below 1000.
pub fn noise_cell_hash(ix: i32, iy: i32, seed: u32) -> (r: u32)
    ensures
        r == cell_hash(ix, iy, seed),
        r < 1000,
{
    let mut h = ix.wrapping_mul(374761393i32).wrapping_add(iy.wrapping_mul(668265263i32));
    h = h.wrapping_add((seed ^ 0x9E37_79B9u32) as i32);
    h = h ^ (h >> 13i32);
    h = h.wrapping_mul(1274126177i32);
    h = h ^ (h >> 16i32);
    (h as u32) % 1000
}

} // verus!
