//! Gem variants and positioned gem blocks.

use vstd::prelude::*;

use crate::randomness::rng_usize_below;

verus! {

/// The six gem colors.
#[derive(Copy, Clone, Debug, PartialEq, Eq, Structural)]
pub enum Gem {
    Ruby,
    Amber,
    Topaz,
    Emerald,
    Sapphire,
    Amethyst,
}

/// Number of gem variants.
pub const GEM_COUNT: usize = 6;

/// The gem at position `i` of the fixed variant order.
pub open spec fn gem_at(i: int) -> Gem {
    if i == 0 {
        Gem::Ruby
    } else if i == 1 {
        Gem::Amber
    } else if i == 2 {
        Gem::Topaz
    } else if i == 3 {
        Gem::Emerald
    } else if i == 4 {
        Gem::Sapphire
    } else {
        Gem::Amethyst
    }
}

/// The `MurmurHash3` 64-bit finalizer (fmix64).
pub open spec fn fmix64(seed: u64) -> u64 {
    let h1 = seed ^ (seed >> 33u64);
    let h2 = h1.wrapping_mul(0xff51afd7ed558ccdu64);
    let h3 = h2 ^ (h2 >> 33u64);
    let h4 = h3.wrapping_mul(0xc4ceb9fe1a85ec53u64);
    h4 ^ (h4 >> 33u64)
}

impl Gem {
    /// The gem at position `i` of the fixed variant order
    /// (Ruby, Amber, Topaz, Emerald, Sapphire, Amethyst).
    pub fn from_index(i: usize) -> (gem: Gem)
        requires
            i < GEM_COUNT,
        ensures
            gem == gem_at(i as int),
    {
        match i {
            0 => Gem::Ruby,
            1 => Gem::Amber,
            2 => Gem::Topaz,
            3 => Gem::Emerald,
            4 => Gem::Sapphire,
            _ => Gem::Amethyst,
        }
    }

    /// A gem drawn with the generator; every variant can come out.
    pub fn random(rng: &mut fastrand::Rng) -> (gem: Gem)
        ensures
            exists|i: int| 0 <= i < GEM_COUNT && gem == gem_at(i),
    {
        let i = rng_usize_below(rng, GEM_COUNT);
        Gem::from_index(i)
    }

    /// A deterministic scramble of `seed` onto a gem: the seed goes through the
    /// `MurmurHash3` 64-bit finalizer, so that small changes of position or
    /// time give unrelated colors.
    pub fn random_for_pause(seed: u64) -> (gem: Gem)
        ensures
            gem == gem_at(((fmix64(seed) as usize) % (GEM_COUNT as usize)) as int),
    {
        let mut hash = seed;
        hash = hash ^ (hash >> 33u64);
        hash = hash.wrapping_mul(0xff51afd7ed558ccdu64);
        hash = hash ^ (hash >> 33u64);
        hash = hash.wrapping_mul(0xc4ceb9fe1a85ec53u64);
        hash = hash ^ (hash >> 33u64);
        let idx = (hash as usize) % GEM_COUNT;
        Gem::from_index(idx)
    }
}

/// A gem at a board position; `y` may be negative above the board.
#[derive(Copy, Clone, Debug, PartialEq, Eq, Structural)]
pub struct GemBlock {
    pub x: u8,
    pub y: i8,
    pub gem: Gem,
}

impl GemBlock {
    /// A block with the given position and gem.
    pub fn new(x: u8, y: i8, gem: Gem) -> (block: GemBlock)
        ensures
            block.x == x,
            block.y == y,
            block.gem == gem,
    {
        GemBlock { x, y, gem }
    }
}

} // verus!
