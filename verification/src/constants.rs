//! Constants of the Core War machine.

use vstd::prelude::*;

verus! {

/// Size of the circular memory arena in bytes.
pub const MEMORY_SIZE: usize = 6144;

/// Modulus of the short index: offsets of most operands reach no further
/// than this from the program counter.
pub const IDX_MOD: usize = 512;

/// Initial length of a death-check period, in cycles.
pub const CYCLE_TO_DIE: u32 = 1536;

/// Amount by which a death check shortens the period.
pub const CYCLE_DELTA: u32 = 5;

/// Number of `live` instructions in one period that forces a shortening.
pub const NBR_LIVE: u32 = 40;

/// Number of consecutive death checks without shortening that forces one.
pub const MAX_CHECKS: u32 = 10;

/// Largest number of champions in one battle.
pub const MAX_CHAMPIONS: usize = 4;

} // verus!
