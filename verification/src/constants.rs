//! Hardware constants of the FV-1.

use vstd::prelude::*;

verus! {

/// Maximum number of instructions in a program.
pub const MAX_INSTRUCTIONS: usize = 128;

/// Delay RAM size in samples.
pub const DELAY_RAM_SIZE: usize = 32768;

/// Number of general purpose registers.
pub const NUM_REGISTERS: usize = 32;

/// Sample rate of the FV-1 in hertz (fixed at 32.768 kHz).
pub const SAMPLE_RATE: u32 = 32768;

/// Maximum delay time in whole seconds (`DELAY_RAM_SIZE` samples at `SAMPLE_RATE`).
pub const MAX_DELAY_TIME: u32 = 1;

/// Scale of the S1.14 fixed-point format used for coefficients (2^14).
pub const FIXED_POINT_SCALE: u32 = 16384;

/// Scale of the S.23 fixed-point format used for delay addresses (2^23).
pub const ADDR_FIXED_POINT_SCALE: u32 = 8388608;

} // verus!
