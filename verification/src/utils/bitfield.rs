use vstd::prelude::*;

verus! {

/// Helpers that split a byte into its two 4-bit halves.
pub struct BitReader;

impl BitReader {
    /// The upper four bits of `byte`.
    pub fn high_nibble(byte: u8) -> (r: u8)
        ensures
            r == byte / 16,
    {
        byte / 16
    }

    /// The lower four bits of `byte`.
    pub fn low_nibble(byte: u8) -> (r: u8)
        ensures
            r == byte % 16,
    {
        byte % 16
    }
}

} // verus!
