//! Settings shared by the digital decoders.

use vstd::prelude::*;

verus! {

/// Chip-select polarity used by digital decoders.
#[derive(Debug, Clone, Copy, PartialEq, Eq, Structural)]
pub enum CsPolarity {
    /// Chip select is active low.
    ActiveLow,
    /// Chip select is active high.
    ActiveHigh,
    /// Chip-select state is ignored.
    Disabled,
}

/// Bit order used when assembling serial values.
#[derive(Debug, Clone, Copy, PartialEq, Eq, Structural)]
pub enum BitOrder {
    /// Most-significant bit first.
    MsbFirst,
    /// Least-significant bit first.
    LsbFirst,
}

impl Default for BitOrder {
    fn default() -> (result: Self)
        ensures
            result == BitOrder::MsbFirst,
    {
        BitOrder::MsbFirst
    }
}

/// Byte or cycle order used when assembling multi-cycle words.
#[derive(Debug, Clone, Copy, PartialEq, Eq, Structural)]
pub enum Endianness {
    /// The first cycle is the least-significant part.
    Little,
    /// The first cycle is the most-significant part.
    Big,
}

impl Default for Endianness {
    fn default() -> (result: Self)
        ensures
            result == Endianness::Little,
    {
        Endianness::Little
    }
}

} // verus!
