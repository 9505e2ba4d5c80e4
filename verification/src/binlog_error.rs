use vstd::prelude::*;

verus! {

/// Why a decode call gave up.
#[derive(Debug, Clone, Copy, PartialEq, Eq, Structural)]
pub enum BinlogError {
    /// The input ended before the field being read was complete.
    UnexpectedEndOfInput,
    /// The declared fractional-second precision is not one the decoder
    /// knows a layout for. Carries the rejected value.
    UnsupportedPrecision(u8),
}

} // verus!
