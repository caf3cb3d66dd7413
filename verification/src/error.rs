//! The ways in which reading or decoding can fail.

use vstd::prelude::*;

verus! {

/// Every failure that a read or a decode step can report.
#[derive(Clone, Copy, Debug, PartialEq, Eq, Structural)]
pub enum ErrorType {
    /// A read or a seek would leave the buffer.
    OutOfRange,
    /// More than 32 bits were asked for in one read.
    WidthExceeded,
    /// The version code is not one this library knows.
    UnknownVersion,
    /// The layer code is reserved.
    UnknownLayer,
    /// The channel mode code is not one this library knows.
    UnknownMode,
    /// The bitrate index is reserved, or not defined for the header's version and layer.
    UnknownBitrate,
    /// The sample rate index is reserved, or not defined for the header's version.
    UnknownFrequency,
    /// The sync word or the layer is not what a Layer III frame starts with.
    InvalidHeader,
    /// A channel declares more than 288 big values.
    BigValuesOutOfRange,
    /// A channel switches windows with block type 0.
    BlockTypeForbidden,
    /// The main data is declared to reach further than the stream can supply.
    Overflow,
}

} // verus!
