use vstd::prelude::*;

verus! {

/// A structural failure while decoding one server.met file.  Any of these
/// aborts the file being decoded: partial results from a damaged file are
/// never returned.
#[derive(Debug, Clone, Copy, PartialEq, Eq, Structural)]
pub enum DecodeError {
    /// The stream ended before a read completed.
    Truncated,
    /// The first byte of the file was neither 0x0E nor 0xE0.
    HeaderInvalid(u8),
    /// A tag's type byte (after masking the short-form bit) was neither the
    /// string type (2) nor the numeric type (3).
    InvalidTagType(u8),
    /// A recognised tag name arrived with the wrong kind of value, for
    /// example a server name carrying a number instead of a string.
    TagValueMismatch,
    /// A length-prefixed text field did not hold valid UTF-8.
    InvalidUtf8,
    /// A priority tag held a value other than 0, 1 or 2.
    InvalidPriority(u32),
    /// A port tag held a value that does not fit in 16 bits.
    PortOutOfRange(u32),
    /// An auxiliary-port list string could not be parsed as a
    /// comma-separated list of 16-bit port numbers.
    InvalidAuxPorts,
}

} // verus!
