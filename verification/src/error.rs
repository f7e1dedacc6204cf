//! The failure taxonomy shared by every scanner and decoder in the crate.

use vstd::prelude::*;

verus! {

/// Why a line (or a piece of one) failed to decode.
#[derive(Clone, Copy, Debug, PartialEq, Eq, Structural)]
pub enum DecodeError {
    /// A required decimal integer is absent, non-numeric, or does not fit the
    /// target width.
    BadNumber,
    /// A required single-character separator is missing, is a different
    /// character, or occurs more than once where exactly one is required.
    BadSeparator,
    /// A length-prefixed field claims more characters than remain.
    NotEnoughCharacters,
    /// The full grammar was consumed but characters were left over; the line
    /// as a whole is malformed.
    BadLine,
}

} // verus!
