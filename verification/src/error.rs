//! The ways in which a conversion can fail.

use vstd::prelude::*;

verus! {

/// Why a boundary could not be turned into geometry.
#[derive(Clone, Copy, Debug, PartialEq, Eq, Structural)]
pub enum ConversionError {
    /// A position literal is not sixteen characters of the expected shape.
    MalformedCoordinate,
    /// A distance literal has no readable magnitude followed by a space.
    MalformedDistance,
    /// An arc stands where no earlier segment has left a point to start from.
    AmbiguousArcStart,
}

/// What the user is told of an error.
pub open spec fn message_text(error: ConversionError) -> Seq<char> {
    match error {
        ConversionError::MalformedCoordinate => "A position in the airspace data cannot be read"@,
        ConversionError::MalformedDistance => "A distance in the airspace data cannot be read"@,
        ConversionError::AmbiguousArcStart => "An arc in the airspace data has no starting point"@,
    }
}

impl ConversionError {
    /// What the user is told of the error.
    pub fn message(&self) -> (text: &'static str)
        ensures
            text@ == message_text(*self),
    {
        match self {
            ConversionError::MalformedCoordinate => "A position in the airspace data cannot be read",
            ConversionError::MalformedDistance => "A distance in the airspace data cannot be read",
            ConversionError::AmbiguousArcStart => "An arc in the airspace data has no starting point",
        }
    }
}

} // verus!
