//! Frame-level constants and the SC classification of a Hodge frame.
use vstd::prelude::*;

verus! {

/// Samples per frame.
pub const FRAME_SIZE: usize = 1024;

/// Class of a frame by its conservation violation index ξ and its energy.
#[derive(Debug, Clone, Copy, PartialEq, Eq, Structural)]
pub enum ScClass {
    /// Near-silence.
    SC1,
    /// Tonal, sustained.
    SC2,
    /// Attack, transient event.
    SC3,
}

impl ScClass {
    /// The byte that stands for the class in a `.hodge` file.
    pub open spec fn code(self) -> u8 {
        match self {
            ScClass::SC1 => 1,
            ScClass::SC2 => 2,
            ScClass::SC3 => 3,
        }
    }

    pub fn to_byte(self) -> (b: u8)
        ensures
            b == self.code(),
    {
        match self {
            ScClass::SC1 => 1,
            ScClass::SC2 => 2,
            ScClass::SC3 => 3,
        }
    }
}

} // verus!
