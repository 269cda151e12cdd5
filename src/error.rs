//! What can go wrong when reading or writing a SER file.
use vstd::prelude::*;

verus! {

/// Failure of a SER operation.
#[derive(Debug, Clone, Copy, PartialEq, Eq, Structural)]
pub enum SerError {
    /// The file is shorter than the 178-byte header.
    FileTooShort,
    /// The header does not start with `LUCAM-RECORDER`.
    BadSignature,
    /// The file holds fewer bytes than the frames the header declares.
    InsufficientData,
    /// A frame index at or past the frame count.
    InvalidFrameIndex,
    /// A frame whose length is not the header's frame size.
    SizeMismatch,
    /// A frame count that does not fit the header's 32-bit slot.
    FrameCountTooLarge,
}

impl SerError {
    /// Whether this is a fault in the layout of a file being opened.
    pub fn is_structural(&self) -> (r: bool)
        ensures
            r == (*self == SerError::FileTooShort || *self == SerError::BadSignature || *self
                == SerError::InsufficientData),
    {
        match self {
            SerError::FileTooShort | SerError::BadSignature | SerError::InsufficientData => true,
            _ => false,
        }
    }
}

} // verus!
