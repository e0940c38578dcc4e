use vstd::prelude::*;
use vstd::string::*;

verus! {

/// Failure taxonomy of the conversion pipeline.
///
/// `Cancelled` marks a user-requested stop: a normal, non-error termination
/// that callers must not log as a failure.
#[derive(Debug, Clone)]
pub enum ConvertError {
    /// Unreadable input or unwritable output; carries the path.
    Io(String),
    /// Unsupported or malformed image; carries a description of the format.
    Decode(String),
    /// Heightmap/colormap size disagreement, or unequal tile heights.
    DimensionMismatch,
    /// Serialization invariant violation; carries the reason.
    Encode(String),
    /// The caller's progress callback asked generation to stop.
    Cancelled,
}

impl ConvertError {
    /// A human-readable description of the failure.
    pub fn message(&self) -> String {
        match self {
            ConvertError::Io(path) => {
                "unreadable or unwritable: ".to_owned().concat(path.as_str())
            }
            ConvertError::Decode(what) => {
                "cannot decode image: ".to_owned().concat(what.as_str())
            }
            ConvertError::DimensionMismatch => "image dimensions disagree".to_owned(),
            ConvertError::Encode(reason) => {
                "cannot encode save: ".to_owned().concat(reason.as_str())
            }
            ConvertError::Cancelled => "cancelled".to_owned(),
        }
    }

    /// True exactly for the `Cancelled` outcome, which callers treat as a
    /// normal termination rather than a failure.
    pub fn is_cancelled(&self) -> (r: bool)
        ensures
            r == (self is Cancelled),
    {
        match self {
            ConvertError::Cancelled => true,
            _ => false,
        }
    }
}

} // verus!
