use vstd::prelude::*;
use vstd::string::StringExecFns;

verus! {

/// The two failure kinds of a parse: an underlying read ran short of
/// bytes, or the bytes violate the SMF structure (wrong magic, wrong
/// header length, out-of-sequence chunk, running status with no prior
/// status byte).
#[derive(Debug, Clone, Copy, PartialEq, Eq, Structural)]
pub enum MidiError {
    IoError,
    FormatError,
}

impl MidiError {
    /// A line of diagnostic text for in-process callers.
    pub fn describe(&self) -> (r: String)
        ensures
            *self is IoError ==> r@ == "the input ended before the bytes its header and chunk lengths declare"@,
            *self is FormatError ==> r@ == "the bytes violate the SMF structure: wrong magic, wrong header length, out-of-sequence chunk, or running status before any status byte"@,
    {
        match self {
            MidiError::IoError => String::from_str(
                "the input ended before the bytes its header and chunk lengths declare",
            ),
            MidiError::FormatError => String::from_str(
                "the bytes violate the SMF structure: wrong magic, wrong header length, out-of-sequence chunk, or running status before any status byte",
            ),
        }
    }
}

} // verus!
