//! The errors of the codec, of the cipher and of argument handling.

use vstd::prelude::*;
use vstd::string::StringExecFns;

verus! {

/// Why a block string could not be turned back into bytes.
#[derive(Debug, Clone, Copy, PartialEq, Eq, Structural)]
pub enum DecodeError {
    /// The number of glyphs is not a multiple of eight.
    MalformedLength,
    /// A character other than the two glyphs occurs.
    UnsupportedAlphabet,
}

/// Everything that can go wrong between the command line and the result.
#[derive(Debug, Clone, Copy, PartialEq, Eq, Structural)]
pub enum ArgumentError {
    /// The number of arguments does not fit the selected mode.
    InvalidArgumentCount,
    /// The mode flag is not one of the known flags.
    InvalidArguments,
    /// The text to encrypt holds a character outside ASCII.
    NonAsciiInput,
    /// Data and key differ in length.
    LengthMismatch { data_len: usize, key_len: usize },
    /// A block string whose length is not a multiple of eight.
    MalformedLength,
    /// A block string with a character other than the two glyphs.
    UnsupportedAlphabet,
}

impl ArgumentError {
    /// The argument error that stands for a codec error.
    pub open spec fn of_decode(e: DecodeError) -> ArgumentError {
        match e {
            DecodeError::MalformedLength => ArgumentError::MalformedLength,
            DecodeError::UnsupportedAlphabet => ArgumentError::UnsupportedAlphabet,
        }
    }

    /// Turns a codec error into the argument error of the same kind.
    pub fn from_decode(e: DecodeError) -> (r: ArgumentError)
        ensures
            r == Self::of_decode(e),
    {
        match e {
            DecodeError::MalformedLength => ArgumentError::MalformedLength,
            DecodeError::UnsupportedAlphabet => ArgumentError::UnsupportedAlphabet,
        }
    }
}

impl ArgumentError {
    /// The message that tells the user of this error.
    pub open spec fn message_text(self) -> Seq<char> {
        match self {
            ArgumentError::InvalidArgumentCount => {
                "Error: Invalid number of arguments. Use \"-h\" or \"--help\" for usage information."@
            },
            ArgumentError::InvalidArguments => {
                "Error: Invalid arguments. Use \"-h\" or \"--help\" for usage information."@
            },
            ArgumentError::NonAsciiInput => {
                "Error: Non-ASCII text. This program currently only supports ASCII encoded text."@
            },
            ArgumentError::LengthMismatch { .. } => {
                "Error: Key and Ciphertext are not of the same length."@
            },
            ArgumentError::MalformedLength => {
                "Error: The number of blocks is not a multiple of 8."@
            },
            ArgumentError::UnsupportedAlphabet => "Error: Please decrypt with the \"█/ \" format"@,
        }
    }

    /// The message that tells the user of this error.
    pub fn message(&self) -> (text: String)
        ensures
            text@ == self.message_text(),
    {
        match self {
            ArgumentError::InvalidArgumentCount => String::from_str(
                "Error: Invalid number of arguments. Use \"-h\" or \"--help\" for usage information.",
            ),
            ArgumentError::InvalidArguments => String::from_str(
                "Error: Invalid arguments. Use \"-h\" or \"--help\" for usage information.",
            ),
            ArgumentError::NonAsciiInput => String::from_str(
                "Error: Non-ASCII text. This program currently only supports ASCII encoded text.",
            ),
            ArgumentError::LengthMismatch { .. } => String::from_str(
                "Error: Key and Ciphertext are not of the same length.",
            ),
            ArgumentError::MalformedLength => String::from_str(
                "Error: The number of blocks is not a multiple of 8.",
            ),
            ArgumentError::UnsupportedAlphabet => String::from_str(
                "Error: Please decrypt with the \"█/ \" format",
            ),
        }
    }
}

} // verus!
