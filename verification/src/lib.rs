//! A one-time-pad style XOR cipher whose keys and ciphertexts are shown as
//! printable block strings: eight glyphs per byte, least significant bit first.

pub mod blocks;
pub mod cipher;
pub mod error;
pub mod program;
pub mod text;

pub use blocks::{blocks_to_string, string_to_blocks};
pub use cipher::{encrypt, generate_key};
pub use error::{ArgumentError, DecodeError};
pub use program::{run, Mode, Outcome, Program};
