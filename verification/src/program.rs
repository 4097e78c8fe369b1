//! The program: the modes that the command line selects, the checks on their
//! arguments, and what running each mode gives.

use vstd::prelude::*;
use vstd::string::{StringExecFns, StringExecFnsIsAscii};
use vstd::utf8::{encode_utf8, is_ascii_chars, is_ascii_chars_encode_utf8};

use crate::blocks::{
    decode, decode_result, decode_spec, encode_spec, is_block_string, lemma_decode_encode,
    string_to_blocks,
};
use crate::cipher::{
    combine, combine_result, encrypt, encrypt_result, generate_key, is_key, is_key_text,
    lemma_combine_involution, lemma_encrypt_involution, lemma_key_text_bytes, xor_spec,
};
use crate::error::ArgumentError;
use crate::text::{byte_chars, string_from_utf8_lossy, utf8_lossy, vec_to_string};

verus! {

/// What the program is asked to do.
#[derive(Debug, Clone, PartialEq, Eq)]
pub enum Mode {
    /// Show the usage text.
    Help,
    /// Show the version.
    Version,
    /// Encrypt this text with a fresh key.
    Encrypt { plaintext: String },
    /// Decrypt these ciphertext bytes with these key bytes.
    Decrypt { ciphertext: Vec<u8>, key: Vec<u8> },
}

/// A mode as plain values.
pub enum ModeView {
    Help,
    Version,
    Encrypt { plaintext: Seq<char> },
    Decrypt { ciphertext: Seq<u8>, key: Seq<u8> },
}

impl View for Mode {
    type V = ModeView;

    open spec fn view(&self) -> ModeView {
        match self {
            Mode::Help => ModeView::Help,
            Mode::Version => ModeView::Version,
            Mode::Encrypt { plaintext } => ModeView::Encrypt { plaintext: plaintext@ },
            Mode::Decrypt { ciphertext, key } => ModeView::Decrypt {
                ciphertext: ciphertext@,
                key: key@,
            },
        }
    }
}

/// What a run of the program has to show.
#[derive(Debug, Clone, PartialEq, Eq)]
pub enum Outcome {
    /// The usage text is to be shown.
    Help,
    /// The version is to be shown.
    Version,
    /// The text was encrypted: the key and the ciphertext as block strings.
    Encrypted { plaintext: String, key_blocks: String, ciphertext_blocks: String },
    /// The ciphertext was decrypted: ciphertext and key as text, and the
    /// plaintext with one character for each byte.
    Decrypted { ciphertext: String, key: String, plaintext: String },
}

/// An outcome as plain values.
pub enum OutcomeView {
    Help,
    Version,
    Encrypted { plaintext: Seq<char>, key_blocks: Seq<char>, ciphertext_blocks: Seq<char> },
    Decrypted { ciphertext: Seq<char>, key: Seq<char>, plaintext: Seq<char> },
}

impl View for Outcome {
    type V = OutcomeView;

    open spec fn view(&self) -> OutcomeView {
        match self {
            Outcome::Help => OutcomeView::Help,
            Outcome::Version => OutcomeView::Version,
            Outcome::Encrypted { plaintext, key_blocks, ciphertext_blocks } => {
                OutcomeView::Encrypted {
                    plaintext: plaintext@,
                    key_blocks: key_blocks@,
                    ciphertext_blocks: ciphertext_blocks@,
                }
            },
            Outcome::Decrypted { ciphertext, key, plaintext } => OutcomeView::Decrypted {
                ciphertext: ciphertext@,
                key: key@,
                plaintext: plaintext@,
            },
        }
    }
}

/// The arguments as texts.
pub open spec fn arg_texts(args: Seq<String>) -> Seq<Seq<char>> {
    Seq::new(args.len(), |i: int| args[i]@)
}

/// Whether an argument asks for the usage text.
pub open spec fn is_help_flag(arg: Seq<char>) -> bool {
    arg == "-h"@ || arg == "--help"@
}

/// Whether an argument asks for the version.
pub open spec fn is_version_flag(arg: Seq<char>) -> bool {
    arg == "-v"@ || arg == "--version"@
}

/// Whether an argument asks for an encryption.
pub open spec fn is_encrypt_flag(arg: Seq<char>) -> bool {
    arg == "-e"@ || arg == "--encrypt"@
}

/// Whether an argument asks for a decryption.
pub open spec fn is_decrypt_flag(arg: Seq<char>) -> bool {
    arg == "-d"@ || arg == "--decrypt"@
}

/// Whether an argument is the short or the long form of a flag.
fn flag_matches(arg: &String, short: &str, long: &str) -> (b: bool)
    ensures
        b == (arg@ == short@ || arg@ == long@),
{
    *arg == String::from_str(short) || *arg == String::from_str(long)
}

impl Mode {
    /// What is wrong with the arguments of an encryption, if anything: there
    /// must be three of them, the third being ASCII text.
    pub open spec fn encryption_args_error(args: Seq<Seq<char>>) -> Option<ArgumentError> {
        if args.len() != 3 {
            Some(ArgumentError::InvalidArgumentCount)
        } else if !is_ascii_chars(args[2]) {
            Some(ArgumentError::NonAsciiInput)
        } else {
            None
        }
    }

    /// What is wrong with the arguments of a decryption, if anything: there
    /// must be four of them, the third and the fourth being block strings, in
    /// this order, of the same number of bytes.
    pub open spec fn decryption_args_error(args: Seq<Seq<char>>) -> Option<ArgumentError> {
        if args.len() != 4 {
            Some(ArgumentError::InvalidArgumentCount)
        } else {
            match decode_result(args[2]) {
                Err(e) => Some(ArgumentError::of_decode(e)),
                Ok(ciphertext) => match decode_result(args[3]) {
                    Err(e) => Some(ArgumentError::of_decode(e)),
                    Ok(key) => match combine_result(ciphertext, key) {
                        Err(e) => Some(e),
                        Ok(_) => None,
                    },
                },
            }
        }
    }

    /// The mode that the arguments select, or what is wrong with them. The
    /// first argument is the program's name, the second the flag.
    pub open spec fn parse(args: Seq<Seq<char>>) -> Result<ModeView, ArgumentError> {
        if args.len() < 2 {
            Err(ArgumentError::InvalidArgumentCount)
        } else if is_help_flag(args[1]) {
            Ok(ModeView::Help)
        } else if is_version_flag(args[1]) {
            Ok(ModeView::Version)
        } else if is_encrypt_flag(args[1]) {
            match Self::encryption_args_error(args) {
                Some(e) => Err(e),
                None => Ok(ModeView::Encrypt { plaintext: args[2] }),
            }
        } else if is_decrypt_flag(args[1]) {
            match Self::decryption_args_error(args) {
                Some(e) => Err(e),
                None => Ok(
                    ModeView::Decrypt {
                        ciphertext: decode_spec(args[2]),
                        key: decode_spec(args[3]),
                    },
                ),
            }
        } else {
            Err(ArgumentError::InvalidArguments)
        }
    }

    /// Whether a mode can be run without error: the text to encrypt is ASCII,
    /// and ciphertext and key are of one length.
    pub open spec fn runnable(mode: ModeView) -> bool {
        match mode {
            ModeView::Encrypt { plaintext } => is_ascii_chars(plaintext),
            ModeView::Decrypt { ciphertext, key } => ciphertext.len() == key.len(),
            _ => true,
        }
    }

    /// Checks the arguments of an encryption. A result of `Ok` always holds
    /// `true`.
    pub fn are_encryption_args_valid(args: &[String]) -> (r: Result<bool, ArgumentError>)
        ensures
            r == match Self::encryption_args_error(arg_texts(args@)) {
                Some(e) => Err::<bool, ArgumentError>(e),
                None => Ok::<bool, ArgumentError>(true),
            },
    {
        if args.len() == 3 {
            if !args[2].is_ascii() {
                return Err(ArgumentError::NonAsciiInput);
            }
            Ok(true)
        } else {
            Err(ArgumentError::InvalidArgumentCount)
        }
    }

    /// Checks the arguments of a decryption. A result of `Ok` always holds
    /// `true`.
    pub fn are_decryption_args_valid(args: &[String]) -> (r: Result<bool, ArgumentError>)
        ensures
            r == match Self::decryption_args_error(arg_texts(args@)) {
                Some(e) => Err::<bool, ArgumentError>(e),
                None => Ok::<bool, ArgumentError>(true),
            },
    {
        if args.len() == 4 {
            let ciphertext = match decode(args[2].as_str()) {
                Ok(bytes) => bytes,
                Err(e) => {
                    return Err(ArgumentError::from_decode(e));
                },
            };
            let key = match decode(args[3].as_str()) {
                Ok(bytes) => bytes,
                Err(e) => {
                    return Err(ArgumentError::from_decode(e));
                },
            };
            if ciphertext.len() != key.len() {
                return Err(
                    ArgumentError::LengthMismatch {
                        data_len: ciphertext.len(),
                        key_len: key.len(),
                    },
                );
            }
            Ok(true)
        } else {
            Err(ArgumentError::InvalidArgumentCount)
        }
    }

    /// Reads the mode off the command line's arguments.
    pub fn try_from(args: &[String]) -> (r: Result<Mode, ArgumentError>)
        ensures
            r is Ok ==> Self::parse(arg_texts(args@)) == Ok::<ModeView, ArgumentError>(r->Ok_0@),
            r is Err ==> Self::parse(arg_texts(args@)) == Err::<ModeView, ArgumentError>(
                r->Err_0,
            ),
            r is Ok ==> Self::runnable(r->Ok_0@),
    {
        if args.len() < 2 {
            return Err(ArgumentError::InvalidArgumentCount);
        }
        let flag = &args[1];
        if flag_matches(flag, "-h", "--help") {
            Ok(Mode::Help)
        } else if flag_matches(flag, "-v", "--version") {
            Ok(Mode::Version)
        } else if flag_matches(flag, "-e", "--encrypt") {
            match Self::are_encryption_args_valid(args) {
                Ok(_) => Ok(Mode::Encrypt { plaintext: args[2].clone() }),
                Err(e) => Err(e),
            }
        } else if flag_matches(flag, "-d", "--decrypt") {
            match Self::are_decryption_args_valid(args) {
                Ok(_) => {
                    let ciphertext = match decode(args[2].as_str()) {
                        Ok(bytes) => bytes,
                        Err(e) => {
                            return Err(ArgumentError::from_decode(e));
                        },
                    };
                    let key = match decode(args[3].as_str()) {
                        Ok(bytes) => bytes,
                        Err(e) => {
                            return Err(ArgumentError::from_decode(e));
                        },
                    };
                    Ok(Mode::Decrypt { ciphertext, key })
                },
                Err(e) => Err(e),
            }
        } else {
            Err(ArgumentError::InvalidArguments)
        }
    }
}

/// A mode that was read off the arguments and found in order.
#[derive(Debug)]
pub struct Program {
    mode: Mode,
}

impl Program {
    #[verifier::type_invariant]
    spec fn well_formed(self) -> bool {
        Mode::runnable(self.mode@)
    }

    /// The program's mode, as plain values.
    pub closed spec fn mode_view(self) -> ModeView {
        self.mode@
    }

    /// The program's mode.
    pub fn mode(&self) -> (mode: &Mode)
        ensures
            mode@ == self.mode_view(),
            Mode::runnable(mode@),
    {
        proof {
            use_type_invariant(self);
        }
        &self.mode
    }

    /// Builds the program that the command line's arguments ask for.
    pub fn build(args: &[String]) -> (r: Result<Program, ArgumentError>)
        ensures
            r is Ok ==> Mode::parse(arg_texts(args@)) == Ok::<ModeView, ArgumentError>(
                r->Ok_0.mode_view(),
            ),
            r is Err ==> Mode::parse(arg_texts(args@)) == Err::<ModeView, ArgumentError>(
                r->Err_0,
            ),
    {
        match Mode::try_from(args) {
            Ok(mode) => Ok(Program { mode }),
            Err(e) => Err(e),
        }
    }
}

/// What encrypting a text with a given key has to show.
pub open spec fn encryption_outcome(plaintext: Seq<char>, key: Seq<char>) -> Result<
    OutcomeView,
    ArgumentError,
> {
    match encrypt_result(plaintext, key) {
        Ok(ciphertext) => Ok(
            OutcomeView::Encrypted {
                plaintext,
                key_blocks: encode_spec(encode_utf8(key)),
                ciphertext_blocks: encode_spec(encode_utf8(ciphertext)),
            },
        ),
        Err(e) => Err(e),
    }
}

/// What decrypting ciphertext bytes with key bytes has to show.
pub open spec fn decryption_outcome(ciphertext: Seq<u8>, key: Seq<u8>) -> Result<
    OutcomeView,
    ArgumentError,
> {
    match combine_result(ciphertext, key) {
        Ok(plaintext) => Ok(
            OutcomeView::Decrypted {
                ciphertext: utf8_lossy(ciphertext),
                key: utf8_lossy(key),
                plaintext: byte_chars(plaintext),
            },
        ),
        Err(e) => Err(e),
    }
}

/// Whether an outcome shows an encryption of the text with some key: the key
/// shown is a block string of a key for the text, and the ciphertext shown is
/// the block string of the text combined with that key.
pub open spec fn is_encryption_of(plaintext: Seq<char>, outcome: OutcomeView) -> bool {
    match outcome {
        OutcomeView::Encrypted { plaintext: shown, key_blocks, ciphertext_blocks } => {
            &&& shown == plaintext
            &&& is_block_string(key_blocks)
            &&& is_key(decode_spec(key_blocks), plaintext.len())
            &&& ciphertext_blocks == encode_spec(
                xor_spec(encode_utf8(plaintext), decode_spec(key_blocks)),
            )
        },
        _ => false,
    }
}

/// Encrypting ASCII text with the text of a key for it shows an encryption
/// of the text.
pub proof fn lemma_encryption_outcome(plaintext: Seq<char>, key: Seq<char>)
    requires
        is_ascii_chars(plaintext),
        is_key_text(key, plaintext.len()),
    ensures
        encryption_outcome(plaintext, key) is Ok,
        is_encryption_of(plaintext, encryption_outcome(plaintext, key)->Ok_0),
{
    lemma_key_text_bytes(key, plaintext.len());
    lemma_encrypt_involution(plaintext, key);
    is_ascii_chars_encode_utf8(plaintext);
    let cipher = xor_spec(encode_utf8(plaintext), encode_utf8(key));
    is_ascii_chars_encode_utf8(byte_chars(cipher));
    assert(encode_utf8(byte_chars(cipher)) =~= cipher);
    lemma_decode_encode(encode_utf8(key));
}

/// Decrypting what an encryption shows gives the text back: the two block
/// strings decode to a ciphertext and a key of one length, and combining them
/// gives the bytes of the text.
pub proof fn lemma_decryption_undoes_encryption(
    plaintext: Seq<char>,
    key_blocks: Seq<char>,
    ciphertext_blocks: Seq<char>,
)
    requires
        is_ascii_chars(plaintext),
        is_encryption_of(
            plaintext,
            OutcomeView::Encrypted { plaintext, key_blocks, ciphertext_blocks },
        ),
    ensures
        is_block_string(key_blocks),
        is_block_string(ciphertext_blocks),
        combine_result(decode_spec(ciphertext_blocks), decode_spec(key_blocks)) == Ok::<
            Seq<u8>,
            ArgumentError,
        >(encode_utf8(plaintext)),
        byte_chars(encode_utf8(plaintext)) == plaintext,
{
    let key = decode_spec(key_blocks);
    let text_bytes = encode_utf8(plaintext);
    is_ascii_chars_encode_utf8(plaintext);
    lemma_decode_encode(xor_spec(text_bytes, key));
    lemma_combine_involution(text_bytes, key);
    assert(byte_chars(text_bytes) =~= plaintext);
}

/// Encrypts the text with the key and renders key and ciphertext as block
/// strings.
pub fn encrypt_with_key(plaintext: &String, key: &String) -> (r: Result<Outcome, ArgumentError>)
    ensures
        r is Ok ==> encryption_outcome(plaintext@, key@) == Ok::<OutcomeView, ArgumentError>(
            r->Ok_0@,
        ),
        r is Err ==> encryption_outcome(plaintext@, key@) == Err::<OutcomeView, ArgumentError>(
            r->Err_0,
        ),
{
    match encrypt(plaintext, key) {
        Ok(ciphertext) => Ok(
            Outcome::Encrypted {
                plaintext: plaintext.clone(),
                key_blocks: string_to_blocks(key),
                ciphertext_blocks: string_to_blocks(&ciphertext),
            },
        ),
        Err(e) => Err(e),
    }
}

/// Encrypts ASCII text with a fresh key. Text that is not ASCII is refused.
pub fn run_encryption(plaintext: &String) -> (r: Result<Outcome, ArgumentError>)
    ensures
        is_ascii_chars(plaintext@) ==> r is Ok && is_encryption_of(plaintext@, r->Ok_0@),
        !is_ascii_chars(plaintext@) ==> r == Err::<Outcome, ArgumentError>(
            ArgumentError::NonAsciiInput,
        ),
{
    if !plaintext.is_ascii() {
        return Err(ArgumentError::NonAsciiInput);
    }
    proof {
        is_ascii_chars_encode_utf8(plaintext@);
    }
    let key = generate_key(plaintext.as_str().as_bytes().len());
    proof {
        lemma_encryption_outcome(plaintext@, key@);
    }
    encrypt_with_key(plaintext, &key)
}

/// Decrypts ciphertext bytes with key bytes of the same length.
pub fn run_decryption(ciphertext: &Vec<u8>, key: &Vec<u8>) -> (r: Result<Outcome, ArgumentError>)
    ensures
        r is Ok ==> decryption_outcome(ciphertext@, key@) == Ok::<OutcomeView, ArgumentError>(
            r->Ok_0@,
        ),
        r is Err ==> decryption_outcome(ciphertext@, key@) == Err::<OutcomeView, ArgumentError>(
            r->Err_0,
        ),
{
    match combine(ciphertext.as_slice(), key.as_slice()) {
        Ok(plaintext) => Ok(
            Outcome::Decrypted {
                ciphertext: string_from_utf8_lossy(ciphertext.as_slice()),
                key: string_from_utf8_lossy(key.as_slice()),
                plaintext: vec_to_string(&plaintext),
            },
        ),
        Err(e) => Err(e),
    }
}

/// What running a mode has to show. For an encryption the key is fresh, so
/// this says what holds of every key.
pub open spec fn is_outcome_of(mode: ModeView, outcome: OutcomeView) -> bool {
    match mode {
        ModeView::Help => outcome == OutcomeView::Help,
        ModeView::Version => outcome == OutcomeView::Version,
        ModeView::Encrypt { plaintext } => is_encryption_of(plaintext, outcome),
        ModeView::Decrypt { ciphertext, key } => decryption_outcome(ciphertext, key) == Ok::<
            OutcomeView,
            ArgumentError,
        >(outcome),
    }
}

/// Runs the program. A program that was built never fails.
pub fn run(program: Program) -> (r: Result<Outcome, ArgumentError>)
    ensures
        r is Ok,
        is_outcome_of(program.mode_view(), r->Ok_0@),
{
    proof {
        use_type_invariant(&program);
    }
    match program.mode {
        Mode::Help => Ok(Outcome::Help),
        Mode::Version => Ok(Outcome::Version),
        Mode::Encrypt { plaintext } => run_encryption(&plaintext),
        Mode::Decrypt { ciphertext, key } => run_decryption(&ciphertext, &key),
    }
}

} // verus!
