//! The XOR cipher: key generation and the combine operation, which both
//! encrypts and decrypts.

use rand::rngs::ThreadRng;
use rand::Rng;
use vstd::prelude::*;
use vstd::utf8::{encode_utf8, is_ascii_chars, is_ascii_chars_encode_utf8};

use crate::error::ArgumentError;
use crate::text::{byte_chars, vec_to_string};

verus! {

/// The smallest byte of a key: the first printable ASCII character.
pub const KEY_BYTE_MIN: u8 = 32;

/// The largest byte of a key: the last printable ASCII character.
pub const KEY_BYTE_MAX: u8 = 126;

/// The thread-local random number generator of `rand`.
#[verifier::external_type_specification]
#[verifier::external_body]
pub struct ExThreadRng(ThreadRng);

/// `rand::thread_rng` hands out the calling thread's generator, which the
/// system seeds on first use. Nothing is stated of it.
pub assume_specification[ rand::thread_rng ]() -> (rng: ThreadRng);

/// Calls `Rng::gen_range` with the inclusive range from `low` to `high`. The
/// range must not be empty, and the value drawn lies in it; which value it is
/// is left open.
#[verifier::external_body]
fn random_in_range(rng: &mut ThreadRng, low: u8, high: u8) -> (b: u8)
    requires
        low <= high,
    ensures
        low <= b <= high,
{
    rng.gen_range(low..=high)
}

/// Whether `key` is a key for data of `length` bytes: as long as the data,
/// every byte a printable ASCII character.
pub open spec fn is_key(key: Seq<u8>, length: nat) -> bool {
    &&& key.len() == length
    &&& forall|i: int| 0 <= i < key.len() ==> KEY_BYTE_MIN <= #[trigger] key[i] <= KEY_BYTE_MAX
}

/// The byte-wise XOR of two sequences, as long as `data`.
pub open spec fn xor_spec(data: Seq<u8>, key: Seq<u8>) -> Seq<u8> {
    Seq::new(data.len(), |i: int| data[i] ^ key[i])
}

/// What combining gives: the XOR of two sequences of one length, and a
/// length mismatch, with both lengths, for any other pair.
pub open spec fn combine_result(data: Seq<u8>, key: Seq<u8>) -> Result<Seq<u8>, ArgumentError> {
    if data.len() == key.len() {
        Ok(xor_spec(data, key))
    } else {
        Err(
            ArgumentError::LengthMismatch {
                data_len: data.len() as usize,
                key_len: key.len() as usize,
            },
        )
    }
}

/// Draws a fresh key of `length` bytes from the generator.
pub fn generate_with(rng: &mut ThreadRng, length: usize) -> (key: Vec<u8>)
    ensures
        is_key(key@, length as nat),
{
    let mut key: Vec<u8> = Vec::new();
    let mut i: usize = 0;
    while i < length
        invariant
            i <= length,
            is_key(key@, i as nat),
        decreases length - i,
    {
        let b: u8 = random_in_range(rng, KEY_BYTE_MIN, KEY_BYTE_MAX);
        key.push(b);
        i = i + 1;
    }
    key
}

/// Draws a fresh key of `length` bytes from the calling thread's generator.
pub fn generate(length: usize) -> (key: Vec<u8>)
    ensures
        is_key(key@, length as nat),
{
    let mut rng = rand::thread_rng();
    generate_with(&mut rng, length)
}

/// Combines data with a key of the same length, byte by byte, by XOR. Sequences
/// of different lengths are refused: nothing is cut or padded.
pub fn combine(data: &[u8], key: &[u8]) -> (r: Result<Vec<u8>, ArgumentError>)
    ensures
        r is Ok <==> data@.len() == key@.len(),
        r is Ok ==> r->Ok_0@ == xor_spec(data@, key@),
        r is Err ==> r->Err_0 == (ArgumentError::LengthMismatch {
            data_len: data@.len() as usize,
            key_len: key@.len() as usize,
        }),
{
    let n: usize = data.len();
    if n != key.len() {
        return Err(ArgumentError::LengthMismatch { data_len: n, key_len: key.len() });
    }
    let mut out: Vec<u8> = Vec::new();
    let mut i: usize = 0;
    while i < n
        invariant
            n == data@.len(),
            n == key@.len(),
            i <= n,
            out@ == xor_spec(data@.take(i as int), key@),
        decreases n - i,
    {
        out.push(data[i] ^ key[i]);
        i = i + 1;
        assert(out@ =~= xor_spec(data@.take(i as int), key@));
    }
    assert(data@.take(n as int) =~= data@);
    Ok(out)
}

/// Combining is its own inverse: combining the result with the same key once
/// more gives the data back.
pub proof fn lemma_combine_involution(data: Seq<u8>, key: Seq<u8>)
    requires
        data.len() == key.len(),
    ensures
        xor_spec(data, key).len() == data.len(),
        xor_spec(xor_spec(data, key), key) == data,
        combine_result(data, key) is Ok,
        combine_result(combine_result(data, key)->Ok_0, key) == Ok::<Seq<u8>, ArgumentError>(data),
{
    assert forall|i: int| 0 <= i < data.len() implies #[trigger] xor_spec(
        xor_spec(data, key),
        key,
    )[i] == data[i] by {
        let d = data[i];
        let k = key[i];
        assert((d ^ k) ^ k == d) by (bit_vector);
    }
    assert(xor_spec(xor_spec(data, key), key) =~= data);
}

/// What encrypting text gives: the XOR of the UTF-8 bytes of text and key, one
/// character for each byte of it, where the two are of one length in bytes.
pub open spec fn encrypt_result(text: Seq<char>, key: Seq<char>) -> Result<
    Seq<char>,
    ArgumentError,
> {
    match combine_result(encode_utf8(text), encode_utf8(key)) {
        Ok(bytes) => Ok(byte_chars(bytes)),
        Err(e) => Err(e),
    }
}

/// Whether `key` is the text of a key for data of `length` bytes: that many
/// printable ASCII characters, whose bytes are therefore a key.
pub open spec fn is_key_text(key: Seq<char>, length: nat) -> bool {
    &&& key.len() == length
    &&& forall|i: int| 0 <= i < key.len() ==> ' ' <= #[trigger] key[i] <= '~'
}

/// The bytes of a key's text are a key of the same length.
pub proof fn lemma_key_text_bytes(key: Seq<char>, length: nat)
    requires
        is_key_text(key, length),
    ensures
        is_ascii_chars(key),
        is_key(encode_utf8(key), length),
        byte_chars(encode_utf8(key)) == key,
{
    assert(is_ascii_chars(key)) by {
        assert forall|i: int| 0 <= i < key.len() implies '\0' <= #[trigger] key[i]
            <= '\u{7f}' by {
            assert(' ' <= key[i] <= '~');
        }
    }
    is_ascii_chars_encode_utf8(key);
    let bytes = encode_utf8(key);
    assert forall|i: int| 0 <= i < bytes.len() implies KEY_BYTE_MIN <= #[trigger] bytes[i]
        <= KEY_BYTE_MAX by {
        assert(' ' <= key[i] <= '~');
    }
    assert(byte_chars(bytes) =~= key);
}

/// Draws a fresh key for a text of `length` bytes, as a string of printable
/// ASCII characters.
pub fn generate_key(length: usize) -> (key: String)
    ensures
        is_key_text(key@, length as nat),
{
    let bytes = generate(length);
    let key = vec_to_string(&bytes);
    assert forall|i: int| 0 <= i < key@.len() implies ' ' <= #[trigger] key@[i] <= '~' by {
        assert(KEY_BYTE_MIN <= bytes@[i] <= KEY_BYTE_MAX);
    }
    key
}

/// Encrypts or decrypts text with a key of the same length in bytes: the
/// bytes of the two are combined, and the result is returned with one
/// character for each byte.
pub fn encrypt(plaintext: &String, key: &String) -> (r: Result<String, ArgumentError>)
    ensures
        r is Ok <==> encode_utf8(plaintext@).len() == encode_utf8(key@).len(),
        r is Ok ==> encrypt_result(plaintext@, key@) == Ok::<Seq<char>, ArgumentError>(r->Ok_0@),
        r is Err ==> encrypt_result(plaintext@, key@) == Err::<Seq<char>, ArgumentError>(
            r->Err_0,
        ),
{
    let plaintext_bytes = plaintext.as_str().as_bytes();
    let key_bytes = key.as_str().as_bytes();
    match combine(plaintext_bytes, key_bytes) {
        Ok(ciphertext) => Ok(vec_to_string(&ciphertext)),
        Err(e) => Err(e),
    }
}

/// Encrypting ASCII text with an ASCII key of the same length gives ASCII
/// text of that length, and encrypting that with the same key gives the text
/// back.
pub proof fn lemma_encrypt_involution(text: Seq<char>, key: Seq<char>)
    requires
        is_ascii_chars(text),
        is_ascii_chars(key),
        text.len() == key.len(),
    ensures
        encrypt_result(text, key) is Ok,
        is_ascii_chars(encrypt_result(text, key)->Ok_0),
        encrypt_result(text, key)->Ok_0.len() == text.len(),
        encrypt_result(encrypt_result(text, key)->Ok_0, key) == Ok::<Seq<char>, ArgumentError>(
            text,
        ),
{
    is_ascii_chars_encode_utf8(text);
    is_ascii_chars_encode_utf8(key);
    let t = encode_utf8(text);
    let k = encode_utf8(key);
    let c = xor_spec(t, k);
    let cipher = byte_chars(c);
    assert forall|i: int| 0 <= i < c.len() implies #[trigger] c[i] < 128 by {
        let a = t[i];
        let b = k[i];
        assert(a < 128 && b < 128 ==> a ^ b < 128) by (bit_vector);
    }
    assert(is_ascii_chars(cipher));
    is_ascii_chars_encode_utf8(cipher);
    assert(encode_utf8(cipher) =~= c);
    lemma_combine_involution(t, k);
    assert(byte_chars(t) =~= text);
}

} // verus!
