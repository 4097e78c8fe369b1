//! The block codec: bytes to and from a string of two glyphs, eight glyphs per
//! byte, the least significant bit first.

use vstd::arithmetic::power2::{lemma2_to64, lemma_pow2_unfold, pow2};
use vstd::prelude::*;
use vstd::utf8::{decode_utf8, encode_utf8, valid_utf8};

use crate::error::DecodeError;
use crate::text::{string_from_utf8_lossy, utf8_lossy};

verus! {

/// The glyph that stands for a bit that is 1.
pub const SET_GLYPH: char = '█';

/// The glyph that stands for a bit that is 0.
pub const UNSET_GLYPH: char = ' ';

/// Whether the bit of `byte` at `position` (0 is the least significant) is 1.
pub open spec fn bit_is_set(byte: u8, position: u8) -> bool {
    (byte >> position) & 1u8 == 1u8
}

/// The glyph that shows a bit.
pub open spec fn glyph_of(bit: bool) -> char {
    if bit {
        SET_GLYPH
    } else {
        UNSET_GLYPH
    }
}

/// The block string of a byte sequence: glyph `j` shows bit `j % 8` of byte
/// `j / 8`.
pub open spec fn encode_spec(bytes: Seq<u8>) -> Seq<char> {
    Seq::new(
        8 * bytes.len(),
        |j: int| glyph_of(bit_is_set(bytes[j / 8], (j % 8) as u8)),
    )
}

/// Renders bytes as a block string.
pub fn encode(bytes: &[u8]) -> (blocks: String)
    ensures
        blocks@ == encode_spec(bytes@),
        blocks@.len() == 8 * bytes@.len(),
{
    let mut blocks = String::new();
    let n: usize = bytes.len();
    let mut k: usize = 0;
    while k < n
        invariant
            n == bytes@.len(),
            k <= n,
            blocks@ == encode_spec(bytes@.take(k as int)),
        decreases n - k,
    {
        let byte: u8 = bytes[k];
        let ghost before = blocks@;
        let mut i: u8 = 0;
        while i < 8
            invariant
                i <= 8,
                k < n,
                n == bytes@.len(),
                byte == bytes@[k as int],
                before == encode_spec(bytes@.take(k as int)),
                blocks@ == before + Seq::new(
                    i as nat,
                    |p: int| glyph_of(bit_is_set(byte, p as u8)),
                ),
            decreases 8 - i,
        {
            if (byte >> i) & 1u8 == 1u8 {
                blocks.push(SET_GLYPH);
            } else {
                blocks.push(UNSET_GLYPH);
            }
            i = i + 1;
            assert(blocks@ =~= before + Seq::new(
                i as nat,
                |p: int| glyph_of(bit_is_set(byte, p as u8)),
            ));
        }
        k = k + 1;
        assert(blocks@ =~= encode_spec(bytes@.take(k as int)));
    }
    assert(bytes@.take(n as int) =~= bytes@);
    blocks
}

/// Whether a character is one of the two glyphs.
pub open spec fn is_glyph(c: char) -> bool {
    c == SET_GLYPH || c == UNSET_GLYPH
}

/// Whether every character of a string is a glyph.
pub open spec fn all_glyphs(blocks: Seq<char>) -> bool {
    forall|j: int| 0 <= j < blocks.len() ==> is_glyph(#[trigger] blocks[j])
}

/// A block string: glyphs only, eight for each byte.
pub open spec fn is_block_string(blocks: Seq<char>) -> bool {
    all_glyphs(blocks) && blocks.len() % 8 == 0
}

/// The bit that a glyph shows: 1 for the set glyph, 0 for the unset glyph.
pub open spec fn bit_of(glyph: char) -> u8 {
    if glyph == SET_GLYPH {
        1
    } else {
        0
    }
}

/// The bits that the glyphs show, in the same order.
pub open spec fn bits_spec(blocks: Seq<char>) -> Seq<u8> {
    Seq::new(blocks.len(), |j: int| bit_of(blocks[j]))
}

/// The sum of `2^i` over the positions `i < count` at which `bits[i]` is 1.
pub open spec fn prefix_value(bits: Seq<u8>, count: nat) -> nat
    decreases count,
{
    if count == 0 {
        0
    } else {
        let i = (count - 1) as nat;
        prefix_value(bits, i) + if bits[i as int] == 1 {
            pow2(i)
        } else {
            0
        }
    }
}

/// The bytes of a block string: byte `k` is the value of glyphs `8k .. 8k + 8`.
pub open spec fn decode_spec(blocks: Seq<char>) -> Seq<u8> {
    Seq::new(
        (blocks.len() / 8) as nat,
        |k: int| prefix_value(bits_spec(blocks.subrange(8 * k, 8 * k + 8)), 8) as u8,
    )
}

/// What decoding a string gives: the alphabet is checked first, then the
/// length, and only a block string has bytes.
pub open spec fn decode_result(blocks: Seq<char>) -> Result<Seq<u8>, DecodeError> {
    if !all_glyphs(blocks) {
        Err(DecodeError::UnsupportedAlphabet)
    } else if blocks.len() % 8 != 0 {
        Err(DecodeError::MalformedLength)
    } else {
        Ok(decode_spec(blocks))
    }
}

/// A value made of fewer than `count` bits is below `2^count`.
pub proof fn lemma_prefix_value_bound(bits: Seq<u8>, count: nat)
    ensures
        prefix_value(bits, count) < pow2(count),
    decreases count,
{
    if count == 0 {
        lemma2_to64();
    } else {
        lemma_prefix_value_bound(bits, (count - 1) as nat);
        lemma_pow2_unfold(count);
    }
}

/// Reads the glyphs of a string as bits, one `u8` that is 0 or 1 for each
/// glyph, and refuses a string that holds any other character.
pub fn blocks_to_bits(blocks: &str) -> (r: Result<Vec<u8>, DecodeError>)
    ensures
        all_glyphs(blocks@) ==> r is Ok && r->Ok_0@ == bits_spec(blocks@),
        !all_glyphs(blocks@) ==> r == Err::<Vec<u8>, DecodeError>(
            DecodeError::UnsupportedAlphabet,
        ),
{
    let mut bits: Vec<u8> = Vec::new();
    for c in iter: blocks.chars()
        invariant
            iter.seq() == blocks@,
            bits@ == bits_spec(blocks@.take(iter.index() as int)),
            all_glyphs(blocks@.take(iter.index() as int)),
    {
        let ghost done = iter.index() as int;
        if c == SET_GLYPH {
            bits.push(1);
        } else if c == UNSET_GLYPH {
            bits.push(0);
        } else {
            assert(!is_glyph(blocks@[done]));
            return Err(DecodeError::UnsupportedAlphabet);
        }
        assert(blocks@.take(done + 1) =~= blocks@.take(done).push(c));
        assert(bits@ =~= bits_spec(blocks@.take(done + 1)));
    }
    assert(blocks@.take(blocks@.len() as int) =~= blocks@);
    Ok(bits)
}

/// Turns a block string back into bytes. A character that is no glyph is
/// refused; so is, among strings of glyphs, a length that is not a multiple of
/// eight. Nothing is dropped or padded.
pub fn decode(blocks: &str) -> (r: Result<Vec<u8>, DecodeError>)
    ensures
        r is Ok <==> is_block_string(blocks@),
        r is Ok ==> r->Ok_0@ == decode_spec(blocks@),
        r is Err ==> decode_result(blocks@) == Err::<Seq<u8>, DecodeError>(r->Err_0),
{
    let bits = match blocks_to_bits(blocks) {
        Ok(bits) => bits,
        Err(e) => {
            return Err(e);
        },
    };
    let n: usize = bits.len();
    if n % 8 != 0 {
        return Err(DecodeError::MalformedLength);
    }
    let groups: usize = n / 8;
    let mut bytes: Vec<u8> = Vec::new();
    let mut k: usize = 0;
    while k < groups
        invariant
            n == bits@.len(),
            n == blocks@.len(),
            groups == n / 8,
            n % 8 == 0,
            k <= groups,
            bits@ == bits_spec(blocks@),
            bytes@ == decode_spec(blocks@).take(k as int),
        decreases groups - k,
    {
        let base: usize = 8 * k;
        let ghost group = bits_spec(blocks@.subrange(8 * k, 8 * k + 8));
        assert(group =~= bits@.subrange(base as int, base + 8));
        let mut value: u32 = 0;
        let mut weight: u32 = 1;
        let mut i: usize = 0;
        proof {
            lemma2_to64();
        }
        while i < 8
            invariant
                i <= 8,
                base + 8 <= n,
                n == bits@.len(),
                group == bits@.subrange(base as int, base + 8),
                weight == pow2(i as nat),
                value == prefix_value(group, i as nat),
                value < weight,
            decreases 8 - i,
        {
            proof {
                lemma2_to64();
                lemma_pow2_unfold((i + 1) as nat);
            }
            if bits[base + i] == 1 {
                value = value + weight;
            }
            weight = weight * 2;
            i = i + 1;
        }
        proof {
            lemma2_to64();
        }
        bytes.push(value as u8);
        k = k + 1;
        assert(bytes@ =~= decode_spec(blocks@).take(k as int));
    }
    assert(decode_spec(blocks@).take(groups as int) =~= decode_spec(blocks@));
    Ok(bytes)
}

/// The bits of a byte, least significant first, as eight values 0 or 1.
pub open spec fn byte_bits(byte: u8) -> Seq<u8> {
    Seq::new(
        8,
        |i: int|
            if bit_is_set(byte, i as u8) {
                1u8
            } else {
                0u8
            },
    )
}

/// A byte is the sum of the powers of two at its set bits.
pub proof fn lemma_value_of_byte_bits(byte: u8)
    ensures
        prefix_value(byte_bits(byte), 8) == byte,
{
    reveal_with_fuel(prefix_value, 9);
    lemma2_to64();
    let b = byte;
    assert(b == (if (b >> 0u8) & 1u8 == 1u8 { 1u8 } else { 0u8 })
        + (if (b >> 1u8) & 1u8 == 1u8 { 2u8 } else { 0u8 })
        + (if (b >> 2u8) & 1u8 == 1u8 { 4u8 } else { 0u8 })
        + (if (b >> 3u8) & 1u8 == 1u8 { 8u8 } else { 0u8 })
        + (if (b >> 4u8) & 1u8 == 1u8 { 16u8 } else { 0u8 })
        + (if (b >> 5u8) & 1u8 == 1u8 { 32u8 } else { 0u8 })
        + (if (b >> 6u8) & 1u8 == 1u8 { 64u8 } else { 0u8 })
        + (if (b >> 7u8) & 1u8 == 1u8 { 128u8 } else { 0u8 })) by (bit_vector);
}

/// Decoding undoes encoding: every byte sequence encodes to a block string,
/// and that string decodes to the same bytes.
pub proof fn lemma_decode_encode(bytes: Seq<u8>)
    ensures
        encode_spec(bytes).len() == 8 * bytes.len(),
        is_block_string(encode_spec(bytes)),
        decode_spec(encode_spec(bytes)) == bytes,
        decode_result(encode_spec(bytes)) == Ok::<Seq<u8>, DecodeError>(bytes),
{
    let blocks = encode_spec(bytes);
    assert forall|k: int| 0 <= k < bytes.len() implies #[trigger] decode_spec(blocks)[k]
        == bytes[k] by {
        let group = blocks.subrange(8 * k, 8 * k + 8);
        assert forall|i: int| 0 <= i < 8 implies #[trigger] bits_spec(group)[i] == byte_bits(
            bytes[k],
        )[i] by {
            assert(group[i] == blocks[8 * k + i]);
            assert((8 * k + i) / 8 == k && (8 * k + i) % 8 == i);
        }
        assert(bits_spec(group) =~= byte_bits(bytes[k]));
        lemma_value_of_byte_bits(bytes[k]);
    }
    assert(decode_spec(blocks) =~= bytes);
}

/// Eight bits are the bits of the byte that they add up to.
pub proof fn lemma_byte_bits_of_value(bits: Seq<u8>)
    requires
        bits.len() == 8,
        forall|i: int| 0 <= i < 8 ==> #[trigger] bits[i] <= 1,
    ensures
        prefix_value(bits, 8) < 256,
        byte_bits(prefix_value(bits, 8) as u8) == bits,
{
    reveal_with_fuel(prefix_value, 9);
    lemma2_to64();
    let b0 = bits[0];
    let b1 = bits[1];
    let b2 = bits[2];
    let b3 = bits[3];
    let b4 = bits[4];
    let b5 = bits[5];
    let b6 = bits[6];
    let b7 = bits[7];
    let v: u8 = prefix_value(bits, 8) as u8;
    assert(v == b0 + 2 * b1 + 4 * b2 + 8 * b3 + 16 * b4 + 32 * b5 + 64 * b6 + 128 * b7);
    assert(((v >> 0u8) & 1u8 == 1u8) == (b0 == 1u8) && ((v >> 1u8) & 1u8 == 1u8) == (b1 == 1u8)
        && ((v >> 2u8) & 1u8 == 1u8) == (b2 == 1u8) && ((v >> 3u8) & 1u8 == 1u8) == (b3 == 1u8)
        && ((v >> 4u8) & 1u8 == 1u8) == (b4 == 1u8) && ((v >> 5u8) & 1u8 == 1u8) == (b5 == 1u8)
        && ((v >> 6u8) & 1u8 == 1u8) == (b6 == 1u8) && ((v >> 7u8) & 1u8 == 1u8) == (b7
        == 1u8)) by (bit_vector)
        requires
            b0 <= 1 && b1 <= 1 && b2 <= 1 && b3 <= 1 && b4 <= 1 && b5 <= 1 && b6 <= 1 && b7 <= 1,
            v == b0 + 2 * b1 + 4 * b2 + 8 * b3 + 16 * b4 + 32 * b5 + 64 * b6 + 128 * b7,
    ;
    assert forall|i: int| 0 <= i < 8 implies #[trigger] byte_bits(v)[i] == bits[i] by {
        assert(i == 0 || i == 1 || i == 2 || i == 3 || i == 4 || i == 5 || i == 6 || i == 7);
    }
    assert(byte_bits(v) =~= bits);
}

/// Encoding undoes decoding: the bytes of a block string encode to that
/// string.
pub proof fn lemma_encode_decode(blocks: Seq<char>)
    requires
        is_block_string(blocks),
    ensures
        encode_spec(decode_spec(blocks)) == blocks,
{
    let bytes = decode_spec(blocks);
    assert forall|j: int| 0 <= j < blocks.len() implies #[trigger] encode_spec(bytes)[j]
        == blocks[j] by {
        let k = j / 8;
        let i = j % 8;
        let group = blocks.subrange(8 * k, 8 * k + 8);
        assert(group[i] == blocks[j]);
        assert(is_glyph(blocks[j]));
        lemma_byte_bits_of_value(bits_spec(group));
        assert(byte_bits(bytes[k])[i] == bits_spec(group)[i]);
    }
    assert(encode_spec(bytes) =~= blocks);
}

/// What decoding a block string to text gives: the text that the decoded
/// bytes make, or the codec's error.
pub open spec fn text_result(blocks: Seq<char>) -> Result<Seq<char>, DecodeError> {
    match decode_result(blocks) {
        Ok(bytes) => Ok(utf8_lossy(bytes)),
        Err(e) => Err(e),
    }
}

/// Renders the UTF-8 bytes of a string as a block string.
pub fn string_to_blocks(string: &String) -> (blocks: String)
    ensures
        blocks@ == encode_spec(encode_utf8(string@)),
        blocks@.len() == 8 * encode_utf8(string@).len(),
{
    encode(string.as_str().as_bytes())
}

/// Turns a block string back into text: the string is decoded, and the bytes
/// are read as UTF-8. Bytes that are valid UTF-8 give the text that they
/// encode.
pub fn blocks_to_string(blocks: &String) -> (r: Result<String, DecodeError>)
    ensures
        r is Ok <==> is_block_string(blocks@),
        r is Ok ==> text_result(blocks@) == Ok::<Seq<char>, DecodeError>(r->Ok_0@),
        r is Ok && valid_utf8(decode_spec(blocks@)) ==> r->Ok_0@ == decode_utf8(
            decode_spec(blocks@),
        ),
        r is Err ==> text_result(blocks@) == Err::<Seq<char>, DecodeError>(r->Err_0),
{
    match decode(blocks.as_str()) {
        Ok(bytes) => Ok(string_from_utf8_lossy(bytes.as_slice())),
        Err(e) => Err(e),
    }
}

/// Text survives the codec: the block string of any text is a block string
/// whose bytes are valid UTF-8 and encode that text.
pub proof fn lemma_text_round_trip(text: Seq<char>)
    ensures
        is_block_string(encode_spec(encode_utf8(text))),
        valid_utf8(decode_spec(encode_spec(encode_utf8(text)))),
        decode_utf8(decode_spec(encode_spec(encode_utf8(text)))) == text,
{
    lemma_decode_encode(encode_utf8(text));
    vstd::utf8::encode_utf8_valid_utf8(text);
    vstd::utf8::encode_utf8_decode_utf8(text);
}

} // verus!
