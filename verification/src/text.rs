//! Bytes as text: the conversions between byte sequences and strings that the
//! codec and the cipher share.

use vstd::prelude::*;
use vstd::utf8::{decode_utf8, valid_utf8};

verus! {

/// The text that `String::from_utf8_lossy` makes of a byte sequence.
pub uninterp spec fn utf8_lossy(bytes: Seq<u8>) -> Seq<char>;

/// `String::push` appends the character to the end of the string.
pub assume_specification[ String::push ](s: &mut String, c: char)
    ensures
        final(s)@ == old(s)@.push(c),
;

/// Calls `String::from_utf8_lossy` and takes ownership of what it returns.
/// The result depends on the bytes alone; where they are valid UTF-8 it is the
/// text that they encode, as the function's documentation says. What it does
/// with invalid sequences is not stated here.
#[verifier::external_body]
pub(crate) fn string_from_utf8_lossy(bytes: &[u8]) -> (s: String)
    ensures
        s@ == utf8_lossy(bytes@),
        valid_utf8(bytes@) ==> s@ == decode_utf8(bytes@),
{
    String::from_utf8_lossy(bytes).into_owned()
}

/// The text with one character for each byte: the character whose code point
/// is the byte's value.
pub open spec fn byte_chars(bytes: Seq<u8>) -> Seq<char> {
    Seq::new(bytes.len(), |i: int| bytes[i] as char)
}

/// Makes a string with one character for each byte, the byte's value being
/// the character's code point.
pub fn vec_to_string(vec: &Vec<u8>) -> (string: String)
    ensures
        string@ == byte_chars(vec@),
{
    let mut string = String::new();
    let n: usize = vec.len();
    let mut i: usize = 0;
    while i < n
        invariant
            n == vec@.len(),
            i <= n,
            string@ == byte_chars(vec@.take(i as int)),
        decreases n - i,
    {
        string.push(vec[i] as char);
        i = i + 1;
        assert(string@ =~= byte_chars(vec@.take(i as int)));
    }
    assert(vec@.take(n as int) =~= vec@);
    string
}

} // verus!
