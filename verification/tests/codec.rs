use otp::blocks::{blocks_to_bits, decode, encode};
use otp::error::{ArgumentError, DecodeError};
use otp::{blocks_to_string, string_to_blocks};

#[test]
fn encode_is_least_significant_bit_first() {
    assert_eq!(encode(&[0x61]), "█    ██ ");
    assert_eq!(encode(&[0x62]), " █   ██ ");
    assert_eq!(encode(&[0x42]), " █    █ ");
    assert_eq!(encode(&[0x61, 0x62]), "█    ██  █   ██ ");
    assert_eq!(encode(&[0x01]), "█       ");
    assert_eq!(encode(&[0x80]), "       █");
    assert_eq!(encode(&[0x00]), "        ");
    assert_eq!(encode(&[0xff]), "████████");
}

#[test]
fn encode_of_nothing_is_empty() {
    assert_eq!(encode(&[]), "");
    assert_eq!(decode(""), Ok(vec![]));
}

#[test]
fn encode_gives_eight_glyphs_per_byte() {
    for n in [0usize, 1, 2, 7, 8, 33, 255] {
        let bytes: Vec<u8> = (0..n).map(|i| (i * 37 % 256) as u8).collect();
        let blocks = encode(&bytes);
        assert_eq!(blocks.chars().count(), 8 * n);
        assert!(blocks.chars().all(|c| c == '█' || c == ' '));
    }
}

#[test]
fn decode_undoes_encode_for_every_byte() {
    for b in 0..=255u8 {
        assert_eq!(decode(&encode(&[b])), Ok(vec![b]));
    }
    let all: Vec<u8> = (0..=255u8).collect();
    assert_eq!(decode(&encode(&all)), Ok(all));
}

#[test]
fn encode_undoes_decode() {
    let blocks = "█ █ ███ █ █ ███ █  ██ █  ██  ██ ";
    let bytes = decode(blocks).unwrap();
    assert_eq!(bytes, vec![0x75, 0x75, 0x59, 0x66]);
    assert_eq!(encode(&bytes), blocks);
}

#[test]
fn decode_sums_the_powers_of_two() {
    assert_eq!(decode("█    ██  █   ██ "), Ok(vec![0x61, 0x62]));
    assert_eq!(decode("█    ██  █    █ "), Ok(vec![0x61, 0x42]));
    assert_eq!(decode(" █ █ █ █"), Ok(vec![2 + 8 + 32 + 128]));
    assert_eq!(decode("███     "), Ok(vec![7]));
}

#[test]
fn decode_refuses_a_foreign_character() {
    assert_eq!(decode("XYZ"), Err(DecodeError::UnsupportedAlphabet));
    assert_eq!(decode("█      a"), Err(DecodeError::UnsupportedAlphabet));
    assert_eq!(decode("1       "), Err(DecodeError::UnsupportedAlphabet));
    assert_eq!(decode("        \n"), Err(DecodeError::UnsupportedAlphabet));
}

#[test]
fn decode_refuses_a_length_that_is_no_multiple_of_eight() {
    assert_eq!(decode("   "), Err(DecodeError::MalformedLength));
    assert_eq!(decode("█"), Err(DecodeError::MalformedLength));
    assert_eq!(decode("█       █"), Err(DecodeError::MalformedLength));
    assert_eq!(decode("█ ███   ██████    █ █"), Err(DecodeError::MalformedLength));
}

#[test]
fn blocks_to_bits_reads_each_glyph() {
    assert_eq!(blocks_to_bits("█  █"), Ok(vec![1, 0, 0, 1]));
    assert_eq!(blocks_to_bits(""), Ok(vec![]));
    assert_eq!(blocks_to_bits("█ x"), Err(DecodeError::UnsupportedAlphabet));
}

#[test]
fn string_to_blocks_encodes_the_utf8_bytes() {
    assert_eq!(string_to_blocks(&"ab".to_string()), "█    ██  █   ██ ");
    assert_eq!(string_to_blocks(&String::new()), "");
    let blocks = string_to_blocks(&"é".to_string());
    assert_eq!(blocks, encode(&[0xc3, 0xa9]));
    assert_eq!(blocks.chars().count(), 16);
}

#[test]
fn blocks_to_string_reads_the_bytes_as_utf8() {
    assert_eq!(blocks_to_string(&"█    ██  █   ██ ".to_string()), Ok("ab".to_string()));
    assert_eq!(blocks_to_string(&encode(&[0xc3, 0xa9])), Ok("é".to_string()));
    assert_eq!(blocks_to_string(&String::new()), Ok(String::new()));
}

#[test]
fn blocks_to_string_replaces_invalid_utf8() {
    assert_eq!(blocks_to_string(&"████████".to_string()), Ok("\u{fffd}".to_string()));
}

#[test]
fn blocks_to_string_refuses_what_decode_refuses() {
    assert_eq!(blocks_to_string(&"XYZ".to_string()), Err(DecodeError::UnsupportedAlphabet));
    assert_eq!(blocks_to_string(&"█  ".to_string()), Err(DecodeError::MalformedLength));
}

#[test]
fn text_survives_the_codec() {
    for text in ["", "testing", "testing args", "你好", "a█b c", "\u{0}\u{7f}"] {
        let text = text.to_string();
        assert_eq!(blocks_to_string(&string_to_blocks(&text)), Ok(text));
    }
}

#[test]
fn decode_errors_become_argument_errors() {
    assert_eq!(
        ArgumentError::from_decode(DecodeError::MalformedLength),
        ArgumentError::MalformedLength
    );
    assert_eq!(
        ArgumentError::from_decode(DecodeError::UnsupportedAlphabet),
        ArgumentError::UnsupportedAlphabet
    );
}
