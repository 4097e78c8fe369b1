use otp::blocks::{decode, encode};
use otp::cipher::{combine, generate, generate_with};
use otp::error::ArgumentError;
use otp::program::{encrypt_with_key, run_decryption, run_encryption};
use otp::text::vec_to_string;
use otp::{encrypt, generate_key, run, Outcome, Program};

#[test]
fn test_encryption() {
    let plaintext = "testing".to_string();
    let key = generate_key(plaintext.len());
    let ciphertext = encrypt(&plaintext, &key).unwrap();

    let recovered_plaintext = encrypt(&ciphertext, &key).unwrap();
    assert_eq!(recovered_plaintext, plaintext);
}

#[test]
fn test_decryption() {
    let plaintext = "testing".to_string();
    let key = generate_key(plaintext.len());
    let ciphertext = encrypt(&plaintext, &key).unwrap();
    assert_eq!(encrypt(&ciphertext, &key).unwrap(), plaintext);
}

#[test]
fn combine_is_bytewise_xor() {
    assert_eq!(combine(&[0x41, 0x42], &[0x20, 0x20]), Ok(vec![0x61, 0x62]));
    assert_eq!(combine(&[0x61, 0x62], &[0x20, 0x20]), Ok(vec![0x41, 0x42]));
    assert_eq!(combine(&[0xff, 0x00, 0xaa], &[0x0f, 0xff, 0xaa]), Ok(vec![0xf0, 0xff, 0x00]));
    assert_eq!(combine(&[], &[]), Ok(vec![]));
}

#[test]
fn combine_refuses_different_lengths() {
    assert_eq!(
        combine(&[1, 2, 3], &[1, 2]),
        Err(ArgumentError::LengthMismatch { data_len: 3, key_len: 2 })
    );
    assert_eq!(
        combine(&[], &[9]),
        Err(ArgumentError::LengthMismatch { data_len: 0, key_len: 1 })
    );
}

#[test]
fn combine_twice_gives_the_data_back() {
    let data: Vec<u8> = (0..=255u8).collect();
    let key: Vec<u8> = (0..=255u8).map(|b| b.wrapping_mul(91).wrapping_add(17)).collect();
    let once = combine(&data, &key).unwrap();
    assert_ne!(once, data);
    assert_eq!(combine(&once, &key), Ok(data));
}

#[test]
fn generate_gives_printable_bytes_of_the_length_asked_for() {
    for n in [0usize, 1, 7, 64, 1000] {
        let key = generate(n);
        assert_eq!(key.len(), n);
        assert!(key.iter().all(|b| (32..=126).contains(b)));
    }
}

#[test]
fn generate_draws_more_than_one_value() {
    let key = generate(2000);
    let first = key[0];
    assert!(key.iter().any(|b| *b != first));
    assert!(key.iter().any(|b| *b != 32));
    assert!(key.iter().any(|b| *b != 126));
}

#[test]
fn generate_with_uses_the_generator_given() {
    let mut rng = rand::thread_rng();
    let key = generate_with(&mut rng, 12);
    assert_eq!(key.len(), 12);
    assert!(key.iter().all(|b| (32..=126).contains(b)));
    assert!(generate_with(&mut rng, 0).is_empty());
}

#[test]
fn generate_key_gives_printable_text() {
    let key = generate_key(50);
    assert_eq!(key.len(), 50);
    assert_eq!(key.chars().count(), 50);
    assert!(key.chars().all(|c| (' '..='~').contains(&c)));
    assert_eq!(generate_key(0), "");
}

#[test]
fn vec_to_string_has_one_character_per_byte() {
    assert_eq!(vec_to_string(&vec![0x41, 0x42]), "AB");
    assert_eq!(vec_to_string(&vec![]), "");
    assert_eq!(vec_to_string(&vec![0xe9, 0xff, 0x00]), "é\u{ff}\u{0}");
}

#[test]
fn encrypt_combines_the_bytes_of_text_and_key() {
    assert_eq!(encrypt(&"AB".to_string(), &"  ".to_string()), Ok("ab".to_string()));
    assert_eq!(encrypt(&"ab".to_string(), &"  ".to_string()), Ok("AB".to_string()));
    assert_eq!(encrypt(&String::new(), &String::new()), Ok(String::new()));
}

#[test]
fn encrypt_refuses_a_key_of_other_length() {
    assert_eq!(
        encrypt(&"testing".to_string(), &"key".to_string()),
        Err(ArgumentError::LengthMismatch { data_len: 7, key_len: 3 })
    );
    assert_eq!(
        encrypt(&"é".to_string(), &"k".to_string()),
        Err(ArgumentError::LengthMismatch { data_len: 2, key_len: 1 })
    );
}

#[test]
fn plaintext_ab_with_a_key_of_spaces() {
    let ciphertext = combine("AB".as_bytes(), &[0x20, 0x20]).unwrap();
    assert_eq!(ciphertext, vec![0x61, 0x62]);
    assert_eq!(ciphertext, "ab".as_bytes());
    let blocks = encode(&ciphertext);
    assert_eq!(blocks, "█    ██  █   ██ ");
    assert_eq!(blocks.chars().count(), 16);
    assert_eq!(decode(&blocks), Ok(vec![0x61, 0x62]));
    assert_eq!(combine(&[0x61, 0x62], &[0x20, 0x20]), Ok(vec![0x41, 0x42]));
    assert_eq!(vec_to_string(&vec![0x41, 0x42]), "AB");
}

#[test]
fn encrypt_with_key_shows_key_and_ciphertext_as_blocks() {
    let outcome = encrypt_with_key(&"AB".to_string(), &"  ".to_string());
    assert_eq!(
        outcome,
        Ok(Outcome::Encrypted {
            plaintext: "AB".to_string(),
            key_blocks: "     █       █  ".to_string(),
            ciphertext_blocks: "█    ██  █   ██ ".to_string(),
        })
    );
    assert_eq!(
        encrypt_with_key(&"AB".to_string(), &" ".to_string()),
        Err(ArgumentError::LengthMismatch { data_len: 2, key_len: 1 })
    );
}

#[test]
fn run_encryption_can_be_undone_with_the_key_shown() {
    let text = "testing args".to_string();
    match run_encryption(&text) {
        Ok(Outcome::Encrypted { plaintext, key_blocks, ciphertext_blocks }) => {
            assert_eq!(plaintext, text);
            let key = decode(&key_blocks).unwrap();
            let ciphertext = decode(&ciphertext_blocks).unwrap();
            assert_eq!(key.len(), text.len());
            assert!(key.iter().all(|b| (32..=126).contains(b)));
            assert_eq!(combine(&ciphertext, &key), Ok(text.into_bytes()));
        }
        other => panic!("no encryption: {:?}", other),
    }
}

#[test]
fn run_encryption_refuses_text_that_is_not_ascii() {
    assert_eq!(run_encryption(&"你好".to_string()), Err(ArgumentError::NonAsciiInput));
}

#[test]
fn run_decryption_shows_the_plaintext() {
    assert_eq!(
        run_decryption(&vec![0x61, 0x62], &vec![0x20, 0x20]),
        Ok(Outcome::Decrypted {
            ciphertext: "ab".to_string(),
            key: "  ".to_string(),
            plaintext: "AB".to_string(),
        })
    );
    assert_eq!(
        run_decryption(&vec![0xff], &vec![0x16]),
        Ok(Outcome::Decrypted {
            ciphertext: "\u{fffd}".to_string(),
            key: "\u{16}".to_string(),
            plaintext: "é".to_string(),
        })
    );
    assert_eq!(
        run_decryption(&vec![1, 2], &vec![1]),
        Err(ArgumentError::LengthMismatch { data_len: 2, key_len: 1 })
    );
}

fn program(items: &[&str]) -> Program {
    let args: Vec<String> = items.iter().map(|s| s.to_string()).collect();
    Program::build(&args).unwrap()
}

#[test]
fn run_help_and_version() {
    assert_eq!(run(program(&["command", "--help"])), Ok(Outcome::Help));
    assert_eq!(run(program(&["command", "-v"])), Ok(Outcome::Version));
}

#[test]
fn run_decrypts_what_the_arguments_hold() {
    assert_eq!(
        run(program(&["command", "-d", "█    ██  █   ██ ", "     █       █  "])),
        Ok(Outcome::Decrypted {
            ciphertext: "ab".to_string(),
            key: "  ".to_string(),
            plaintext: "AB".to_string(),
        })
    );
}

#[test]
fn run_encrypts_and_decrypts_again() {
    let encrypted = run(program(&["command", "-e", "testing"])).unwrap();
    let (key_blocks, ciphertext_blocks) = match encrypted {
        Outcome::Encrypted { plaintext, key_blocks, ciphertext_blocks } => {
            assert_eq!(plaintext, "testing");
            (key_blocks, ciphertext_blocks)
        }
        other => panic!("no encryption: {:?}", other),
    };
    assert_eq!(key_blocks.chars().count(), 56);
    assert_eq!(ciphertext_blocks.chars().count(), 56);
    match run(program(&["command", "-d", &ciphertext_blocks, &key_blocks])) {
        Ok(Outcome::Decrypted { plaintext, .. }) => assert_eq!(plaintext, "testing"),
        other => panic!("no decryption: {:?}", other),
    }
}
