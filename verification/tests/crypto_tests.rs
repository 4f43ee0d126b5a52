use offset_explorer::config::crypto::{
    decrypt_password, decrypt_with_key, derive_key, encrypt_password, encrypt_with_key,
    generate_filler, generate_key, make_seed, read_ciphertext, unmask, BUFFER_SIZE,
};
use offset_explorer::error::ConfigError;
use sha1::{Digest, Sha1};

fn sha1_of(data: &[u8]) -> Vec<u8> {
    let mut hasher = Sha1::new();
    hasher.update(data);
    hasher.finalize().to_vec()
}

#[test]
fn crypto_test_encrypt_decrypt_roundtrip() {
    let plain = "test_password_123";
    let encrypted = encrypt_password(plain).unwrap();
    let decrypted = decrypt_password(&encrypted).unwrap();
    assert_eq!(plain, decrypted);
}

#[test]
fn crypto_test_empty_password() {
    let plain = "";
    let encrypted = encrypt_password(plain).unwrap();
    let decrypted = decrypt_password(&encrypted).unwrap();
    assert_eq!(plain, decrypted);
}

#[test]
fn crypto_test_buffer_size() {
    let plain = "test";
    let encrypted = encrypt_password(plain).unwrap();
    let decoded = hex::decode(&encrypted).unwrap();
    assert_eq!(decoded.len(), BUFFER_SIZE);
}

#[test]
fn crypto_working_test_encrypt_decrypt_roundtrip() {
    let plain = "test_password_123";
    let encrypted = encrypt_password(plain).unwrap();
    let decrypted = decrypt_password(&encrypted).unwrap();
    assert_eq!(plain, decrypted);
}

#[test]
fn crypto_working_test_empty_password() {
    let plain = "";
    let encrypted = encrypt_password(plain).unwrap();
    let decrypted = decrypt_password(&encrypted).unwrap();
    assert_eq!(plain, decrypted);
}

#[test]
fn test_special_characters() {
    let plain = "p@ssw0rd!#$%^&*()";
    let encrypted = encrypt_password(plain).unwrap();
    let decrypted = decrypt_password(&encrypted).unwrap();
    assert_eq!(plain, decrypted);
}

#[test]
fn crypto_working_test_buffer_size() {
    let plain = "test";
    let encrypted = encrypt_password(plain).unwrap();
    let decoded = hex::decode(&encrypted).unwrap();
    assert_eq!(decoded.len(), BUFFER_SIZE);
}

#[test]
fn every_secret_that_fits_comes_back() {
    for len in [0usize, 1, 2, 19, 20, 21, 63, 106, 107, 125, 126] {
        let secret: String = (0..len).map(|i| char::from(b'a' + (i % 26) as u8)).collect();
        let encrypted = encrypt_password(&secret).unwrap();
        assert_eq!(encrypted.len(), 256);
        assert!(encrypted.chars().all(|c| c.is_ascii_digit() || ('a'..='f').contains(&c)));
        assert_eq!(decrypt_password(&encrypted).unwrap(), secret);
        // The key stream is that of the length, and the buffer is what it gives.
        let key = generate_key(len).unwrap();
        assert_eq!(encrypt_with_key(&secret, &key).unwrap(), encrypted);
        assert_eq!(decrypt_with_key(&encrypted, &key).unwrap(), secret);
    }
    let wide = "pässwörd-世界-🔑";
    assert_eq!(decrypt_password(&encrypt_password(wide).unwrap()).unwrap(), wide);
}

#[test]
fn the_key_stream_rests_on_the_length_alone() {
    assert_eq!(generate_key(17).unwrap(), generate_key(17).unwrap());
    assert_eq!(generate_key(0).unwrap(), Vec::<u8>::new());
    assert_ne!(generate_key(16).unwrap(), generate_key(17).unwrap()[..16].to_vec());
    // A masked secret does not hold the secret in the clear.
    let encrypted = encrypt_password("AAAAAAAAAAAAAAAA").unwrap();
    let buffer = hex::decode(&encrypted).unwrap();
    assert_ne!(&buffer[112..], b"AAAAAAAAAAAAAAAA");
}

#[test]
fn masked_secrets_are_256_digits_whatever_the_length() {
    for len in [0usize, 1, 50, 126] {
        let secret = "x".repeat(len);
        assert_eq!(encrypt_password(&secret).unwrap().len(), 256);
    }
}

#[test]
fn the_buffer_is_laid_out_as_length_filler_secret() {
    let key = vec![0x01u8, 0x03, 0xff];
    let encrypted = encrypt_with_key("abc", &key).unwrap();
    let buffer = hex::decode(&encrypted).unwrap();
    assert_eq!(buffer.len(), 128);
    assert_eq!(buffer[0], 124);
    let first = sha1_of(&key);
    let second = sha1_of(&first);
    let seventh = (0..6).fold(first.clone(), |d, _| sha1_of(&d));
    assert_eq!(&buffer[1..21], first.as_slice());
    assert_eq!(&buffer[21..41], second.as_slice());
    assert_eq!(&buffer[121..125], &seventh[0..4]);
    assert_eq!(&buffer[125..], &[b'a' ^ 0x01, b'b' ^ 0x03, b'c' ^ 0xff]);
    assert_eq!(generate_filler(&key, 124), buffer[1..125].to_vec());
    assert_eq!(generate_filler(&key, 0), Vec::<u8>::new());
    assert_eq!(generate_filler(&[], 20), sha1_of(&[]));
}

#[test]
fn the_key_stream_follows_the_pattern() {
    // A random byte with its lowest bit set is taken as it is; any other gives 1.
    let random = vec![0x03u8, 0x04, 0xff, 0x00, 0x11, 0x22, 0x33, 0x44, 0x55, 0x66];
    let key = derive_key(&random);
    assert_eq!(key, vec![3u8; 8].into_iter().chain(vec![1u8; 2]).collect::<Vec<u8>>());
    assert_eq!(derive_key(&[0x04, 0x03]), vec![1, 1]);
    assert_eq!(derive_key(&[]), Vec::<u8>::new());
    let drawn = generate_key(40).unwrap();
    assert_eq!(drawn.len(), 40);
    assert!(drawn.iter().all(|b| b % 2 == 1));
}

#[test]
fn the_seed_holds_the_number_first() {
    let seed = make_seed(0x0102030405060708);
    assert_eq!(&seed[..8], &[1, 2, 3, 4, 5, 6, 7, 8]);
    assert_eq!(&seed[8..], &[0u8; 24]);
}

#[test]
fn secrets_of_more_than_126_bytes_are_refused() {
    let long = "x".repeat(127);
    assert_eq!(encrypt_password(&long), Err(ConfigError::SecretTooLong));
    assert_eq!(encrypt_with_key(&long, &vec![1u8; 127]), Err(ConfigError::SecretTooLong));
    assert!(encrypt_password(&"x".repeat(126)).is_ok());
    // Length counts bytes, not characters.
    assert_eq!(encrypt_password(&"é".repeat(64)), Err(ConfigError::SecretTooLong));
    assert!(encrypt_password(&"é".repeat(63)).is_ok());
}

#[test]
fn each_codec_error_has_its_input() {
    assert_eq!(encrypt_with_key("abc", &[1, 1]), Err(ConfigError::KeyLengthMismatch));
    assert_eq!(decrypt_password(""), Err(ConfigError::InconsistentLength));
    assert_eq!(decrypt_password("0"), Err(ConfigError::MalformedHex));
    assert_eq!(decrypt_password("zz"), Err(ConfigError::MalformedHex));
    assert_eq!(decrypt_password("é0"), Err(ConfigError::MalformedHex));
    assert_eq!(decrypt_password("01"), Err(ConfigError::InconsistentLength));
    assert_eq!(decrypt_password("0200"), Err(ConfigError::InconsistentLength));
    assert_eq!(read_ciphertext("00"), Ok(vec![]));
    assert_eq!(read_ciphertext("01FF"), Ok(vec![]));
    assert_eq!(read_ciphertext("01ffAb0C"), Ok(vec![0xab, 0x0c]));
    assert_eq!(decrypt_with_key("01ffab0c", &[1]), Err(ConfigError::KeyLengthMismatch));
    assert_eq!(decrypt_with_key("00ff", &[0]), Err(ConfigError::InvalidUtf8));
    assert_eq!(decrypt_with_key("0040", &[1]), Ok("A".to_string()));
    assert_eq!(unmask(&[0x40, 0x43], &[1, 1]), Ok("AB".to_string()));
    assert_eq!(decrypt_password("00"), Ok(String::new()));
}

#[test]
fn two_maskings_may_differ_and_both_unmask() {
    let secret = "same secret";
    let first_key = vec![3u8; secret.len()];
    let second_key = vec![1u8; secret.len()];
    let first = encrypt_with_key(secret, &first_key).unwrap();
    let second = encrypt_with_key(secret, &second_key).unwrap();
    assert_ne!(first, second);
    assert_eq!(decrypt_with_key(&first, &first_key).unwrap(), secret);
    assert_eq!(decrypt_with_key(&second, &second_key).unwrap(), secret);
    // With the key stream of the other masking a secret does not come back.
    assert_ne!(decrypt_with_key(&first, &second_key), Ok(secret.to_string()));
    // Two maskings by the codec both come back.
    let a = encrypt_password(secret).unwrap();
    let b = encrypt_password(secret).unwrap();
    assert_eq!((a.len(), b.len()), (256, 256));
    assert_eq!(decrypt_password(&a).unwrap(), secret);
    assert_eq!(decrypt_password(&b).unwrap(), secret);
}
