//! The codec that masks a secret for a configuration file.
//!
//! A masked secret is a buffer of 128 bytes written as 256 hexadecimal
//! digits. Byte 0 holds the filler length, the filler follows, and the
//! secret, XORed with a key stream of its own length, fills the rest. The
//! key stream of a secret rests on the secret's length alone, so a buffer
//! can be read back without anything but itself. The scheme hides a secret
//! from a casual reader; it does not protect it.

use vstd::prelude::*;
use vstd::string::*;
use vstd::utf8::*;
use rand::{Rng, SeedableRng};
use sha1::Digest;
use crate::error::ConfigError;
use crate::text::string_from_utf8;

verus! {

/// Bytes in a masked buffer.
pub const BUFFER_SIZE: usize = 128;

/// The longest secret, in bytes of UTF-8, that can be masked.
pub const MAX_SECRET_LEN: usize = 126;

/// Bytes in one SHA-1 digest.
pub const DIGEST_LEN: usize = 20;

/// The hexadecimal digit, in lower case, of a number below 16.
pub open spec fn hex_digit(n: int) -> char {
    if n < 10 {
        ((48 + n) as u8) as char
    } else {
        ((87 + n) as u8) as char
    }
}

/// The number that a hexadecimal digit of either case stands for, or -1.
pub open spec fn hex_value(c: char) -> int {
    let v = c as int;
    if 48 <= v <= 57 {
        v - 48
    } else if 97 <= v <= 102 {
        v - 87
    } else if 65 <= v <= 70 {
        v - 55
    } else {
        -1
    }
}

/// Two lower-case digits for each byte, the high half first.
pub open spec fn hex_text(bytes: Seq<u8>) -> Seq<char> {
    Seq::new(
        2 * bytes.len(),
        |i: int|
            if i % 2 == 0 {
                hex_digit(bytes[i / 2] as int / 16)
            } else {
                hex_digit(bytes[i / 2] as int % 16)
            },
    )
}

/// An even number of hexadecimal digits.
pub open spec fn is_hex_text(text: Seq<char>) -> bool {
    &&& text.len() % 2 == 0
    &&& forall|i: int| 0 <= i < text.len() ==> hex_value(#[trigger] text[i]) >= 0
}

/// The bytes that an even number of hexadecimal digits stands for.
pub open spec fn hex_bytes(text: Seq<char>) -> Seq<u8> {
    Seq::new(
        text.len() / 2,
        |i: int| (16 * hex_value(text[2 * i]) + hex_value(text[2 * i + 1])) as u8,
    )
}

/// The refusal of `hex::decode`, carried as it is.
#[verifier::external_type_specification]
#[verifier::external_body]
pub struct ExFromHexError(hex::FromHexError);

/// `hex::encode`: every byte becomes two lower-case hexadecimal digits.
#[verifier::external_body]
fn hex_encode(data: &[u8]) -> (r: String)
    ensures
        r@ == hex_text(data@),
{
    hex::encode(data)
}

/// `hex::decode`: succeeds on an even number of hexadecimal digits of
/// either case, and only there, with the bytes that the digits stand for.
#[verifier::external_body]
fn hex_decode(text: &str) -> (r: Result<Vec<u8>, hex::FromHexError>)
    ensures
        r is Ok <==> is_hex_text(text@),
        r matches Ok(bytes) ==> bytes@ == hex_bytes(text@),
{
    hex::decode(text)
}

/// The SHA-1 digest of a byte string.
pub uninterp spec fn sha1_digest(data: Seq<u8>) -> Seq<u8>;

/// `sha1::Sha1`, fed once and finalized: the digest of `data`, 20 bytes.
#[verifier::external_body]
fn sha1(data: &[u8]) -> (r: Vec<u8>)
    ensures
        r@ == sha1_digest(data@),
        r@.len() == DIGEST_LEN,
{
    let mut hasher = sha1::Sha1::new();
    hasher.update(data);
    hasher.finalize().to_vec()
}

/// The bytes that the generator `rand::rngs::StdRng` hands out when it is
/// seeded with `seed` and asked for `len` bytes.
pub uninterp spec fn random_stream(seed: Seq<u8>, len: nat) -> Seq<u8>;

/// `rand::rngs::StdRng::from_seed` and then `Rng::fill` on `len` bytes. The
/// generator is deterministic: its bytes rest on the seed and the length
/// alone, and there are `len` of them.
#[verifier::external_body]
fn random_bytes(seed: [u8; 32], len: usize) -> (r: Vec<u8>)
    ensures
        r@ == random_stream(seed@, len as nat),
        r@.len() == len,
{
    let mut rng = rand::rngs::StdRng::from_seed(seed);
    let mut out = vec![0u8; len];
    rng.fill(&mut out[..]);
    out
}

/// The seed of the generator for a number: the number in big-endian order
/// in the first eight bytes, zero in the other twenty-four.
pub open spec fn seed_block(number: u64) -> Seq<u8> {
    Seq::new(
        32,
        |i: int|
            if i < 8 {
                (number >> (((7 - i) * 8) as u64)) as u8
            } else {
                0u8
            },
    )
}

/// Lays a number out as the generator's seed.
pub fn make_seed(number: u64) -> (r: [u8; 32])
    ensures
        r@ == seed_block(number),
{
    let r: [u8; 32] = [
        (number >> 56) as u8,
        (number >> 48) as u8,
        (number >> 40) as u8,
        (number >> 32) as u8,
        (number >> 24) as u8,
        (number >> 16) as u8,
        (number >> 8) as u8,
        (number >> 0) as u8,
        0, 0, 0, 0, 0, 0, 0, 0,
        0, 0, 0, 0, 0, 0, 0, 0,
        0, 0, 0, 0, 0, 0, 0, 0,
    ];
    assert(r@ =~= seed_block(number));
    r
}

/// The fixed pattern against which the random bits are held. It repeats
/// every 160 bits.
pub open spec fn pattern_bit(bit_index: int) -> bool {
    (bit_index % 160) / 2 % 2 == 0
}

/// Whether bit `k` of `byte` is set.
pub open spec fn bit_set(byte: u8, k: u8) -> bool {
    byte & (1u8 << k) != 0
}

/// Byte `i` of the key stream drawn from `random`. Eight key bytes share one
/// random byte; where the bit of that byte disagrees with the pattern the
/// key byte is 1, elsewhere it is the random byte.
pub open spec fn key_byte(random: Seq<u8>, i: int) -> u8 {
    let bit_index = i * 8;
    let source = random[i / 8];
    if bit_set(source, (bit_index % 8) as u8) != pattern_bit(bit_index) {
        1u8
    } else {
        source
    }
}

/// The key stream drawn from `random`, one byte for each random byte.
pub open spec fn key_stream(random: Seq<u8>) -> Seq<u8> {
    Seq::new(random.len(), |i: int| key_byte(random, i))
}

/// The key stream for a secret of `len` bytes: drawn from the bytes of the
/// generator seeded with the length.
pub open spec fn key_for(len: nat) -> Seq<u8> {
    Seq::new(len, |i: int| key_byte(random_stream(seed_block(len as u64), len), i))
}

/// With the pattern as it is, a key byte is the random byte it is drawn
/// from where that is odd, and 1 where it is even: every key byte is odd.
pub proof fn lemma_key_byte(random: Seq<u8>, i: int)
    requires
        0 <= i,
    ensures
        key_byte(random, i) == (if random[i / 8] % 2 == 1 {
            random[i / 8]
        } else {
            1u8
        }),
        key_byte(random, i) % 2 == 1,
{
    let source = random[i / 8];
    assert((i * 8) % 8 == 0);
    assert(pattern_bit(i * 8)) by {
        assert((i * 8) % 160 == (i % 20) * 8);
        assert(((i % 20) * 8) / 2 == (i % 20) * 4);
    }
    assert((source & (1u8 << 0u8) != 0) == (source % 2 == 1)) by (bit_vector);
}

/// Turns random bytes into a key stream of the same length.
pub fn derive_key(random: &[u8]) -> (key: Vec<u8>)
    ensures
        key@ == key_stream(random@),
{
    let len = random.len();
    let mut key: Vec<u8> = Vec::with_capacity(len);
    let mut i: usize = 0;
    while i < len
        invariant
            len == random@.len(),
            i <= len,
            key@.len() == i,
            forall|j: int| 0 <= j < i ==> key@[j] == key_byte(random@, j),
        decreases len - i,
    {
        // Bit 8 i is looked at: its place in its byte, and its place in
        // the pattern.
        let within: usize = (i % 8) * 8 % 8;
        let period: usize = (i % 20) * 8;
        assert(within as int == (i * 8) % 8);
        assert(period as int == (i * 8) % 160);
        let source = random[i / 8];
        let bit_value = source & (1u8 << (within as u8)) != 0;
        let expected = (period / 2) % 2 == 0;
        key.push(if bit_value != expected { 1u8 } else { source });
        i += 1;
    }
    assert(key@ =~= key_stream(random@));
    key
}

/// The key stream for a secret of `len` bytes. It rests on the length
/// alone: two calls with one length give one key stream.
pub fn generate_key(len: usize) -> (r: Result<Vec<u8>, ConfigError>)
    ensures
        r matches Ok(key) && key@ == key_for(len as nat),
{
    let random = random_bytes(make_seed(len as u64), len);
    let key = derive_key(random.as_slice());
    assert(key@ =~= key_for(len as nat));
    Ok(key)
}

/// Digest number `round` of the chain that starts at the key: the digest of
/// the key, then the digest of that digest, and so on.
pub open spec fn digest_round(key: Seq<u8>, round: nat) -> Seq<u8>
    decreases round,
{
    if round == 0 {
        sha1_digest(key)
    } else {
        sha1_digest(digest_round(key, (round - 1) as nat))
    }
}

/// The filler of `len` bytes for a key: the digests of the chain one after
/// the other, cut at `len`.
pub open spec fn filler(key: Seq<u8>, len: nat) -> Seq<u8> {
    Seq::new(len, |i: int| digest_round(key, (i / 20) as nat)[i % 20])
}

/// Expands a key into `filler_len` bytes of filler.
pub fn generate_filler(key: &[u8], filler_len: usize) -> (out: Vec<u8>)
    ensures
        out@ == filler(key@, filler_len as nat),
{
    let mut out: Vec<u8> = Vec::with_capacity(filler_len);
    let mut digest = sha1(key);
    let mut pos: usize = 0;
    let ghost mut round: nat = 0;
    while out.len() < filler_len
        invariant
            pos <= DIGEST_LEN,
            digest@.len() == DIGEST_LEN,
            digest@ == digest_round(key@, round),
            out@.len() == 20 * round + pos,
            out@.len() <= filler_len,
            forall|j: int| 0 <= j < out@.len() ==> out@[j] == filler(key@, filler_len as nat)[j],
        decreases filler_len - out.len(),
    {
        if pos == DIGEST_LEN {
            digest = sha1(digest.as_slice());
            pos = 0;
            proof {
                round = round + 1;
            }
        }
        out.push(digest[pos]);
        pos += 1;
    }
    assert(out@ =~= filler(key@, filler_len as nat));
    out
}

/// Each byte of `data` XORed with the byte of `key` at the same place.
pub open spec fn mask(data: Seq<u8>, key: Seq<u8>) -> Seq<u8> {
    Seq::new(data.len(), |i: int| data[i] ^ key[i])
}

/// The buffer for a secret of at most 126 bytes: the filler length, the
/// filler, the masked secret.
pub open spec fn frame(secret: Seq<u8>, key: Seq<u8>) -> Seq<u8> {
    let filler_len = (BUFFER_SIZE - 1 - secret.len()) as nat;
    seq![filler_len as u8] + filler(key, filler_len) + mask(secret, key)
}

/// What masking `secret` with `key` gives.
pub open spec fn spec_encrypt(secret: Seq<char>, key: Seq<u8>) -> Result<Seq<char>, ConfigError> {
    let bytes = encode_utf8(secret);
    if bytes.len() > MAX_SECRET_LEN {
        Err(ConfigError::SecretTooLong)
    } else if key.len() != bytes.len() {
        Err(ConfigError::KeyLengthMismatch)
    } else {
        Ok(hex_text(frame(bytes, key)))
    }
}

/// The masked bytes that a buffer in hexadecimal carries behind its filler.
pub open spec fn spec_ciphertext(hex: Seq<char>) -> Result<Seq<u8>, ConfigError> {
    if !is_hex_text(hex) {
        Err(ConfigError::MalformedHex)
    } else {
        let buffer = hex_bytes(hex);
        if buffer.len() == 0 || buffer[0] as int + 1 > buffer.len() {
            Err(ConfigError::InconsistentLength)
        } else {
            Ok(buffer.subrange(buffer[0] as int + 1, buffer.len() as int))
        }
    }
}

/// What unmasking `cipher` with `key` gives.
pub open spec fn spec_unmask(cipher: Seq<u8>, key: Seq<u8>) -> Result<Seq<char>, ConfigError> {
    if key.len() != cipher.len() {
        Err(ConfigError::KeyLengthMismatch)
    } else if !valid_utf8(mask(cipher, key)) {
        Err(ConfigError::InvalidUtf8)
    } else {
        Ok(decode_utf8(mask(cipher, key)))
    }
}

/// What unmasking a buffer in hexadecimal with `key` gives.
pub open spec fn spec_decrypt(hex: Seq<char>, key: Seq<u8>) -> Result<Seq<char>, ConfigError> {
    match spec_ciphertext(hex) {
        Err(e) => Err(e),
        Ok(cipher) => spec_unmask(cipher, key),
    }
}

/// What masking `secret` gives: it is masked with the key stream for its
/// length.
pub open spec fn spec_encode(secret: Seq<char>) -> Result<Seq<char>, ConfigError> {
    spec_encrypt(secret, key_for(encode_utf8(secret).len()))
}

/// What unmasking a buffer in hexadecimal gives: the bytes behind its
/// filler are unmasked with the key stream for their number.
pub open spec fn spec_decode(hex: Seq<char>) -> Result<Seq<char>, ConfigError> {
    match spec_ciphertext(hex) {
        Err(e) => Err(e),
        Ok(cipher) => spec_unmask(cipher, key_for(cipher.len())),
    }
}

/// A result with its text taken as a sequence of characters.
pub open spec fn text_of(r: Result<String, ConfigError>) -> Result<Seq<char>, ConfigError> {
    match r {
        Ok(text) => Ok(text@),
        Err(e) => Err(e),
    }
}

/// XORs `data` with a key of the same length.
fn xor_bytes(data: &[u8], key: &[u8]) -> (out: Vec<u8>)
    requires
        data@.len() == key@.len(),
    ensures
        out@ == mask(data@, key@),
{
    let len = data.len();
    let mut out: Vec<u8> = Vec::with_capacity(len);
    let mut i: usize = 0;
    while i < len
        invariant
            len == data@.len(),
            len == key@.len(),
            i <= len,
            out@.len() == i,
            forall|j: int| 0 <= j < i ==> out@[j] == data@[j] ^ key@[j],
        decreases len - i,
    {
        out.push(data[i] ^ key[i]);
        i += 1;
    }
    assert(out@ =~= mask(data@, key@));
    out
}

/// Masks `secret` with the given key stream.
pub fn encrypt_with_key(secret: &str, key: &[u8]) -> (r: Result<String, ConfigError>)
    ensures
        text_of(r) == spec_encrypt(secret@, key@),
{
    let bytes = secret.as_bytes();
    if bytes.len() > MAX_SECRET_LEN {
        return Err(ConfigError::SecretTooLong);
    }
    if key.len() != bytes.len() {
        return Err(ConfigError::KeyLengthMismatch);
    }
    let filler_len: usize = BUFFER_SIZE - 1 - bytes.len();
    let masked = xor_bytes(bytes, key);
    let mut filler_bytes = generate_filler(key, filler_len);
    let mut buffer: Vec<u8> = Vec::with_capacity(BUFFER_SIZE);
    buffer.push(filler_len as u8);
    let mut masked = masked;
    buffer.append(&mut filler_bytes);
    buffer.append(&mut masked);
    assert(buffer@ =~= frame(bytes@, key@));
    Ok(hex_encode(buffer.as_slice()))
}

/// Takes the masked bytes out of a buffer in hexadecimal.
pub fn read_ciphertext(hex: &str) -> (r: Result<Vec<u8>, ConfigError>)
    ensures
        match r {
            Ok(cipher) => spec_ciphertext(hex@) == Ok::<Seq<u8>, ConfigError>(cipher@),
            Err(e) => spec_ciphertext(hex@) == Err::<Seq<u8>, ConfigError>(e),
        },
{
    match hex_decode(hex) {
        Err(_) => Err(ConfigError::MalformedHex),
        Ok(buffer) => {
            if buffer.len() == 0 {
                return Err(ConfigError::InconsistentLength);
            }
            let filler_len = buffer[0] as usize;
            if filler_len + 1 > buffer.len() {
                return Err(ConfigError::InconsistentLength);
            }
            let mut cipher: Vec<u8> = Vec::with_capacity(buffer.len() - filler_len - 1);
            let mut i: usize = filler_len + 1;
            while i < buffer.len()
                invariant
                    filler_len + 1 <= i <= buffer.len(),
                    cipher@ == buffer@.subrange(filler_len + 1, i as int),
                decreases buffer.len() - i,
            {
                cipher.push(buffer[i]);
                assert(cipher@ =~= buffer@.subrange(filler_len + 1, i + 1));
                i += 1;
            }
            Ok(cipher)
        },
    }
}

/// Unmasks `cipher` with the given key stream and reads the result as text.
pub fn unmask(cipher: &[u8], key: &[u8]) -> (r: Result<String, ConfigError>)
    ensures
        text_of(r) == spec_unmask(cipher@, key@),
{
    if key.len() != cipher.len() {
        return Err(ConfigError::KeyLengthMismatch);
    }
    match string_from_utf8(xor_bytes(cipher, key)) {
        Ok(text) => Ok(text),
        Err(_) => Err(ConfigError::InvalidUtf8),
    }
}

/// Unmasks a buffer in hexadecimal with the given key stream.
pub fn decrypt_with_key(hex: &str, key: &[u8]) -> (r: Result<String, ConfigError>)
    ensures
        text_of(r) == spec_decrypt(hex@, key@),
{
    match read_ciphertext(hex) {
        Err(e) => Err(e),
        Ok(cipher) => unmask(cipher.as_slice(), key),
    }
}

/// Masks a secret with the key stream for its length. Secrets of more than
/// 126 bytes are refused; any other gives 256 hexadecimal digits.
pub fn encrypt_password(pw_str: &str) -> (r: Result<String, ConfigError>)
    ensures
        text_of(r) == spec_encode(pw_str@),
{
    let len = pw_str.as_bytes().len();
    if len > MAX_SECRET_LEN {
        return Err(ConfigError::SecretTooLong);
    }
    match generate_key(len) {
        Err(e) => Err(e),
        Ok(key) => encrypt_with_key(pw_str, key.as_slice()),
    }
}

/// Unmasks a buffer in hexadecimal with the key stream for the length of
/// what it carries. Text that is not hexadecimal, a buffer whose filler
/// length does not fit it, and bytes that are no UTF-8 are refused.
pub fn decrypt_password(hex: &str) -> (r: Result<String, ConfigError>)
    ensures
        text_of(r) == spec_decode(hex@),
{
    match read_ciphertext(hex) {
        Err(e) => Err(e),
        Ok(cipher) => match generate_key(cipher.len()) {
            Err(e) => Err(e),
            Ok(key) => unmask(cipher.as_slice(), key.as_slice()),
        },
    }
}

/// A digit's value is the number it was written for.
pub proof fn lemma_hex_digit_value(n: int)
    requires
        0 <= n < 16,
    ensures
        hex_value(hex_digit(n)) == n,
{
}

/// Reading the hexadecimal text of some bytes gives the bytes back.
pub proof fn lemma_hex_round_trip(bytes: Seq<u8>)
    ensures
        is_hex_text(hex_text(bytes)),
        hex_bytes(hex_text(bytes)) == bytes,
{
    let text = hex_text(bytes);
    assert forall|i: int| 0 <= i < text.len() implies hex_value(#[trigger] text[i]) >= 0 by {
        lemma_hex_digit_value(bytes[i / 2] as int / 16);
        lemma_hex_digit_value(bytes[i / 2] as int % 16);
    }
    assert forall|i: int| 0 <= i < bytes.len() implies hex_bytes(text)[i] == bytes[i] by {
        lemma_hex_digit_value(bytes[i] as int / 16);
        lemma_hex_digit_value(bytes[i] as int % 16);
        assert(text[2 * i] == hex_digit(bytes[i] as int / 16));
        assert(text[2 * i + 1] == hex_digit(bytes[i] as int % 16));
    }
    assert(hex_bytes(text) =~= bytes);
}

/// Masking twice with one key gives the data back.
pub proof fn lemma_mask_twice(data: Seq<u8>, key: Seq<u8>)
    requires
        data.len() == key.len(),
    ensures
        mask(mask(data, key), key) == data,
{
    assert forall|i: int| 0 <= i < data.len() implies mask(mask(data, key), key)[i] == data[i] by {
        let d = data[i];
        let k = key[i];
        assert((d ^ k) ^ k == d) by (bit_vector);
    }
    assert(mask(mask(data, key), key) =~= data);
}

/// A masked secret is 256 characters long, whatever the secret and the key.
pub proof fn lemma_encrypt_len(secret: Seq<char>, key: Seq<u8>)
    ensures
        spec_encrypt(secret, key) matches Ok(hex) ==> hex.len() == 2 * BUFFER_SIZE,
{
}

/// A secret of at most 126 bytes, masked with a key stream and unmasked with
/// the same key stream, comes back unchanged.
pub proof fn lemma_round_trip(secret: Seq<char>, key: Seq<u8>)
    requires
        encode_utf8(secret).len() <= MAX_SECRET_LEN,
        key.len() == encode_utf8(secret).len(),
    ensures
        spec_encrypt(secret, key) is Ok,
        spec_decrypt(spec_encrypt(secret, key)->Ok_0, key) == Ok::<Seq<char>, ConfigError>(secret),
{
    let bytes = encode_utf8(secret);
    let buffer = frame(bytes, key);
    lemma_hex_round_trip(buffer);
    let filler_len = (BUFFER_SIZE - 1 - bytes.len()) as nat;
    assert(buffer.len() == BUFFER_SIZE);
    assert(buffer[0] == filler_len as u8);
    assert(buffer.subrange(filler_len as int + 1, buffer.len() as int) =~= mask(bytes, key));
    lemma_mask_twice(bytes, key);
    encode_utf8_valid_utf8(secret);
    encode_utf8_decode_utf8(secret);
}

/// A secret of at most 126 bytes that is masked and then unmasked comes
/// back unchanged, and its masking is 256 characters long.
pub proof fn lemma_secret_comes_back(secret: Seq<char>)
    requires
        encode_utf8(secret).len() <= MAX_SECRET_LEN,
    ensures
        spec_encode(secret) is Ok,
        spec_encode(secret)->Ok_0.len() == 2 * BUFFER_SIZE,
        spec_decode(spec_encode(secret)->Ok_0) == Ok::<Seq<char>, ConfigError>(secret),
{
    let key = key_for(encode_utf8(secret).len());
    lemma_round_trip(secret, key);
    lemma_encrypt_len(secret, key);
    let hex = spec_encrypt(secret, key)->Ok_0;
    assert(spec_ciphertext(hex) is Ok);
    assert(spec_ciphertext(hex)->Ok_0.len() == key.len());
}

/// A secret of more than 126 bytes is refused, and no other is.
pub proof fn lemma_refused_secrets(secret: Seq<char>)
    ensures
        spec_encode(secret) is Err <==> encode_utf8(secret).len() > MAX_SECRET_LEN,
        spec_encode(secret) matches Err(e) ==> e == ConfigError::SecretTooLong,
{
}

/// Two maskings of one secret, each with a key stream of its own, may give
/// different buffers; each unmasks with its own key stream to the secret.
pub proof fn lemma_each_masking_unmasks(secret: Seq<char>, first: Seq<u8>, second: Seq<u8>)
    requires
        encode_utf8(secret).len() <= MAX_SECRET_LEN,
        first.len() == encode_utf8(secret).len(),
        second.len() == encode_utf8(secret).len(),
    ensures
        spec_decrypt(spec_encrypt(secret, first)->Ok_0, first) == Ok::<Seq<char>, ConfigError>(
            secret,
        ),
        spec_decrypt(spec_encrypt(secret, second)->Ok_0, second) == Ok::<Seq<char>, ConfigError>(
            secret,
        ),
{
    lemma_round_trip(secret, first);
    lemma_round_trip(secret, second);
}

/// The empty secret comes back empty whatever key streams it is masked
/// and unmasked with.
pub proof fn lemma_empty_round_trip(masking: Seq<u8>, unmasking: Seq<u8>)
    requires
        masking.len() == 0,
        unmasking.len() == 0,
    ensures
        spec_encrypt(Seq::<char>::empty(), masking) is Ok,
        spec_decrypt(spec_encrypt(Seq::<char>::empty(), masking)->Ok_0, unmasking) == Ok::<
            Seq<char>,
            ConfigError,
        >(Seq::<char>::empty()),
{
    assert(masking =~= unmasking);
    assert(encode_utf8(Seq::<char>::empty()).len() == 0);
    lemma_round_trip(Seq::<char>::empty(), masking);
}

} // verus!
