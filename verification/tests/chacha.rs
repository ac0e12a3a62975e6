//! Tests for the ChaCha20 block function and stream driver, including the
//! published RFC 7539 vectors.

use chacha20::chacha::chacha_round;
use chacha20::chacha::encrypt;
use chacha20::chacha::inner_round;
use chacha20::chacha::quarter_round;
use chacha20::chacha::try_encrypt;
use chacha20::chacha::InvalidInput;

fn hex(s: &str) -> Vec<u8> {
    let b = s.as_bytes();
    assert!(b.len() % 2 == 0);
    let mut out = Vec::new();
    let mut i: usize = 0;
    while i < b.len() {
        let hi = (b[i] as char).to_digit(16).unwrap() as u8;
        let lo = (b[i + 1] as char).to_digit(16).unwrap() as u8;
        out.push(hi * 16 + lo);
        i += 2;
    }
    out
}

fn block(key: &[u8], nonce: &[u8], counter: u32) -> [u8; 64] {
    let mut ks = [0u8; 64];
    chacha_round(key, nonce, counter, &mut ks);
    ks
}

const ZERO_BLOCK_KEYSTREAM: &str = "76b8e0ada0f13d90405d6ae55386bd28bdd219b8a08ded1aa836efcc8b770dc7da41597c5157488d7724e03fb8d84a376a43b8f41518a11cc387b669b2ee6586";

#[test]
fn block_zero_key_zero_nonce_counter_zero() {
    let ks = block(&[0u8; 32], &[0u8; 12], 0);
    assert_eq!(ks.to_vec(), hex(ZERO_BLOCK_KEYSTREAM));
}

#[test]
fn block_sequential_key_rfc_example() {
    let key: Vec<u8> = (0u8..32).collect();
    let nonce = hex("000000090000004a00000000");
    let ks = block(&key, &nonce, 1);
    assert_eq!(
        ks.to_vec(),
        hex("10f1e7e4d13b5915500fdd1fa32071c4c7d1f4c733c068030422aa9ac3d46c4ed2826446079faa0914c2d705d98b02a2b5129cd1de164eb9cbd083e8a2503c4e")
    );
}

#[test]
fn block_key_with_trailing_one() {
    let mut key = [0u8; 32];
    key[31] = 0x01;
    let ks = block(&key, &[0u8; 12], 0);
    assert_eq!(
        ks.to_vec(),
        hex("4540f05a9f1fb296d7736e7b208e3c96eb4fe1834688d2604f450952ed432d41bbe2a0b6ea7566d2a5d1e7e20d42af2c53d792b1c43fea817e9ad275ae546963")
    );
}

#[test]
fn quarter_round_rfc_example() {
    let mut state = [0u32; 16];
    state[0] = 0x11111111;
    state[1] = 0x01020304;
    state[2] = 0x9b8d6f43;
    state[3] = 0x01234567;
    quarter_round(&mut state, 0, 1, 2, 3);
    assert_eq!(state[0], 0xea2a92f4);
    assert_eq!(state[1], 0xcb1cf8ce);
    assert_eq!(state[2], 0x4581472e);
    assert_eq!(state[3], 0x5881c4bb);
}

#[test]
fn inner_round_mixes_every_word() {
    let mut state = [0u32; 16];
    for i in 0..16 {
        state[i] = i as u32;
    }
    inner_round(&mut state);
    let expected: [u32; 16] = [
        0xa9295c6a, 0xb471be7a, 0x38e65ec4, 0x74348b87, 0xf1ad76c6, 0x7b44627b, 0x946682b0,
        0xf12f4910, 0xd7e22f80, 0x3232ddd4, 0xb5b3b74d, 0xc0240444, 0xc8a5de45, 0xe417e1d3,
        0x1a392478, 0x983c4ebf,
    ];
    assert_eq!(state, expected);
    for i in 0..16 {
        assert_ne!(state[i], i as u32);
    }
}

#[test]
fn encrypt_rfc_sunscreen_message() {
    // 114 bytes: the final chunk is 50 bytes, shorter than a full block.
    let plain: &[u8] = b"Ladies and Gentlemen of the class of '99: If I could offer you only one tip for the future, sunscreen would be it.";
    let key: Vec<u8> = (0u8..32).collect();
    let nonce = hex("000000000000004a00000000");
    let mut out = vec![0u8; plain.len()];
    encrypt(&key, &nonce, 1, plain, &mut out);
    assert_eq!(
        out,
        hex("6e2e359a2568f98041ba0728dd0d6981e97e7aec1d4360c20a27afccfd9fae0bf91b65c5524733ab8f593dabcd62b3571639d624e65152ab8f530c359f0861d807ca0dbf500d6a6156a38e088a22b65e52bc514d16ccf806818ce91ab77937365af90bbf74a35be6b40b8eedf2785e42874d")
    );
}

#[test]
fn encrypt_twice_recovers_input() {
    let key: Vec<u8> = (100u8..132).collect();
    let nonce: Vec<u8> = (7u8..19).collect();
    let plain: Vec<u8> = (0..150).map(|i| (i * 7 + 3) as u8).collect();
    let mut once = vec![0u8; plain.len()];
    encrypt(&key, &nonce, 42, &plain, &mut once);
    assert_ne!(once, plain);
    let mut twice = vec![0u8; once.len()];
    encrypt(&key, &nonce, 42, &once, &mut twice);
    assert_eq!(twice, plain);
}

#[test]
fn empty_input_gives_empty_output() {
    let key = [0u8; 32];
    let nonce = [0u8; 12];
    let input: [u8; 0] = [];
    let mut out: [u8; 0] = [];
    encrypt(&key, &nonce, 0, &input, &mut out);
    assert_eq!(out.len(), 0);
    let r = try_encrypt(&key, &nonce, 0, &input, &mut out);
    assert_eq!(r, Ok(()));
}

#[test]
fn output_length_equals_input_length() {
    let key = [3u8; 32];
    let nonce = [5u8; 12];
    for n in [1usize, 63, 64, 65, 127, 128, 200] {
        let input = vec![0xabu8; n];
        let mut out = vec![0u8; n];
        encrypt(&key, &nonce, 9, &input, &mut out);
        assert_eq!(out.len(), n);
    }
}

#[test]
fn partial_chunk_uses_leading_keystream_bytes() {
    // Encrypting zero bytes exposes the keystream itself, so a 7-byte input
    // must come out as the first 7 bytes of the first keystream block.
    let input = [0u8; 7];
    let mut out = [0u8; 7];
    encrypt(&[0u8; 32], &[0u8; 12], 0, &input, &mut out);
    assert_eq!(out.to_vec(), hex(ZERO_BLOCK_KEYSTREAM)[..7].to_vec());
}

#[test]
fn counter_wraps_from_max_to_zero() {
    // Starting at 0xffffffff, the second chunk must use counter 0: on zero
    // input its bytes are exactly the keystream block for counter 0.
    let input = [0u8; 128];
    let mut out = [0u8; 128];
    encrypt(&[0u8; 32], &[0u8; 12], 0xffffffff, &input, &mut out);
    assert_eq!(
        out[..64].to_vec(),
        hex("ace4cd09e294d1912d4ad205d06f95d9c2f2bfcf453e8753f128765b62215f4d92c74f2f626c6a640c0b1284d839ec81f1696281dafc3e684593937023b58b1d")
    );
    assert_eq!(out[64..].to_vec(), hex(ZERO_BLOCK_KEYSTREAM));
}

#[test]
fn counter_increments_per_chunk() {
    // Two chunks encrypted in one call equal two single blocks at counters
    // c and c + 1.
    let key = [9u8; 32];
    let nonce = [1u8; 12];
    let input = [0u8; 128];
    let mut out = [0u8; 128];
    encrypt(&key, &nonce, 5, &input, &mut out);
    assert_eq!(out[..64], block(&key, &nonce, 5));
    assert_eq!(out[64..], block(&key, &nonce, 6));
}

#[test]
fn invalid_key_length_is_rejected() {
    let input = [1u8; 8];
    let mut out = [7u8; 8];
    let r = try_encrypt(&[0u8; 31], &[0u8; 12], 0, &input, &mut out);
    assert_eq!(r, Err(InvalidInput::KeyLength));
    assert_eq!(out, [7u8; 8]);
    let r = try_encrypt(&[0u8; 33], &[0u8; 12], 0, &input, &mut out);
    assert_eq!(r, Err(InvalidInput::KeyLength));
    assert_eq!(out, [7u8; 8]);
}

#[test]
fn invalid_nonce_length_is_rejected() {
    let input = [1u8; 8];
    let mut out = [7u8; 8];
    let r = try_encrypt(&[0u8; 32], &[0u8; 11], 0, &input, &mut out);
    assert_eq!(r, Err(InvalidInput::NonceLength));
    assert_eq!(out, [7u8; 8]);
}

#[test]
fn mismatched_buffer_lengths_are_rejected() {
    let input = [1u8; 8];
    let mut out = [7u8; 9];
    let r = try_encrypt(&[0u8; 32], &[0u8; 12], 0, &input, &mut out);
    assert_eq!(r, Err(InvalidInput::LengthMismatch));
    assert_eq!(out, [7u8; 9]);
}

fn differing_bytes(a: &[u8; 64], b: &[u8; 64]) -> usize {
    let mut n: usize = 0;
    for i in 0..64 {
        if a[i] != b[i] {
            n += 1;
        }
    }
    n
}

#[test]
fn single_key_bit_change_diffuses() {
    let base = block(&[0u8; 32], &[0u8; 12], 0);
    let mut key = [0u8; 32];
    key[0] = 0x01;
    let flipped = block(&key, &[0u8; 12], 0);
    assert!(differing_bytes(&base, &flipped) >= 56);
}

#[test]
fn single_nonce_bit_change_diffuses() {
    let base = block(&[0u8; 32], &[0u8; 12], 0);
    let mut nonce = [0u8; 12];
    nonce[11] = 0x80;
    let flipped = block(&[0u8; 32], &nonce, 0);
    assert!(differing_bytes(&base, &flipped) >= 56);
}

#[test]
fn single_counter_bit_change_diffuses() {
    let base = block(&[0u8; 32], &[0u8; 12], 0);
    let flipped = block(&[0u8; 32], &[0u8; 12], 1);
    assert!(differing_bytes(&base, &flipped) >= 56);
}
