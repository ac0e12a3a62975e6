//! The ChaCha20 block function and stream driver.
//!
//! The block function turns a 32-byte key, a 12-byte nonce and a 32-bit block
//! counter into 64 bytes of keystream: it builds a 16-word state (four fixed
//! constants, eight key words, the counter, three nonce words), mixes it with
//! ten double rounds of quarter-rounds, adds the initial state back word by
//! word, and serializes the words little-endian.  The stream driver tiles the
//! block function over the input in 64-byte chunks, incrementing the counter
//! once per chunk with wraparound, and combines keystream and input by
//! exclusive-or.

use vstd::arithmetic::div_mod::lemma_add_mod_noop;
use vstd::arithmetic::div_mod::lemma_fundamental_div_mod_converse;
use vstd::arithmetic::div_mod::lemma_small_mod;
use vstd::prelude::*;

use crate::words::add_word;
use crate::words::load_word;
use crate::words::rotate_word;
use crate::words::rotl;
use crate::words::store_word;
use crate::words::word_from_le;
use crate::words::word_to_le;
use crate::words::wrap_add;

verus! {

/// The four fixed constant words at state indices 0..4: the ASCII bytes of
/// the 16-byte phrase "expand 32-byte k" read as little-endian words.
pub open spec fn chacha_constants() -> Seq<u32> {
    seq![0x61707865u32, 0x3320646eu32, 0x79622d32u32, 0x6b206574u32]
}

/// Word `i` of a byte sequence read as consecutive little-endian 32-bit words.
pub open spec fn le_word(b: Seq<u8>, i: int) -> u32
    recommends
        0 <= i,
        4 * i + 4 <= b.len(),
{
    word_from_le(b[4 * i], b[4 * i + 1], b[4 * i + 2], b[4 * i + 3])
}

/// The initial 16-word cipher state: the four constants at indices 0..4, the
/// eight key words at 4..12, the block counter at 12, and the three nonce
/// words at 13..16.
pub open spec fn init_state(key: Seq<u8>, nonce: Seq<u8>, counter: u32) -> Seq<u32>
    recommends
        key.len() == 32,
        nonce.len() == 12,
{
    Seq::new(
        16,
        |i: int|
            if i < 4 {
                chacha_constants()[i]
            } else if i < 12 {
                le_word(key, i - 4)
            } else if i == 12 {
                counter
            } else {
                le_word(nonce, i - 13)
            },
    )
}

/// One quarter-round at positions (a, b, c, d) of a 16-word state: four
/// add/xor/rotate steps with rotation amounts 16, 12, 8 and 7.
pub open spec fn spec_quarter_round(s: Seq<u32>, a: int, b: int, c: int, d: int) -> Seq<u32>
    recommends
        s.len() == 16,
        0 <= a < 16,
        0 <= b < 16,
        0 <= c < 16,
        0 <= d < 16,
{
    let s1 = s.update(a, wrap_add(s[a], s[b]));
    let s2 = s1.update(d, rotl(s1[d] ^ s1[a], 16));
    let s3 = s2.update(c, wrap_add(s2[c], s2[d]));
    let s4 = s3.update(b, rotl(s3[b] ^ s3[c], 12));
    let s5 = s4.update(a, wrap_add(s4[a], s4[b]));
    let s6 = s5.update(d, rotl(s5[d] ^ s5[a], 8));
    let s7 = s6.update(c, wrap_add(s6[c], s6[d]));
    s7.update(b, rotl(s7[b] ^ s7[c], 7))
}

/// One double round: a column round over (0,4,8,12), (1,5,9,13), (2,6,10,14),
/// (3,7,11,15), then a diagonal round over (0,5,10,15), (1,6,11,12),
/// (2,7,8,13), (3,4,9,14).
pub open spec fn spec_inner_round(s: Seq<u32>) -> Seq<u32>
    recommends
        s.len() == 16,
{
    let c1 = spec_quarter_round(s, 0, 4, 8, 12);
    let c2 = spec_quarter_round(c1, 1, 5, 9, 13);
    let c3 = spec_quarter_round(c2, 2, 6, 10, 14);
    let c4 = spec_quarter_round(c3, 3, 7, 11, 15);
    let d1 = spec_quarter_round(c4, 0, 5, 10, 15);
    let d2 = spec_quarter_round(d1, 1, 6, 11, 12);
    let d3 = spec_quarter_round(d2, 2, 7, 8, 13);
    spec_quarter_round(d3, 3, 4, 9, 14)
}

/// `n` double rounds applied to a state.
pub open spec fn spec_rounds(s: Seq<u32>, n: nat) -> Seq<u32>
    decreases n,
{
    if n == 0 {
        s
    } else {
        spec_inner_round(spec_rounds(s, (n - 1) as nat))
    }
}

/// Word-wise sum of two equal-length word sequences, each addition wrapping
/// modulo 2^32.
pub open spec fn spec_add_states(x: Seq<u32>, y: Seq<u32>) -> Seq<u32>
    recommends
        x.len() == y.len(),
{
    Seq::new(x.len(), |i: int| wrap_add(x[i], y[i]))
}

/// The 16 output words of the block function: ten double rounds applied to
/// the initial state, then the initial state added back word by word.
pub open spec fn block_words(key: Seq<u8>, nonce: Seq<u8>, counter: u32) -> Seq<u32>
    recommends
        key.len() == 32,
        nonce.len() == 12,
{
    spec_add_states(spec_rounds(init_state(key, nonce, counter), 10), init_state(key, nonce, counter))
}

/// Serialization of a word sequence to bytes: each word as four little-endian
/// bytes, in index order.
pub open spec fn serialize_words(w: Seq<u32>) -> Seq<u8> {
    Seq::new(4 * w.len(), |i: int| word_to_le(w[i / 4])[i % 4])
}

/// The 64-byte keystream block for a key, nonce and block counter.
pub open spec fn keystream_block(key: Seq<u8>, nonce: Seq<u8>, counter: u32) -> Seq<u8>
    recommends
        key.len() == 32,
        nonce.len() == 12,
{
    serialize_words(block_words(key, nonce, counter))
}

/// The counter used for chunk `i` of a stream that starts at `start`:
/// start + i, wrapping modulo 2^32.
pub open spec fn block_counter(start: u32, i: int) -> u32
    recommends
        0 <= i,
{
    ((start + i) % 0x1_0000_0000) as u32
}

/// Keystream byte `i` of the stream that starts at counter `start`: byte
/// `i % 64` of the keystream block for chunk `i / 64`.
pub open spec fn keystream_byte(key: Seq<u8>, nonce: Seq<u8>, start: u32, i: int) -> u8
    recommends
        key.len() == 32,
        nonce.len() == 12,
        0 <= i,
{
    keystream_block(key, nonce, block_counter(start, i / 64))[i % 64]
}

/// The cipher output: each input byte combined by exclusive-or with the
/// keystream byte at the same stream position.  Encryption and decryption
/// are the same operation.
pub open spec fn cipher(key: Seq<u8>, nonce: Seq<u8>, start: u32, input: Seq<u8>) -> Seq<u8>
    recommends
        key.len() == 32,
        nonce.len() == 12,
{
    Seq::new(input.len(), |i: int| input[i] ^ keystream_byte(key, nonce, start, i))
}

/// One quarter-round on state positions (a, b, c, d), in place.
pub fn quarter_round(state: &mut [u32; 16], a: usize, b: usize, c: usize, d: usize)
    requires
        a < 16,
        b < 16,
        c < 16,
        d < 16,
    ensures
        final(state)@ == spec_quarter_round(old(state)@, a as int, b as int, c as int, d as int),
{
    state[a] = add_word(state[a], state[b]);
    state[d] = rotate_word(state[d] ^ state[a], 16);
    state[c] = add_word(state[c], state[d]);
    state[b] = rotate_word(state[b] ^ state[c], 12);
    state[a] = add_word(state[a], state[b]);
    state[d] = rotate_word(state[d] ^ state[a], 8);
    state[c] = add_word(state[c], state[d]);
    state[b] = rotate_word(state[b] ^ state[c], 7);
}

/// One double round, in place: quarter-rounds over the four columns, then
/// over the four diagonals.
pub fn inner_round(state: &mut [u32; 16])
    ensures
        final(state)@ == spec_inner_round(old(state)@),
{
    quarter_round(state, 0, 4, 8, 12);
    quarter_round(state, 1, 5, 9, 13);
    quarter_round(state, 2, 6, 10, 14);
    quarter_round(state, 3, 7, 11, 15);
    quarter_round(state, 0, 5, 10, 15);
    quarter_round(state, 1, 6, 11, 12);
    quarter_round(state, 2, 7, 8, 13);
    quarter_round(state, 3, 4, 9, 14);
}

/// Adds each word of `b` into the matching word of `a`, wrapping modulo 2^32.
pub fn add_states(a: &mut [u32; 16], b: &[u32; 16])
    ensures
        final(a)@ == spec_add_states(old(a)@, b@),
{
    let ghost a0 = a@;
    let mut i: usize = 0;
    while i < 16
        invariant
            i <= 16,
            a@.len() == 16,
            forall|j: int| 0 <= j < i ==> a@[j] == wrap_add(a0[j], b@[j]),
            forall|j: int| i <= j < 16 ==> a@[j] == a0[j],
        decreases 16 - i,
    {
        a[i] = add_word(a[i], b[i]);
        i = i + 1;
    }
    assert(a@ =~= spec_add_states(a0, b@));
}

/// The block function: fills `key_stream` with the 64 keystream bytes for
/// the given key, nonce and block counter.
pub fn chacha_round(key: &[u8], nonce: &[u8], block_count: u32, key_stream: &mut [u8])
    requires
        key@.len() == 32,
        nonce@.len() == 12,
        old(key_stream)@.len() == 64,
    ensures
        final(key_stream)@ == keystream_block(key@, nonce@, block_count),
{
    let ghost init = init_state(key@, nonce@, block_count);
    let mut state: [u32; 16] = [0u32; 16];
    state[0] = 0x61707865;
    state[1] = 0x3320646e;
    state[2] = 0x79622d32;
    state[3] = 0x6b206574;
    state[12] = block_count;

    let mut i: usize = 0;
    while i < 8
        invariant
            i <= 8,
            key@.len() == 32,
            forall|j: int| 0 <= j < 4 ==> state@[j] == chacha_constants()[j],
            state@[12] == block_count,
            forall|j: int| 0 <= j < i ==> state@[4 + j] == le_word(key@, j),
        decreases 8 - i,
    {
        state[4 + i] = load_word(key, 4 * i);
        i = i + 1;
    }

    let mut i: usize = 0;
    while i < 3
        invariant
            i <= 3,
            nonce@.len() == 12,
            forall|j: int| 0 <= j < 4 ==> state@[j] == chacha_constants()[j],
            state@[12] == block_count,
            forall|j: int| 0 <= j < 8 ==> state@[4 + j] == le_word(key@, j),
            forall|j: int| 0 <= j < i ==> state@[13 + j] == le_word(nonce@, j),
        decreases 3 - i,
    {
        state[13 + i] = load_word(nonce, 4 * i);
        i = i + 1;
    }
    assert(state@ =~= init);

    let working_state = state;

    let mut r: usize = 0;
    while r < 10
        invariant
            r <= 10,
            state@ == spec_rounds(init, r as nat),
        decreases 10 - r,
    {
        inner_round(&mut state);
        r = r + 1;
    }

    add_states(&mut state, &working_state);
    assert(state@ == block_words(key@, nonce@, block_count));

    let mut i: usize = 0;
    while i < 16
        invariant
            i <= 16,
            key_stream@.len() == 64,
            state@ == block_words(key@, nonce@, block_count),
            forall|k: int| 0 <= k < 4 * i ==> key_stream@[k] == serialize_words(state@)[k],
        decreases 16 - i,
    {
        store_word(key_stream, 4 * i, state[i]);
        proof {
            assert forall|k: int| 0 <= k < 4 * (i + 1) implies key_stream@[k] == serialize_words(
                state@,
            )[k] by {
                if 4 * i <= k {
                    lemma_fundamental_div_mod_converse(k, 4, i as int, k - 4 * i);
                }
            }
        }
        i = i + 1;
    }
    assert(key_stream@ =~= keystream_block(key@, nonce@, block_count));
}

/// Combines `n` bytes of `input` starting at offset `off` with the first `n`
/// bytes of the keystream `ks`, by exclusive-or, writing the results into
/// `out` at the same offsets.  Bytes outside that range are untouched.
pub fn xor_bytes(out: &mut [u8], input: &[u8], off: usize, n: usize, ks: &[u8])
    requires
        old(out)@.len() == input@.len(),
        off + n <= input@.len(),
        n <= ks@.len(),
    ensures
        final(out)@.len() == old(out)@.len(),
        forall|j: int| off <= j < off + n ==> final(out)@[j] == (input@[j] ^ ks@[j - off]),
        forall|j: int|
            0 <= j < old(out)@.len() && !(off <= j < off + n) ==> final(out)@[j] == old(out)@[j],
{
    let ghost out0 = out@;
    proof {
        assert(input.len() == input@.len());
    }
    let mut j: usize = 0;
    while j < n
        invariant
            j <= n,
            out@.len() == out0.len(),
            out0.len() == input@.len(),
            off + n <= input@.len(),
            off + n <= usize::MAX,
            n <= ks@.len(),
            forall|k: int| off <= k < off + j ==> out@[k] == (input@[k] ^ ks@[k - off]),
            forall|k: int| 0 <= k < out0.len() && !(off <= k < off + j) ==> out@[k] == out0[k],
        decreases n - j,
    {
        out[off + j] = input[off + j] ^ ks[j];
        j = j + 1;
    }
}

/// The stream driver: writes into `output` the combination of `input` with
/// the keystream derived from (key, nonce, block_count), 64-byte chunk by
/// chunk, incrementing the counter once per chunk with wraparound.  The same
/// call both encrypts and decrypts.
pub fn encrypt(key: &[u8], nonce: &[u8], block_count: u32, input: &[u8], output: &mut [u8])
    requires
        key@.len() == 32,
        nonce@.len() == 12,
        input@.len() == old(output)@.len(),
    ensures
        final(output)@.len() == input@.len(),
        final(output)@ == cipher(key@, nonce@, block_count, input@),
{
    let len: usize = input.len();
    let mut key_stream: [u8; 64] = [0u8; 64];
    let mut counter: u32 = block_count;
    let mut offset: usize = 0;
    let ghost mut blk: int = 0;
    while offset < len
        invariant
            key@.len() == 32,
            nonce@.len() == 12,
            input@.len() == len,
            output@.len() == len,
            0 <= blk,
            offset == 64 * blk || offset == len,
            offset <= len,
            counter == block_counter(block_count, blk),
            forall|j: int|
                0 <= j < offset ==> output@[j] == cipher(key@, nonce@, block_count, input@)[j],
        decreases len - offset,
    {
        chacha_round(key, nonce, counter, &mut key_stream);
        let n: usize = if len - offset < 64 {
            len - offset
        } else {
            64
        };
        xor_bytes(output, input, offset, n, &key_stream);
        proof {
            assert forall|j: int|
                offset <= j < offset + n implies output@[j] == cipher(
                key@,
                nonce@,
                block_count,
                input@,
            )[j] by {
                lemma_fundamental_div_mod_converse(j, 64, blk, j - 64 * blk);
            }
            lemma_small_mod(1, 0x1_0000_0000);
            lemma_add_mod_noop(block_count + blk, 1, 0x1_0000_0000);
            blk = blk + 1;
        }
        counter = add_word(counter, 1);
        offset = offset + n;
    }
    assert(output@ =~= cipher(key@, nonce@, block_count, input@));
}

/// The single error class of the cipher: a precondition violation, naming
/// the check that failed.
#[derive(Clone, Copy, Debug, PartialEq, Eq, Structural)]
pub enum InvalidInput {
    /// The key is not exactly 32 bytes long.
    KeyLength,
    /// The nonce is not exactly 12 bytes long.
    NonceLength,
    /// The input and output buffers differ in length.
    LengthMismatch,
}

/// The stream driver with its preconditions checked at run time: runs the
/// cipher only when the key, nonce and buffer lengths are valid, and
/// otherwise reports which check failed, leaving `output` untouched.
pub fn try_encrypt(
    key: &[u8],
    nonce: &[u8],
    block_count: u32,
    input: &[u8],
    output: &mut [u8],
) -> (r: Result<(), InvalidInput>)
    ensures
        r is Ok <==> (key@.len() == 32 && nonce@.len() == 12 && input@.len() == old(
            output,
        )@.len()),
        r is Ok ==> final(output)@ == cipher(key@, nonce@, block_count, input@),
        r == Err::<(), InvalidInput>(InvalidInput::KeyLength) <==> key@.len() != 32,
        r == Err::<(), InvalidInput>(InvalidInput::NonceLength) <==> (key@.len() == 32
            && nonce@.len() != 12),
        r == Err::<(), InvalidInput>(InvalidInput::LengthMismatch) <==> (key@.len() == 32
            && nonce@.len() == 12 && input@.len() != old(output)@.len()),
        r is Err ==> final(output)@ == old(output)@,
{
    if key.len() != 32 {
        Err(InvalidInput::KeyLength)
    } else if nonce.len() != 12 {
        Err(InvalidInput::NonceLength)
    } else if input.len() != output.len() {
        Err(InvalidInput::LengthMismatch)
    } else {
        encrypt(key, nonce, block_count, input, output);
        Ok(())
    }
}

} // verus!
