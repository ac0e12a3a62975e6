//! Proved laws of the cipher.

use vstd::arithmetic::div_mod::lemma_add_mod_noop;
use vstd::arithmetic::div_mod::lemma_mod_self_0;
use vstd::arithmetic::div_mod::lemma_small_mod;
use vstd::prelude::*;

use crate::chacha::block_counter;
use crate::chacha::cipher;
use crate::chacha::keystream_byte;
use crate::words::wrap_add;

verus! {

/// Applying the cipher twice with the same key, nonce and starting counter
/// recovers the original input exactly: each byte is combined with the same
/// keystream byte both times, and exclusive-or is self-canceling.
pub proof fn lemma_cipher_self_inverse(key: Seq<u8>, nonce: Seq<u8>, start: u32, input: Seq<u8>)
    requires
        key.len() == 32,
        nonce.len() == 12,
    ensures
        cipher(key, nonce, start, cipher(key, nonce, start, input)) == input,
{
    let once = cipher(key, nonce, start, input);
    let twice = cipher(key, nonce, start, once);
    assert forall|i: int| 0 <= i < input.len() implies twice[i] == input[i] by {
        let k = keystream_byte(key, nonce, start, i);
        let x = input[i];
        assert((x ^ k) ^ k == x) by (bit_vector);
    }
    assert(twice =~= input);
}

/// The block counter advances by exactly 1 per 64-byte chunk: chunk 0 uses
/// the caller's starting value, chunk i + 1 uses the wrapping successor of
/// chunk i's counter, and a counter of 0xffff_ffff wraps to 0 rather than
/// failing.
pub proof fn lemma_counter_steps(start: u32, i: int)
    requires
        0 <= i,
    ensures
        block_counter(start, 0) == start,
        block_counter(start, i + 1) == wrap_add(block_counter(start, i), 1),
        block_counter(start, i) == 0xffff_ffffu32 ==> block_counter(start, i + 1) == 0,
{
    lemma_small_mod(start as nat, 0x1_0000_0000);
    lemma_small_mod(1, 0x1_0000_0000);
    lemma_add_mod_noop(start + i, 1, 0x1_0000_0000);
    lemma_mod_self_0(0x1_0000_0000);
}

} // verus!
