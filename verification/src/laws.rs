//! Algebraic laws relating the cipher's public operations.
//!
//! Each law is stated over the model functions that the contracts in
//! [`crate::cipher`] use, so it composes directly with the `ensures` of
//! `ivsetup`, `keystream_bytes`, `encrypt_bytes` and `decrypt_bytes`.

use vstd::prelude::*;

use crate::model::init_regs;
use crate::model::keystream_byte;
use crate::model::keystream_seq;
use crate::model::xor_with_keystream;
use crate::model::zero_bytes;

verus! {

/// Determinism: the keystream is a function of the key, IV and IV size
/// alone. Two engines independently constructed and initialized from equal
/// key/IV pairs produce identical keystream sequences of any requested
/// length, since `ivsetup` pins each engine's registers to `init_regs` of its
/// inputs and `keystream_bytes` pins its output to `keystream_seq` of those
/// registers.
pub proof fn lemma_keystream_deterministic(
    key1: Seq<u8>,
    iv1: Seq<u8>,
    key2: Seq<u8>,
    iv2: Seq<u8>,
    ivsize: nat,
    cnt: nat,
)
    requires
        key1 == key2,
        iv1 == iv2,
    ensures
        keystream_seq(init_regs(key1, iv1, ivsize).0, init_regs(key1, iv1, ivsize).1, cnt)
            == keystream_seq(init_regs(key2, iv2, ivsize).0, init_regs(key2, iv2, ivsize).1, cnt),
{
}

/// Symmetry: decrypting an encryption restores the plaintext. Encrypting
/// `plaintext` from registers `(n0, l0)` and then decrypting the result from
/// equal registers (a fresh engine initialized with the same key and IV)
/// XORs each byte twice with the same keystream byte, which is the identity.
pub proof fn lemma_encrypt_then_decrypt(n0: Seq<u8>, l0: Seq<u8>, plaintext: Seq<u8>)
    ensures
        xor_with_keystream(n0, l0, xor_with_keystream(n0, l0, plaintext)) == plaintext,
{
    let ciphertext = xor_with_keystream(n0, l0, plaintext);
    assert forall|i: int| 0 <= i < plaintext.len() implies xor_with_keystream(n0, l0, ciphertext)[i]
        == plaintext[i] by {
        let k = keystream_byte(n0, l0, i as nat);
        let p = plaintext[i];
        assert((p ^ k) ^ k == p) by (bit_vector);
    }
    assert(xor_with_keystream(n0, l0, ciphertext) =~= plaintext);
}

/// Keystream/encrypt equivalence: encrypting all-zero bytes yields the raw
/// keystream, since XOR with zero is the identity.
pub proof fn lemma_encrypt_zeros_is_keystream(n0: Seq<u8>, l0: Seq<u8>, cnt: nat)
    ensures
        xor_with_keystream(n0, l0, zero_bytes(cnt)) == keystream_seq(n0, l0, cnt),
{
    assert forall|i: int| 0 <= i < cnt implies xor_with_keystream(n0, l0, zero_bytes(cnt))[i]
        == keystream_seq(n0, l0, cnt)[i] by {
        let k = keystream_byte(n0, l0, i as nat);
        assert(0u8 ^ k == k) by (bit_vector);
    }
    assert(xor_with_keystream(n0, l0, zero_bytes(cnt)) =~= keystream_seq(n0, l0, cnt));
}

} // verus!
