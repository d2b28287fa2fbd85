//! The executable Grain-128 cipher engine.
//!
//! A [`Grain128`] value is created by [`Grain128::keysetup`], loaded and
//! warmed up by [`Grain128::ivsetup`], and then driven through
//! [`Grain128::keystream_bytes`], [`Grain128::encrypt_bytes`] and
//! [`Grain128::decrypt_bytes`]. Every operation is specified against the
//! bit-level model in [`crate::model`].

use vstd::prelude::*;
use vstd::slice::slice_to_vec;

use crate::model::bits_valid;
use crate::model::byte_bit;
use crate::model::init_regs;
use crate::model::is_bit;
use crate::model::keystream_byte;
use crate::model::keystream_seq;
use crate::model::lemma_byte_bit_is_bit;
use crate::model::lemma_feedback_bits;
use crate::model::lemma_regs_after_unfold;
use crate::model::lemma_shift1_bits;
use crate::model::lemma_warmed_unfold;
use crate::model::lemma_xor_bit;
use crate::model::lfsr_feedback;
use crate::model::loaded_lfsr;
use crate::model::loaded_nfsr;
use crate::model::nfsr_feedback;
use crate::model::out_bit;
use crate::model::regs_after;
use crate::model::shift1;
use crate::model::step_regs;
use crate::model::warmed;
use crate::model::xor_with_keystream;
use crate::model::zero_bytes;

verus! {

/// Errors reported by the engine. All are fatal for the value at hand: a
/// failed engine must be discarded and rebuilt, never reused.
#[derive(Clone, Copy, Debug, PartialEq, Eq, Structural)]
pub enum GrainError {
    /// The key's byte length does not equal `keysize / 8`.
    InvalidKeyLength,
    /// The IV's byte length does not equal `ivsize / 8`.
    InvalidIVLength,
    /// A `keysize` other than 128, or an `ivsize` other than 96 or 128, was
    /// requested; the tap positions are valid only for those configurations.
    UnsupportedConfiguration,
    /// Keystream, encryption or decryption was requested before a successful
    /// `ivsetup`.
    NotInitialized,
}

/// Abstract state of a cipher engine: the two registers as sequences of
/// single-bit cells, the stored key bytes, the configured sizes in bits, and
/// whether initialization has completed.
pub struct GrainView {
    pub nfsr: Seq<u8>,
    pub lfsr: Seq<u8>,
    pub key: Seq<u8>,
    pub keysize: nat,
    pub ivsize: nat,
    pub initialized: bool,
}

impl GrainView {
    /// Well-formed engine state: two 128-cell registers whose cells each hold
    /// a single bit, a 16-byte key, and a supported size configuration.
    pub open spec fn wf(self) -> bool {
        &&& self.nfsr.len() == 128
        &&& self.lfsr.len() == 128
        &&& bits_valid(self.nfsr)
        &&& bits_valid(self.lfsr)
        &&& self.key.len() == 16
        &&& self.key.len() * 8 == self.keysize
        &&& (self.ivsize == 96 || self.ivsize == 128)
    }
}

/// The Grain-128 cipher engine: a bit-serial state machine over a nonlinear
/// and a linear feedback shift register, plus the stored key material.
#[derive(Clone)]
pub struct Grain128 {
    nfsr: Vec<u8>,
    lfsr: Vec<u8>,
    key: Vec<u8>,
    keysize: usize,
    ivsize: usize,
    initialized: bool,
}

impl View for Grain128 {
    type V = GrainView;

    closed spec fn view(&self) -> GrainView {
        GrainView {
            nfsr: self.nfsr@,
            lfsr: self.lfsr@,
            key: self.key@,
            keysize: self.keysize as nat,
            ivsize: self.ivsize as nat,
            initialized: self.initialized,
        }
    }
}

impl Grain128 {
    /// Creates an engine holding the key, with both registers zero-filled.
    /// The registers are not yet loaded: `ivsetup` must run before any
    /// keystream is requested.
    pub fn keysetup(key: &[u8], keysize: usize, ivsize: usize) -> (r: Result<Grain128, GrainError>)
        ensures
            r is Ok <==> (keysize == 128 && (ivsize == 96 || ivsize == 128) && key@.len() * 8
                == keysize),
            (keysize != 128 || (ivsize != 96 && ivsize != 128)) ==> r == Result::<
                Grain128,
                GrainError,
            >::Err(GrainError::UnsupportedConfiguration),
            (keysize == 128 && (ivsize == 96 || ivsize == 128) && key@.len() * 8 != keysize) ==> r
                == Result::<Grain128, GrainError>::Err(GrainError::InvalidKeyLength),
            r matches Ok(g) ==> g@.wf() && g@.key == key@ && g@.keysize == keysize && g@.ivsize
                == ivsize && !g@.initialized && g@.nfsr == zero_bytes(128) && g@.lfsr == zero_bytes(
                128,
            ),
    {
        if keysize != 128 || (ivsize != 96 && ivsize != 128) {
            return Err(GrainError::UnsupportedConfiguration);
        }
        if key.len() != keysize / 8 {
            return Err(GrainError::InvalidKeyLength);
        }
        let mut nfsr: Vec<u8> = Vec::new();
        let mut lfsr: Vec<u8> = Vec::new();
        for i in 0..128usize
            invariant
                nfsr@.len() == i,
                lfsr@.len() == i,
                forall|k: int| 0 <= k < i ==> nfsr@[k] == 0 && lfsr@[k] == 0,
        {
            nfsr.push(0u8);
            lfsr.push(0u8);
        }
        let g = Grain128 { nfsr, lfsr, key: slice_to_vec(key), keysize, ivsize, initialized: false };
        proof {
            assert(g@.nfsr =~= zero_bytes(128));
            assert(g@.lfsr =~= zero_bytes(128));
        }
        Ok(g)
    }

    /// Loads the key into the NFSR and the IV into the LFSR (bit `i * 8 + j`
    /// of a register takes bit `j`, least significant first, of byte `i`;
    /// LFSR cells past the IV are padded with 1), then runs exactly 256
    /// warm-up clockings, folding each output bit back into cell 127 of both
    /// registers. No warm-up output is released. On a length mismatch the
    /// engine is left unchanged.
    pub fn ivsetup(&mut self, iv: &[u8]) -> (r: Result<(), GrainError>)
        requires
            old(self)@.wf(),
        ensures
            final(self)@.wf(),
            final(self)@.key == old(self)@.key,
            final(self)@.keysize == old(self)@.keysize,
            final(self)@.ivsize == old(self)@.ivsize,
            r is Ok <==> iv@.len() * 8 == old(self)@.ivsize,
            r is Ok ==> final(self)@.initialized && final(self)@.nfsr == init_regs(
                old(self)@.key,
                iv@,
                old(self)@.ivsize,
            ).0 && final(self)@.lfsr == init_regs(old(self)@.key, iv@, old(self)@.ivsize).1,
            r is Err ==> r == Result::<(), GrainError>::Err(GrainError::InvalidIVLength)
                && *final(self) == *old(self),
    {
        if iv.len() != self.ivsize / 8 {
            return Err(GrainError::InvalidIVLength);
        }
        let ghost key0 = self.key@;
        let ghost vs0 = self.ivsize;
        let ghost init0 = self.initialized;

        for c in 0..128usize
            invariant
                self.keysize == 128,
                self.ivsize == vs0,
                self.initialized == init0,
                self.key@ == key0,
                key0.len() == 16,
                vs0 == 96 || vs0 == 128,
                iv@.len() * 8 == vs0,
                self.nfsr@.len() == 128,
                self.lfsr@.len() == 128,
                forall|k: int| 0 <= k < c ==> self.nfsr@[k] == loaded_nfsr(key0)[k],
                forall|k: int| 0 <= k < c ==> self.lfsr@[k] == loaded_lfsr(iv@, vs0 as nat)[k],
        {
            proof {
                vstd::arithmetic::div_mod::lemma_fundamental_div_mod(c as int, 8);
                vstd::arithmetic::div_mod::lemma_mod_bound(c as int, 8);
            }
            let i: usize = c / 8;
            let j: usize = c % 8;
            let kb: u8 = (self.key[i] >> (j as u8)) & 1;
            self.nfsr[c] = kb;
            let lb: u8 = if c < self.ivsize {
                (iv[i] >> (j as u8)) & 1
            } else {
                1u8
            };
            self.lfsr[c] = lb;
            proof {
                assert(kb == byte_bit(key0[c as int / 8], c as int % 8));
                if c < vs0 {
                    assert(lb == byte_bit(iv@[c as int / 8], c as int % 8));
                }
            }
        }
        proof {
            assert(self.nfsr@ =~= loaded_nfsr(key0));
            assert(self.lfsr@ =~= loaded_lfsr(iv@, vs0 as nat));
            assert forall|k: int| 0 <= k < 128 implies is_bit(#[trigger] self.nfsr@[k]) by {
                lemma_byte_bit_is_bit(key0[k / 8], k % 8);
            }
            assert forall|k: int| 0 <= k < 128 implies is_bit(#[trigger] self.lfsr@[k]) by {
                lemma_byte_bit_is_bit(iv@[k / 8], k % 8);
            }
        }

        let ghost ln = self.nfsr@;
        let ghost ll = self.lfsr@;
        for t in 0..256usize
            invariant
                self.keysize == 128,
                self.ivsize == vs0,
                self.initialized == init0,
                self.key@ == key0,
                key0.len() == 16,
                vs0 == 96 || vs0 == 128,
                self.nfsr@.len() == 128,
                self.lfsr@.len() == 128,
                bits_valid(self.nfsr@),
                bits_valid(self.lfsr@),
                self.nfsr@ == warmed(ln, ll, t as nat).0,
                self.lfsr@ == warmed(ln, ll, t as nat).1,
        {
            let ghost cn = self.nfsr@;
            let ghost cl = self.lfsr@;
            let outbit: u8 = self.keystream();
            let lv: u8 = self.lfsr[127] ^ outbit;
            self.lfsr[127] = lv;
            let nv: u8 = self.nfsr[127] ^ outbit;
            self.nfsr[127] = nv;
            proof {
                lemma_warmed_unfold(ln, ll, t as nat);
                let stepped = step_regs(cn, cl);
                assert(self.nfsr@ == stepped.0.update(127, stepped.0[127] ^ out_bit(cn, cl)));
                assert(self.lfsr@ == stepped.1.update(127, stepped.1[127] ^ out_bit(cn, cl)));
                assert(self.nfsr@ == warmed(ln, ll, (t + 1) as nat).0);
                assert(self.lfsr@ == warmed(ln, ll, (t + 1) as nat).1);
                lemma_feedback_bits(cn, cl);
                lemma_shift1_bits(cn, nfsr_feedback(cn, cl));
                lemma_shift1_bits(cl, lfsr_feedback(cl));
                lemma_xor_bit(stepped.0[127], out_bit(cn, cl));
                lemma_xor_bit(stepped.1[127], out_bit(cn, cl));
                assert forall|k: int| 0 <= k < 128 implies is_bit(#[trigger] self.nfsr@[k]) by {
                    if k != 127 {
                        assert(self.nfsr@[k] == stepped.0[k]);
                    }
                }
                assert forall|k: int| 0 <= k < 128 implies is_bit(#[trigger] self.lfsr@[k]) by {
                    if k != 127 {
                        assert(self.lfsr@[k] == stepped.1[k]);
                    }
                }
            }
        }
        self.initialized = true;
        Ok(())
    }

    /// Computes one output bit from the current register contents, then
    /// shifts both registers by one cell and writes the feedback bits into
    /// cell 127. All tap reads use pre-shift values.
    fn keystream(&mut self) -> (out: u8)
        requires
            old(self)@.wf(),
        ensures
            final(self)@.wf(),
            final(self)@.key == old(self)@.key,
            final(self)@.keysize == old(self)@.keysize,
            final(self)@.ivsize == old(self)@.ivsize,
            final(self)@.initialized == old(self)@.initialized,
            out == out_bit(old(self)@.nfsr, old(self)@.lfsr),
            is_bit(out),
            final(self)@.nfsr == shift1(
                old(self)@.nfsr,
                nfsr_feedback(old(self)@.nfsr, old(self)@.lfsr),
            ),
            final(self)@.lfsr == shift1(old(self)@.lfsr, lfsr_feedback(old(self)@.lfsr)),
    {
        let ghost n0 = self.nfsr@;
        let ghost l0 = self.lfsr@;
        let ghost key0 = self.key@;
        let ghost vs0 = self.ivsize;
        let ghost init0 = self.initialized;

        let outbit: u8 = self.nfsr[2] ^ self.nfsr[15] ^ self.nfsr[36] ^ self.nfsr[45]
            ^ self.nfsr[64] ^ self.nfsr[73] ^ self.nfsr[89] ^ self.lfsr[93] ^ (self.nfsr[12]
            & self.lfsr[8]) ^ (self.lfsr[13] & self.lfsr[20]) ^ (self.nfsr[95] & self.lfsr[42]) ^ (
        self.lfsr[60] & self.lfsr[79]) ^ (self.nfsr[12] & self.nfsr[95] & self.lfsr[95]);

        let n_bit: u8 = self.lfsr[0] ^ self.nfsr[0] ^ self.nfsr[26] ^ self.nfsr[56] ^ self.nfsr[91]
            ^ self.nfsr[96] ^ (self.nfsr[3] & self.nfsr[67]) ^ (self.nfsr[11] & self.nfsr[13]) ^ (
        self.nfsr[17] & self.nfsr[18]) ^ (self.nfsr[27] & self.nfsr[59]) ^ (self.nfsr[40]
            & self.nfsr[48]) ^ (self.nfsr[61] & self.nfsr[65]) ^ (self.nfsr[68] & self.nfsr[84]);

        let l_bit: u8 = self.lfsr[0] ^ self.lfsr[7] ^ self.lfsr[38] ^ self.lfsr[70] ^ self.lfsr[81]
            ^ self.lfsr[96];

        proof {
            lemma_feedback_bits(n0, l0);
        }

        let ks: usize = self.keysize;
        for i in 1..ks
            invariant
                ks == 128,
                self.keysize == 128,
                self.ivsize == vs0,
                self.initialized == init0,
                self.key@ == key0,
                self.nfsr@.len() == 128,
                self.lfsr@.len() == 128,
                forall|k: int| 0 <= k < i - 1 ==> self.nfsr@[k] == n0[k + 1] && self.lfsr@[k]
                    == l0[k + 1],
                forall|k: int| i - 1 <= k < 128 ==> self.nfsr@[k] == n0[k] && self.lfsr@[k] == l0[k],
        {
            let nv: u8 = self.nfsr[i];
            self.nfsr[i - 1] = nv;
            let lv: u8 = self.lfsr[i];
            self.lfsr[i - 1] = lv;
        }
        self.nfsr[127] = n_bit;
        self.lfsr[127] = l_bit;
        proof {
            assert(self.nfsr@ =~= shift1(n0, n_bit));
            assert(self.lfsr@ =~= shift1(l0, l_bit));
            lemma_shift1_bits(n0, n_bit);
            lemma_shift1_bits(l0, l_bit);
        }
        outbit
    }

    /// Generates the next keystream byte: eight successive output bits, the
    /// first packed into the least significant position. The ghost arguments
    /// fix the registers the current state was clocked from, so that the
    /// result can be named as keystream byte `k` of that origin.
    fn next_byte(&mut self, Ghost(n0): Ghost<Seq<u8>>, Ghost(l0): Ghost<Seq<u8>>, Ghost(k): Ghost<
        nat,
    >) -> (b: u8)
        requires
            old(self)@.wf(),
            old(self)@.nfsr == regs_after(n0, l0, 8 * k).0,
            old(self)@.lfsr == regs_after(n0, l0, 8 * k).1,
        ensures
            final(self)@.wf(),
            final(self)@.key == old(self)@.key,
            final(self)@.keysize == old(self)@.keysize,
            final(self)@.ivsize == old(self)@.ivsize,
            final(self)@.initialized == old(self)@.initialized,
            b == keystream_byte(n0, l0, k),
            final(self)@.nfsr == regs_after(n0, l0, 8 * k + 8).0,
            final(self)@.lfsr == regs_after(n0, l0, 8 * k + 8).1,
    {
        let b0: u8 = self.keystream();
        proof {
            lemma_regs_after_unfold(n0, l0, 8 * k);
        }
        let b1: u8 = self.keystream();
        proof {
            lemma_regs_after_unfold(n0, l0, 8 * k + 1);
        }
        let b2: u8 = self.keystream();
        proof {
            lemma_regs_after_unfold(n0, l0, 8 * k + 2);
        }
        let b3: u8 = self.keystream();
        proof {
            lemma_regs_after_unfold(n0, l0, 8 * k + 3);
        }
        let b4: u8 = self.keystream();
        proof {
            lemma_regs_after_unfold(n0, l0, 8 * k + 4);
        }
        let b5: u8 = self.keystream();
        proof {
            lemma_regs_after_unfold(n0, l0, 8 * k + 5);
        }
        let b6: u8 = self.keystream();
        proof {
            lemma_regs_after_unfold(n0, l0, 8 * k + 6);
        }
        let b7: u8 = self.keystream();
        proof {
            lemma_regs_after_unfold(n0, l0, 8 * k + 7);
        }
        b0 | (b1 << 1u8) | (b2 << 2u8) | (b3 << 3u8) | (b4 << 4u8) | (b5 << 5u8) | (b6 << 6u8) | (
        b7 << 7u8)
    }

    /// Returns the next `n` keystream bytes, advancing the engine by `8 * n`
    /// clockings. Bits are packed first-generated bit least significant.
    /// Fails with `NotInitialized`, leaving the engine unchanged, if no
    /// `ivsetup` has completed.
    pub fn keystream_bytes(&mut self, n: usize) -> (r: Result<Vec<u8>, GrainError>)
        requires
            old(self)@.wf(),
        ensures
            final(self)@.wf(),
            final(self)@.key == old(self)@.key,
            final(self)@.keysize == old(self)@.keysize,
            final(self)@.ivsize == old(self)@.ivsize,
            final(self)@.initialized == old(self)@.initialized,
            r is Ok <==> old(self)@.initialized,
            !old(self)@.initialized ==> r == Result::<Vec<u8>, GrainError>::Err(
                GrainError::NotInitialized,
            ) && *final(self) == *old(self),
            r matches Ok(ks) ==> ks@ == keystream_seq(old(self)@.nfsr, old(self)@.lfsr, n as nat)
                && final(self)@.nfsr == regs_after(
                old(self)@.nfsr,
                old(self)@.lfsr,
                8 * n as nat,
            ).0 && final(self)@.lfsr == regs_after(old(self)@.nfsr, old(self)@.lfsr, 8 * n as nat).1,
    {
        if !self.initialized {
            return Err(GrainError::NotInitialized);
        }
        let ghost n0 = self.nfsr@;
        let ghost l0 = self.lfsr@;
        let ghost key0 = self.key@;
        let ghost vs0 = self.ivsize;
        let mut out: Vec<u8> = Vec::new();
        for i in 0..n
            invariant
                self@.wf(),
                self.keysize == 128,
                self.ivsize == vs0,
                self.initialized,
                self.key@ == key0,
                out@.len() == i,
                out@ == keystream_seq(n0, l0, i as nat),
                self.nfsr@ == regs_after(n0, l0, 8 * i as nat).0,
                self.lfsr@ == regs_after(n0, l0, 8 * i as nat).1,
        {
            let b: u8 = self.next_byte(Ghost(n0), Ghost(l0), Ghost(i as nat));
            out.push(b);
            proof {
                assert(out@ =~= keystream_seq(n0, l0, (i + 1) as nat));
            }
        }
        Ok(out)
    }

    /// Encrypts `plaintext` by XORing each byte with the next keystream byte;
    /// the result has the same length. Fails with `NotInitialized`, leaving
    /// the engine unchanged, if no `ivsetup` has completed.
    pub fn encrypt_bytes(&mut self, plaintext: &[u8]) -> (r: Result<Vec<u8>, GrainError>)
        requires
            old(self)@.wf(),
        ensures
            final(self)@.wf(),
            final(self)@.key == old(self)@.key,
            final(self)@.keysize == old(self)@.keysize,
            final(self)@.ivsize == old(self)@.ivsize,
            final(self)@.initialized == old(self)@.initialized,
            r is Ok <==> old(self)@.initialized,
            !old(self)@.initialized ==> r == Result::<Vec<u8>, GrainError>::Err(
                GrainError::NotInitialized,
            ) && *final(self) == *old(self),
            r matches Ok(ct) ==> ct@ == xor_with_keystream(
                old(self)@.nfsr,
                old(self)@.lfsr,
                plaintext@,
            ) && final(self)@.nfsr == regs_after(
                old(self)@.nfsr,
                old(self)@.lfsr,
                8 * plaintext@.len(),
            ).0 && final(self)@.lfsr == regs_after(
                old(self)@.nfsr,
                old(self)@.lfsr,
                8 * plaintext@.len(),
            ).1,
    {
        if !self.initialized {
            return Err(GrainError::NotInitialized);
        }
        let ghost n0 = self.nfsr@;
        let ghost l0 = self.lfsr@;
        let ghost key0 = self.key@;
        let ghost vs0 = self.ivsize;
        let mut out: Vec<u8> = Vec::new();
        for i in 0..plaintext.len()
            invariant
                self@.wf(),
                self.keysize == 128,
                self.ivsize == vs0,
                self.initialized,
                self.key@ == key0,
                out@.len() == i,
                out@ == xor_with_keystream(n0, l0, plaintext@.take(i as int)),
                self.nfsr@ == regs_after(n0, l0, 8 * i as nat).0,
                self.lfsr@ == regs_after(n0, l0, 8 * i as nat).1,
        {
            let k: u8 = self.next_byte(Ghost(n0), Ghost(l0), Ghost(i as nat));
            out.push(plaintext[i] ^ k);
            proof {
                assert(out@ =~= xor_with_keystream(n0, l0, plaintext@.take(i + 1)));
            }
        }
        proof {
            assert(plaintext@.take(plaintext@.len() as int) =~= plaintext@);
        }
        Ok(out)
    }

    /// Decrypts `ciphertext`: XOR is self-inverse, so this is the same
    /// operation as `encrypt_bytes`, distinguished only by caller intent.
    pub fn decrypt_bytes(&mut self, ciphertext: &[u8]) -> (r: Result<Vec<u8>, GrainError>)
        requires
            old(self)@.wf(),
        ensures
            final(self)@.wf(),
            final(self)@.key == old(self)@.key,
            final(self)@.keysize == old(self)@.keysize,
            final(self)@.ivsize == old(self)@.ivsize,
            final(self)@.initialized == old(self)@.initialized,
            r is Ok <==> old(self)@.initialized,
            !old(self)@.initialized ==> r == Result::<Vec<u8>, GrainError>::Err(
                GrainError::NotInitialized,
            ) && *final(self) == *old(self),
            r matches Ok(pt) ==> pt@ == xor_with_keystream(
                old(self)@.nfsr,
                old(self)@.lfsr,
                ciphertext@,
            ) && final(self)@.nfsr == regs_after(
                old(self)@.nfsr,
                old(self)@.lfsr,
                8 * ciphertext@.len(),
            ).0 && final(self)@.lfsr == regs_after(
                old(self)@.nfsr,
                old(self)@.lfsr,
                8 * ciphertext@.len(),
            ).1,
    {
        self.encrypt_bytes(ciphertext)
    }
}

} // verus!
