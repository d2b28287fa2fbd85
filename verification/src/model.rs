//! Bit-level mathematical model of the Grain-128 cipher.
//!
//! Registers are modelled as sequences of 128 single-bit cells, each cell a
//! byte restricted to {0, 1}. Every tap position below is taken from the
//! published 128-bit configuration and is load-bearing: the executable engine
//! in [`crate::cipher`] is specified cell for cell against these functions.

use vstd::prelude::*;

verus! {

/// A register cell holds exactly one bit, stored in a byte.
pub open spec fn is_bit(b: u8) -> bool {
    b == 0 || b == 1
}

/// Every cell of the sequence holds a single bit.
pub open spec fn bits_valid(s: Seq<u8>) -> bool {
    forall|i: int| 0 <= i < s.len() ==> is_bit(#[trigger] s[i])
}

/// Bit `j` of byte `b`, counting bit 0 as the least significant.
pub open spec fn byte_bit(b: u8, j: int) -> u8 {
    (b >> (j as u8)) & 1
}

/// The nonlinear filter/output function: one keystream bit computed from the
/// current (pre-shift) contents of the NFSR `n` and the LFSR `l`.
pub open spec fn out_bit(n: Seq<u8>, l: Seq<u8>) -> u8 {
    n[2] ^ n[15] ^ n[36] ^ n[45] ^ n[64] ^ n[73] ^ n[89] ^ l[93] ^ (n[12] & l[8]) ^ (l[13]
        & l[20]) ^ (n[95] & l[42]) ^ (l[60] & l[79]) ^ (n[12] & n[95] & l[95])
}

/// The next feedback bit for the NFSR; its linear driving term comes from
/// LFSR cell 0, which couples the two registers.
pub open spec fn nfsr_feedback(n: Seq<u8>, l: Seq<u8>) -> u8 {
    l[0] ^ n[0] ^ n[26] ^ n[56] ^ n[91] ^ n[96] ^ (n[3] & n[67]) ^ (n[11] & n[13]) ^ (n[17]
        & n[18]) ^ (n[27] & n[59]) ^ (n[40] & n[48]) ^ (n[61] & n[65]) ^ (n[68] & n[84])
}

/// The next feedback bit for the LFSR: a pure XOR of tapped positions.
pub open spec fn lfsr_feedback(l: Seq<u8>) -> u8 {
    l[0] ^ l[7] ^ l[38] ^ l[70] ^ l[81] ^ l[96]
}

/// One-position left shift: cell `i` takes the value of cell `i + 1`, and the
/// last cell takes the freshly computed feedback bit `fb`.
pub open spec fn shift1(s: Seq<u8>, fb: u8) -> Seq<u8> {
    s.subrange(1, s.len() as int).push(fb)
}

/// One ordinary clocking of both registers: shift each by one position and
/// write its feedback bit into the last cell. All taps read pre-shift values.
pub open spec fn step_regs(n: Seq<u8>, l: Seq<u8>) -> (Seq<u8>, Seq<u8>) {
    (shift1(n, nfsr_feedback(n, l)), shift1(l, lfsr_feedback(l)))
}

/// One warm-up clocking: an ordinary clocking whose output bit is XORed back
/// into cell 127 of both registers instead of being released.
pub open spec fn warm_step(n: Seq<u8>, l: Seq<u8>) -> (Seq<u8>, Seq<u8>) {
    let ob = out_bit(n, l);
    let stepped = step_regs(n, l);
    (stepped.0.update(127, stepped.0[127] ^ ob), stepped.1.update(127, stepped.1[127] ^ ob))
}

/// Register contents after `k` warm-up clockings.
pub open spec fn warmed(n: Seq<u8>, l: Seq<u8>, k: nat) -> (Seq<u8>, Seq<u8>)
    decreases k,
{
    if k == 0 {
        (n, l)
    } else {
        let prev = warmed(n, l, (k - 1) as nat);
        warm_step(prev.0, prev.1)
    }
}

/// Register contents after `k` ordinary clockings.
pub open spec fn regs_after(n: Seq<u8>, l: Seq<u8>, k: nat) -> (Seq<u8>, Seq<u8>)
    decreases k,
{
    if k == 0 {
        (n, l)
    } else {
        let prev = regs_after(n, l, (k - 1) as nat);
        step_regs(prev.0, prev.1)
    }
}

/// Keystream bit `k` produced from initial register contents `(n, l)`: the
/// output of the filter function on the registers after `k` clockings.
pub open spec fn keystream_bit(n: Seq<u8>, l: Seq<u8>, k: nat) -> u8 {
    let r = regs_after(n, l, k);
    out_bit(r.0, r.1)
}

/// Packs eight bits into a byte, the first-generated bit least significant.
pub open spec fn byte_from_bits(
    b0: u8,
    b1: u8,
    b2: u8,
    b3: u8,
    b4: u8,
    b5: u8,
    b6: u8,
    b7: u8,
) -> u8 {
    b0 | (b1 << 1u8) | (b2 << 2u8) | (b3 << 3u8) | (b4 << 4u8) | (b5 << 5u8) | (b6 << 6u8) | (b7
        << 7u8)
}

/// Keystream byte `i`: bits `8 * i` through `8 * i + 7`, first bit least
/// significant.
pub open spec fn keystream_byte(n: Seq<u8>, l: Seq<u8>, i: nat) -> u8 {
    byte_from_bits(
        keystream_bit(n, l, 8 * i),
        keystream_bit(n, l, 8 * i + 1),
        keystream_bit(n, l, 8 * i + 2),
        keystream_bit(n, l, 8 * i + 3),
        keystream_bit(n, l, 8 * i + 4),
        keystream_bit(n, l, 8 * i + 5),
        keystream_bit(n, l, 8 * i + 6),
        keystream_bit(n, l, 8 * i + 7),
    )
}

/// The first `cnt` keystream bytes produced from initial registers `(n, l)`.
pub open spec fn keystream_seq(n: Seq<u8>, l: Seq<u8>, cnt: nat) -> Seq<u8> {
    Seq::new(cnt, |i: int| keystream_byte(n, l, i as nat))
}

/// `data` XORed byte for byte with the keystream: the encryption (and,
/// XOR being self-inverse, equally the decryption) of `data`.
pub open spec fn xor_with_keystream(n: Seq<u8>, l: Seq<u8>, data: Seq<u8>) -> Seq<u8> {
    Seq::new(data.len(), |i: int| data[i] ^ keystream_byte(n, l, i as nat))
}

/// A sequence of `cnt` zero bytes.
pub open spec fn zero_bytes(cnt: nat) -> Seq<u8> {
    Seq::new(cnt, |i: int| 0u8)
}

/// NFSR contents right after loading: key bit `i` (little-endian within each
/// byte) goes to cell `i`.
pub open spec fn loaded_nfsr(key: Seq<u8>) -> Seq<u8> {
    Seq::new(128, |i: int| byte_bit(key[i / 8], i % 8))
}

/// LFSR contents right after loading: IV bit `i` goes to cell `i`; every cell
/// past the IV is padded with the constant 1.
pub open spec fn loaded_lfsr(iv: Seq<u8>, ivsize: nat) -> Seq<u8> {
    Seq::new(
        128,
        |i: int|
            if i < ivsize {
                byte_bit(iv[i / 8], i % 8)
            } else {
                1u8
            },
    )
}

/// Register contents once initialization is complete: key and IV loaded,
/// followed by exactly 256 warm-up clockings.
pub open spec fn init_regs(key: Seq<u8>, iv: Seq<u8>, ivsize: nat) -> (Seq<u8>, Seq<u8>) {
    warmed(loaded_nfsr(key), loaded_lfsr(iv, ivsize), 256)
}

/// Extracting one little-endian bit of a byte always yields a single bit.
pub proof fn lemma_byte_bit_is_bit(b: u8, j: int)
    ensures
        is_bit(byte_bit(b, j)),
{
    let s = j as u8;
    assert(((b >> s) & 1) == 0 || ((b >> s) & 1) == 1) by (bit_vector);
}

/// XOR of two single bits is a single bit.
pub proof fn lemma_xor_bit(a: u8, b: u8)
    requires
        is_bit(a),
        is_bit(b),
    ensures
        is_bit(a ^ b),
{
    assert((a ^ b) == 0 || (a ^ b) == 1) by (bit_vector)
        requires
            (a == 0 || a == 1) && (b == 0 || b == 1),
    ;
}

/// On registers whose cells all hold single bits, the output and both
/// feedback functions yield single bits.
pub proof fn lemma_feedback_bits(n: Seq<u8>, l: Seq<u8>)
    requires
        n.len() == 128,
        l.len() == 128,
        bits_valid(n),
        bits_valid(l),
    ensures
        is_bit(out_bit(n, l)),
        is_bit(nfsr_feedback(n, l)),
        is_bit(lfsr_feedback(l)),
{
    let a0 = n[2];
    let a1 = n[15];
    let a2 = n[36];
    let a3 = n[45];
    let a4 = n[64];
    let a5 = n[73];
    let a6 = n[89];
    let a7 = l[93];
    let a8 = n[12];
    let a9 = l[8];
    let a10 = l[13];
    let a11 = l[20];
    let a12 = n[95];
    let a13 = l[42];
    let a14 = l[60];
    let a15 = l[79];
    let a16 = l[95];
    assert((a0 ^ a1 ^ a2 ^ a3 ^ a4 ^ a5 ^ a6 ^ a7 ^ (a8 & a9) ^ (a10 & a11) ^ (a12 & a13) ^ (a14
        & a15) ^ (a8 & a12 & a16)) <= 1) by (bit_vector)
        requires
            a0 <= 1 && a1 <= 1 && a2 <= 1 && a3 <= 1 && a4 <= 1 && a5 <= 1 && a6 <= 1 && a7 <= 1
                && a8 <= 1 && a9 <= 1 && a10 <= 1 && a11 <= 1 && a12 <= 1 && a13 <= 1 && a14 <= 1
                && a15 <= 1 && a16 <= 1,
    ;
    let c0 = l[0];
    let c1 = n[0];
    let c2 = n[26];
    let c3 = n[56];
    let c4 = n[91];
    let c5 = n[96];
    let c6 = n[3];
    let c7 = n[67];
    let c8 = n[11];
    let c9 = n[13];
    let c10 = n[17];
    let c11 = n[18];
    let c12 = n[27];
    let c13 = n[59];
    let c14 = n[40];
    let c15 = n[48];
    let c16 = n[61];
    let c17 = n[65];
    let c18 = n[68];
    let c19 = n[84];
    assert((c0 ^ c1 ^ c2 ^ c3 ^ c4 ^ c5 ^ (c6 & c7) ^ (c8 & c9) ^ (c10 & c11) ^ (c12 & c13) ^ (c14
        & c15) ^ (c16 & c17) ^ (c18 & c19)) <= 1) by (bit_vector)
        requires
            c0 <= 1 && c1 <= 1 && c2 <= 1 && c3 <= 1 && c4 <= 1 && c5 <= 1 && c6 <= 1 && c7 <= 1
                && c8 <= 1 && c9 <= 1 && c10 <= 1 && c11 <= 1 && c12 <= 1 && c13 <= 1 && c14 <= 1
                && c15 <= 1 && c16 <= 1 && c17 <= 1 && c18 <= 1 && c19 <= 1,
    ;
    let d0 = l[0];
    let d1 = l[7];
    let d2 = l[38];
    let d3 = l[70];
    let d4 = l[81];
    let d5 = l[96];
    assert((d0 ^ d1 ^ d2 ^ d3 ^ d4 ^ d5) <= 1) by (bit_vector)
        requires
            d0 <= 1 && d1 <= 1 && d2 <= 1 && d3 <= 1 && d4 <= 1 && d5 <= 1,
    ;
}

/// Shifting a register of single bits and feeding in a single bit keeps every
/// cell a single bit and preserves the register length.
pub proof fn lemma_shift1_bits(s: Seq<u8>, fb: u8)
    requires
        s.len() >= 1,
        bits_valid(s),
        is_bit(fb),
    ensures
        shift1(s, fb).len() == s.len(),
        bits_valid(shift1(s, fb)),
{
    assert forall|i: int| 0 <= i < shift1(s, fb).len() implies is_bit(#[trigger] shift1(s, fb)[i]) by {
        if i < s.len() - 1 {
            assert(shift1(s, fb)[i] == s[i + 1]);
        } else {
            assert(shift1(s, fb)[i] == fb);
        }
    }
}

/// Unfolds one ordinary clocking: the registers after `k + 1` clockings are
/// the registers after `k` clockings, clocked once more.
pub proof fn lemma_regs_after_unfold(n: Seq<u8>, l: Seq<u8>, k: nat)
    ensures
        regs_after(n, l, k + 1) == step_regs(regs_after(n, l, k).0, regs_after(n, l, k).1),
{
    assert(regs_after(n, l, k + 1) == step_regs(regs_after(n, l, k).0, regs_after(n, l, k).1));
}

/// Unfolds one warm-up clocking in the same way.
pub proof fn lemma_warmed_unfold(n: Seq<u8>, l: Seq<u8>, k: nat)
    ensures
        warmed(n, l, k + 1) == warm_step(warmed(n, l, k).0, warmed(n, l, k).1),
{
    assert(warmed(n, l, k + 1) == warm_step(warmed(n, l, k).0, warmed(n, l, k).1));
}

} // verus!
