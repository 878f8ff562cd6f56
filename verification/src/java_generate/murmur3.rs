//! The mathematical definition of the partition token: a 128-bit, two-lane
//! streaming hash over a byte sequence, reduced to one signed 64-bit value.
//!
//! Everything here is specification. The streaming implementation in
//! [`super::hasher`] is proved against these functions.

use vstd::prelude::*;

verus! {

/// First lane multiplier.
pub const C1: u64 = 0x87c3_7b91_1142_53d5;

/// Second lane multiplier.
pub const C2: u64 = 0x4cf5_ad43_2745_937f;

/// Number of bytes in one block: two lanes of eight bytes each.
pub const BLOCK: usize = 16;

/// Multiplication modulo 2^64.
pub open spec fn wmul(a: u64, b: u64) -> u64 {
    a.wrapping_mul(b)
}

/// Addition modulo 2^64.
pub open spec fn wadd(a: u64, b: u64) -> u64 {
    a.wrapping_add(b)
}

/// Rotation of a 64-bit word to the left by `n` bits, `0 < n < 64`.
pub open spec fn rotl64(v: u64, n: u32) -> u64 {
    (v << n) | (v >> ((64 - n) as u32))
}

/// The eight bytes of `b` starting at `at`, read as a little-endian word.
pub open spec fn lane(b: Seq<u8>, at: int) -> u64 {
    (b[at] as u64) | ((b[at + 1] as u64) << 8) | ((b[at + 2] as u64) << 16) | ((b[at + 3] as u64)
        << 24) | ((b[at + 4] as u64) << 32) | ((b[at + 5] as u64) << 40) | ((b[at + 6] as u64)
        << 48) | ((b[at + 7] as u64) << 56)
}

/// Scrambles the first lane of a block before it is folded into the first accumulator.
pub open spec fn scramble1(k: u64) -> u64 {
    wmul(rotl64(wmul(k, C1), 31), C2)
}

/// Scrambles the second lane of a block before it is folded into the second accumulator.
pub open spec fn scramble2(k: u64) -> u64 {
    wmul(rotl64(wmul(k, C2), 33), C1)
}

/// The two accumulators after one full block with lanes `k1`, `k2` has been mixed
/// into the accumulators `h`.
pub open spec fn mix_block(h: (u64, u64), k1: u64, k2: u64) -> (u64, u64) {
    let a = wadd(wmul(wadd(rotl64(h.0 ^ scramble1(k1), 27), h.1), 5), 0x52dce729);
    let b = wadd(wmul(wadd(rotl64(h.1 ^ scramble2(k2), 31), a), 5), 0x38495ab5);
    (a, b)
}

/// The accumulators after the first `n` full blocks of `b` have been mixed in,
/// starting from zero.
pub open spec fn mix_blocks(b: Seq<u8>, n: nat) -> (u64, u64)
    decreases n,
{
    if n == 0 {
        (0u64, 0u64)
    } else {
        let at = 16 * (n - 1);
        mix_block(mix_blocks(b, (n - 1) as nat), lane(b, at), lane(b, at + 8))
    }
}

/// One trailing byte, sign-extended to 64 bits and moved to byte position `pos`
/// of a lane.
pub open spec fn tail_byte(x: u8, pos: int) -> u64 {
    ((x as i8) as i64 as u64) << ((8 * pos) as u64)
}

/// The trailing bytes `t[from..upto]` folded into one lane: byte `t[i]` lands at
/// byte position `i - from`, and the highest byte is folded first.
pub open spec fn tail_lane(t: Seq<u8>, from: int, upto: int, i: int) -> u64
    decreases upto - i,
{
    if i >= upto || i < from {
        0u64
    } else {
        tail_lane(t, from, upto, i + 1) ^ tail_byte(t[i], i - from)
    }
}

/// The accumulators after the trailing bytes `t` (fewer than sixteen) have been
/// folded in.
pub open spec fn mix_tail(h: (u64, u64), t: Seq<u8>) -> (u64, u64) {
    let h2 = if t.len() > 8 {
        h.1 ^ scramble2(tail_lane(t, 8, t.len() as int, 8))
    } else {
        h.1
    };
    let h1 = if t.len() > 0 {
        h.0 ^ scramble1(tail_lane(t, 0, if t.len() < 8 { t.len() as int } else { 8 }, 0))
    } else {
        h.0
    };
    (h1, h2)
}

/// The finalization mix of one accumulator.
pub open spec fn fmix(k: u64) -> u64 {
    let a = wmul(k ^ (k >> 33), 0xff51_afd7_ed55_8ccd);
    let b = wmul(a ^ (a >> 33), 0xc4ce_b9fe_1a85_ec53);
    b ^ (b >> 33)
}

/// The two 64-bit halves of the 128-bit hash, given the accumulators after all
/// bytes have been folded in and the total number of bytes.
pub open spec fn finalize(h: (u64, u64), len: nat) -> (u64, u64) {
    let a0 = h.0 ^ (len as u64);
    let b0 = h.1 ^ (len as u64);
    let a1 = wadd(a0, b0);
    let b1 = wadd(b0, a1);
    let a2 = fmix(a1);
    let b2 = fmix(b1);
    let a3 = wadd(a2, b2);
    let b3 = wadd(b2, a3);
    (a3, b3)
}

/// The 128-bit value with `high` above `low`, reinterpreted as a signed 64-bit
/// integer.
pub open spec fn reduce(low: u64, high: u64) -> i64 {
    ((((high as i64) as i128) << 64) | ((low as i64) as i128)) as i64
}

/// The 128-bit hash of `b` as its two 64-bit halves, low half first.
pub open spec fn hash128(b: Seq<u8>) -> (u64, u64) {
    let n = b.len() / 16;
    finalize(mix_tail(mix_blocks(b, n), b.skip((16 * n) as int)), b.len())
}

/// The partition token of the byte sequence `b`.
pub open spec fn token_of(b: Seq<u8>) -> i64 {
    let h = hash128(b);
    reduce(h.0, h.1)
}

} // verus!
