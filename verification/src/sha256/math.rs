//! SHA-256 as mathematics: the word functions, the message schedule, the
//! compression function, the padding rule and the digest of a byte string,
//! as laid down in FIPS 180-4.

use vstd::prelude::*;

verus! {

/// The sixty-four round constants.
pub const ROUND_CONSTANTS: [u32; 64] = [
    0x428a2f98, 0x71374491, 0xb5c0fbcf, 0xe9b5dba5, 0x3956c25b, 0x59f111f1, 0x923f82a4, 0xab1c5ed5,
    0xd807aa98, 0x12835b01, 0x243185be, 0x550c7dc3, 0x72be5d74, 0x80deb1fe, 0x9bdc06a7, 0xc19bf174,
    0xe49b69c1, 0xefbe4786, 0x0fc19dc6, 0x240ca1cc, 0x2de92c6f, 0x4a7484aa, 0x5cb0a9dc, 0x76f988da,
    0x983e5152, 0xa831c66d, 0xb00327c8, 0xbf597fc7, 0xc6e00bf3, 0xd5a79147, 0x06ca6351, 0x14292967,
    0x27b70a85, 0x2e1b2138, 0x4d2c6dfc, 0x53380d13, 0x650a7354, 0x766a0abb, 0x81c2c92e, 0x92722c85,
    0xa2bfe8a1, 0xa81a664b, 0xc24b8b70, 0xc76c51a3, 0xd192e819, 0xd6990624, 0xf40e3585, 0x106aa070,
    0x19a4c116, 0x1e376c08, 0x2748774c, 0x34b0bcb5, 0x391c0cb3, 0x4ed8aa4a, 0x5b9cca4f, 0x682e6ff3,
    0x748f82ee, 0x78a5636f, 0x84c87814, 0x8cc70208, 0x90befffa, 0xa4506ceb, 0xbef9a3f7, 0xc67178f2,
];

/// The chaining value that every hash starts from.
pub const INITIAL_STATE: [u32; 8] = [
    0x6a09e667, 0xbb67ae85, 0x3c6ef372, 0xa54ff53a,
    0x510e527f, 0x9b05688c, 0x1f83d9ab, 0x5be0cd19,
];

/// `x` rotated right by `n` bit positions, for `0 < n < 32`.
pub open spec fn rotate_right(x: u32, n: u32) -> u32 {
    (x >> n) | (x << ((32 - n) as u32))
}

/// Bitwise choice: where `x` has a one the bit of `y`, elsewhere that of `z`.
pub open spec fn choice(x: u32, y: u32, z: u32) -> u32 {
    (x & y) ^ (!x & z)
}

/// Bitwise majority of three words.
pub open spec fn majority(x: u32, y: u32, z: u32) -> u32 {
    (x & y) ^ (x & z) ^ (y & z)
}

/// The upper-case sigma-zero of the round function.
pub open spec fn big_sigma0(x: u32) -> u32 {
    rotate_right(x, 2) ^ rotate_right(x, 13) ^ rotate_right(x, 22)
}

/// The upper-case sigma-one of the round function.
pub open spec fn big_sigma1(x: u32) -> u32 {
    rotate_right(x, 6) ^ rotate_right(x, 11) ^ rotate_right(x, 25)
}

/// The lower-case sigma-zero of the message schedule.
pub open spec fn small_sigma0(x: u32) -> u32 {
    rotate_right(x, 7) ^ rotate_right(x, 18) ^ (x >> 3u32)
}

/// The lower-case sigma-one of the message schedule.
pub open spec fn small_sigma1(x: u32) -> u32 {
    rotate_right(x, 17) ^ rotate_right(x, 19) ^ (x >> 10u32)
}

/// 256 to the power `k`.
pub open spec fn pow256(k: int) -> int
    decreases k,
{
    if k <= 0 {
        1
    } else {
        256 * pow256(k - 1)
    }
}

/// The digit of weight `256^k` when `x` is written in base 256.
pub open spec fn base256_digit(x: int, k: int) -> u8 {
    ((x / pow256(k)) % 256) as u8
}

/// The word whose big-endian bytes are `b0 b1 b2 b3`.
pub open spec fn be_word(b0: u8, b1: u8, b2: u8, b3: u8) -> u32 {
    (b0 * 0x100_0000 + b1 * 0x1_0000 + b2 * 0x100 + b3) as u32
}

/// Word `t` of a block of 64 bytes, for `0 <= t < 16`.
pub open spec fn block_word(block: Seq<u8>, t: int) -> u32 {
    be_word(block[4 * t], block[4 * t + 1], block[4 * t + 2], block[4 * t + 3])
}

/// Word `t` of the message schedule of `block`, for `0 <= t < 64`.
pub open spec fn schedule_word(block: Seq<u8>, t: int) -> u32
    decreases t,
{
    if t < 0 {
        0
    } else if t < 16 {
        block_word(block, t)
    } else {
        small_sigma1(schedule_word(block, t - 2)).wrapping_add(
            schedule_word(block, t - 7),
        ).wrapping_add(small_sigma0(schedule_word(block, t - 15))).wrapping_add(
            schedule_word(block, t - 16),
        )
    }
}

/// The eight working variables of the compression function.
pub struct Registers {
    pub a: u32,
    pub b: u32,
    pub c: u32,
    pub d: u32,
    pub e: u32,
    pub f: u32,
    pub g: u32,
    pub h: u32,
}

/// The working variables loaded from a chaining value of eight words.
pub open spec fn registers_of(state: Seq<u32>) -> Registers {
    Registers {
        a: state[0],
        b: state[1],
        c: state[2],
        d: state[3],
        e: state[4],
        f: state[5],
        g: state[6],
        h: state[7],
    }
}

/// One round: the working variables after mixing in the round constant `k`
/// and the schedule word `w`.
pub open spec fn round(r: Registers, k: u32, w: u32) -> Registers {
    let t1 = r.h.wrapping_add(big_sigma1(r.e)).wrapping_add(choice(r.e, r.f, r.g)).wrapping_add(
        k,
    ).wrapping_add(w);
    let t2 = big_sigma0(r.a).wrapping_add(majority(r.a, r.b, r.c));
    Registers {
        a: t1.wrapping_add(t2),
        b: r.a,
        c: r.b,
        d: r.c,
        e: r.d.wrapping_add(t1),
        f: r.e,
        g: r.f,
        h: r.g,
    }
}

/// The working variables after the first `t` rounds over `block`.
pub open spec fn rounds(start: Registers, block: Seq<u8>, t: int) -> Registers
    decreases t,
{
    if t <= 0 {
        start
    } else {
        round(rounds(start, block, t - 1), ROUND_CONSTANTS[t - 1], schedule_word(block, t - 1))
    }
}

/// The compression function: the chaining value that follows `state` once
/// the 64-byte `block` is absorbed.
pub open spec fn compress(state: Seq<u32>, block: Seq<u8>) -> Seq<u32> {
    let r = rounds(registers_of(state), block, 64);
    seq![
        state[0].wrapping_add(r.a),
        state[1].wrapping_add(r.b),
        state[2].wrapping_add(r.c),
        state[3].wrapping_add(r.d),
        state[4].wrapping_add(r.e),
        state[5].wrapping_add(r.f),
        state[6].wrapping_add(r.g),
        state[7].wrapping_add(r.h),
    ]
}

/// Block `n` of a byte string: its bytes `64 n .. 64 n + 64`.
pub open spec fn block_at(bytes: Seq<u8>, n: int) -> Seq<u8> {
    bytes.subrange(64 * n, 64 * n + 64)
}

/// The chaining value after the first `n` whole blocks of `bytes`.
pub open spec fn chain(bytes: Seq<u8>, n: int) -> Seq<u32>
    decreases n,
{
    if n <= 0 {
        INITIAL_STATE@
    } else {
        compress(chain(bytes, n - 1), block_at(bytes, n - 1))
    }
}

/// How many zero bytes the padding puts between the marker byte and the
/// length field of a message of `len` bytes.
pub open spec fn zero_fill(len: nat) -> nat {
    ((119 - len % 64) % 64) as nat
}

/// A count of bits as eight big-endian bytes.
pub open spec fn count_field(bits: u64) -> Seq<u8> {
    Seq::new(8, |i: int| base256_digit(bits as int, 7 - i))
}

/// The length field: the message length in bits, modulo 2^64, as eight
/// big-endian bytes.
pub open spec fn length_field(len: nat) -> Seq<u8> {
    count_field(((8 * len) as int % 0x1_0000_0000_0000_0000) as u64)
}

/// `n` zero bytes.
pub open spec fn zeros(n: nat) -> Seq<u8> {
    Seq::new(n, |i: int| 0u8)
}

/// The padded message: the message, the marker byte `0x80`, the zero fill
/// and the length field. Its length is a multiple of 64.
pub open spec fn padded(msg: Seq<u8>) -> Seq<u8> {
    msg + seq![0x80u8] + zeros(zero_fill(msg.len())) + length_field(msg.len())
}

/// The 32 bytes of a chaining value, each word in big-endian order.
pub open spec fn digest_bytes(state: Seq<u32>) -> Seq<u8> {
    Seq::new(32, |i: int| base256_digit(state[i / 4] as int, 3 - i % 4))
}

/// The SHA-256 digest of `msg`.
pub open spec fn sha256(msg: Seq<u8>) -> Seq<u8> {
    let p = padded(msg);
    digest_bytes(chain(p, p.len() as int / 64))
}

} // verus!
