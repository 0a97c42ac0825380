//! Hashing in pieces: what a context holds while a message streams
//! through it, how a byte changes that, and how the digest comes out at the
//! end.

use vstd::prelude::*;
use crate::sha256::math::chain;
use crate::sha256::math::compress;
use crate::sha256::math::count_field;
use crate::sha256::math::digest_bytes;
use crate::sha256::math::zeros;
use crate::sha256::math::INITIAL_STATE;

verus! {

/// What a hashing context holds, as plain values.
pub struct Progress {
    /// The chaining value: eight words.
    pub chaining: Seq<u32>,
    /// The block buffer: 64 bytes.
    pub buffer: Seq<u8>,
    /// How many bytes of the buffer are in use: fewer than 64.
    pub buffered: nat,
    /// The count of the bits compressed so far, modulo 2^64.
    pub bit_count: u64,
}

/// The context before the first byte.
pub open spec fn started() -> Progress {
    Progress { chaining: INITIAL_STATE@, buffer: zeros(64), buffered: 0, bit_count: 0 }
}

/// The context after one more byte: the byte goes into the buffer, and a
/// full buffer is compressed at once.
pub open spec fn push_byte(p: Progress, byte: u8) -> Progress {
    let buffer = p.buffer.update(p.buffered as int, byte);
    if p.buffered + 1 == 64 {
        Progress {
            chaining: compress(p.chaining, buffer),
            buffer,
            buffered: 0,
            bit_count: p.bit_count.wrapping_add(512),
        }
    } else {
        Progress { buffer, buffered: p.buffered + 1, ..p }
    }
}

/// The context after the bytes of `bytes`, first to last.
pub open spec fn feed(p: Progress, bytes: Seq<u8>) -> Progress
    decreases bytes.len(),
{
    if bytes.len() == 0 {
        p
    } else {
        push_byte(feed(p, bytes.drop_last()), bytes.last())
    }
}

/// The count of all bits that the context has taken in, modulo 2^64.
pub open spec fn total_bits(p: Progress) -> u64 {
    p.bit_count.wrapping_add((8 * p.buffered) as u64)
}

/// The context after the message is closed: the buffered bytes get the
/// marker byte `0x80`, zeros and the count of bits behind them, in one
/// block where they leave eight bytes free and in two where they do not,
/// and these blocks are compressed.
pub open spec fn finish(p: Progress) -> Progress {
    let bits = total_bits(p);
    let marked = p.buffer.subrange(0, p.buffered as int).push(0x80u8);
    if p.buffered < 56 {
        let block = marked + zeros((55 - p.buffered) as nat) + count_field(bits);
        Progress { chaining: compress(p.chaining, block), buffer: block, bit_count: bits, ..p }
    } else {
        let first = marked + zeros((63 - p.buffered) as nat);
        let block = zeros(56) + count_field(bits);
        Progress {
            chaining: compress(compress(p.chaining, first), block),
            buffer: block,
            bit_count: bits,
            ..p
        }
    }
}

/// The digest that closing the message gives.
pub open spec fn digest_of(p: Progress) -> Seq<u8> {
    digest_bytes(finish(p).chaining)
}

/// The context is what `msg` leaves behind: the buffer holds the bytes
/// that follow the last whole block of `msg`, the chaining value is that
/// of its whole blocks, and the bit count is theirs.
pub open spec fn genuine(p: Progress, msg: Seq<u8>) -> bool {
    let n = msg.len() as int / 64;
    &&& p.buffer.len() == 64
    &&& p.buffered == msg.len() % 64
    &&& forall|i: int| 0 <= i < p.buffered ==> p.buffer[i] == msg[64 * n + i]
    &&& p.chaining == chain(msg, n)
    &&& p.bit_count as int == (512 * n) % 0x1_0000_0000_0000_0000
}

} // verus!
