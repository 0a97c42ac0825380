//! Facts about the SHA-256 mathematics that the hashing context rests on.

use vstd::prelude::*;
use crate::sha256::math::base256_digit;
use crate::sha256::math::block_at;
use crate::sha256::math::chain;
use crate::sha256::math::compress;
use crate::sha256::math::count_field;
use crate::sha256::math::length_field;
use crate::sha256::math::padded;
use crate::sha256::math::pow256;
use crate::sha256::math::sha256;
use crate::sha256::math::zero_fill;
use crate::sha256::math::zeros;
use crate::sha256::stream::digest_of;
use crate::sha256::stream::feed;
use crate::sha256::stream::finish;
use crate::sha256::stream::genuine;
use crate::sha256::stream::push_byte;
use crate::sha256::stream::started;
use crate::sha256::stream::total_bits;
use crate::sha256::stream::Progress;

verus! {

/// The first eight powers of 256.
pub proof fn lemma_pow256_values()
    ensures
        pow256(0) == 1,
        pow256(1) == 0x100,
        pow256(2) == 0x1_0000,
        pow256(3) == 0x100_0000,
        pow256(4) == 0x1_0000_0000,
        pow256(5) == 0x100_0000_0000,
        pow256(6) == 0x1_0000_0000_0000,
        pow256(7) == 0x100_0000_0000_0000,
{
    reveal_with_fuel(pow256, 9);
}

/// Shifting and truncating a 32-bit word picks its base-256 digits.
pub proof fn lemma_word_digits(w: u32)
    ensures
        (w >> 24u32) as u8 == base256_digit(w as int, 3),
        (w >> 16u32) as u8 == base256_digit(w as int, 2),
        (w >> 8u32) as u8 == base256_digit(w as int, 1),
        w as u8 == base256_digit(w as int, 0),
{
    lemma_pow256_values();
    assert((w >> 24u32) as u8 == ((w / 0x100_0000) % 256) as u8 && (w >> 16u32) as u8 == ((w
        / 0x1_0000) % 256) as u8 && (w >> 8u32) as u8 == ((w / 0x100) % 256) as u8 && w as u8 == (w
        % 256) as u8) by (bit_vector);
}

/// Shifting and truncating a 64-bit count picks its base-256 digits.
pub proof fn lemma_count_digits(x: u64)
    ensures
        (x >> 56u64) as u8 == base256_digit(x as int, 7),
        (x >> 48u64) as u8 == base256_digit(x as int, 6),
        (x >> 40u64) as u8 == base256_digit(x as int, 5),
        (x >> 32u64) as u8 == base256_digit(x as int, 4),
        (x >> 24u64) as u8 == base256_digit(x as int, 3),
        (x >> 16u64) as u8 == base256_digit(x as int, 2),
        (x >> 8u64) as u8 == base256_digit(x as int, 1),
        x as u8 == base256_digit(x as int, 0),
{
    lemma_pow256_values();
    assert((x >> 56u64) as u8 == ((x / 0x100_0000_0000_0000) % 256) as u8 && (x >> 48u64) as u8
        == ((x / 0x1_0000_0000_0000) % 256) as u8 && (x >> 40u64) as u8 == ((x / 0x100_0000_0000)
        % 256) as u8 && (x >> 32u64) as u8 == ((x / 0x1_0000_0000) % 256) as u8) by (bit_vector);
    assert((x >> 24u64) as u8 == ((x / 0x100_0000) % 256) as u8 && (x >> 16u64) as u8 == ((x
        / 0x1_0000) % 256) as u8 && (x >> 8u64) as u8 == ((x / 0x100) % 256) as u8 && x as u8 == (x
        % 256) as u8) by (bit_vector);
}

/// The chaining value after `n` blocks depends on the first `64 n` bytes
/// only.
pub proof fn lemma_chain_reads_prefix(a: Seq<u8>, b: Seq<u8>, n: int)
    requires
        0 <= n,
        64 * n <= a.len(),
        64 * n <= b.len(),
        forall|i: int| 0 <= i < 64 * n ==> a[i] == b[i],
    ensures
        chain(a, n) == chain(b, n),
    decreases n,
{
    if n > 0 {
        lemma_chain_reads_prefix(a, b, n - 1);
        assert(block_at(a, n - 1) =~= block_at(b, n - 1));
    }
}

/// The zero fill brings the padded length to the next multiple of 64 that
/// leaves room for the marker and the length field.
pub proof fn lemma_zero_fill(len: nat)
    ensures
        len % 64 < 56 ==> zero_fill(len) == 55 - len % 64,
        len % 64 >= 56 ==> zero_fill(len) == 119 - len % 64,
        (len + 1 + zero_fill(len) + 8) % 64 == 0,
{
    let r = len % 64;
    let q = len / 64;
    assert(len == 64 * q + r);
    if r < 56 {
        assert(zero_fill(len) == 55 - r);
        assert(len + 1 + zero_fill(len) + 8 == 64 * (q + 1));
    } else {
        assert(zero_fill(len) == 119 - r);
        assert(len + 1 + zero_fill(len) + 8 == 64 * (q + 2));
    }
}

/// The padded message starts with the message itself, and is a whole
/// number of blocks long.
pub proof fn lemma_padded_keeps_message(msg: Seq<u8>)
    ensures
        padded(msg).len() == msg.len() + 1 + zero_fill(msg.len()) + 8,
        padded(msg).len() % 64 == 0,
        forall|i: int| 0 <= i < msg.len() ==> padded(msg)[i] == msg[i],
{
    lemma_zero_fill(msg.len());
}

/// Where the last block of the message leaves room for the marker and the
/// length field, the padding adds nothing but the rest of that block.
pub proof fn lemma_padded_one_block(msg: Seq<u8>)
    requires
        msg.len() % 64 < 56,
    ensures
        padded(msg).len() == 64 * (msg.len() / 64) + 64,
        forall|i: int|
            0 <= i < 64 ==> #[trigger] padded(msg)[64 * (msg.len() as int / 64) + i] == (if i
                < msg.len() % 64 {
                msg[64 * (msg.len() as int / 64) + i]
            } else if i == msg.len() % 64 {
                0x80u8
            } else if i < 56 {
                0u8
            } else {
                length_field(msg.len())[i - 56]
            }),
{
    lemma_zero_fill(msg.len());
}

/// Where the last block of the message is too full for the length field,
/// the padding fills that block with the marker and zeros and adds one
/// more block: 56 zeros and the length field.
pub proof fn lemma_padded_two_blocks(msg: Seq<u8>)
    requires
        msg.len() % 64 >= 56,
    ensures
        padded(msg).len() == 64 * (msg.len() / 64) + 128,
        forall|i: int|
            0 <= i < 64 ==> #[trigger] padded(msg)[64 * (msg.len() as int / 64) + i] == (if i
                < msg.len() % 64 {
                msg[64 * (msg.len() as int / 64) + i]
            } else if i == msg.len() % 64 {
                0x80u8
            } else {
                0u8
            }),
        forall|i: int|
            0 <= i < 64 ==> #[trigger] padded(msg)[64 * (msg.len() as int / 64) + 64 + i] == (if i
                < 56 {
                0u8
            } else {
                length_field(msg.len())[i - 56]
            }),
{
    lemma_zero_fill(msg.len());
}

/// Adding the bits of the buffered bytes to the count of the compressed
/// bits gives the length of the message in bits, modulo 2^64.
pub proof fn lemma_bit_count(len: nat, compressed: u64, total: u64)
    requires
        compressed as int == (512 * (len as int / 64)) % 0x1_0000_0000_0000_0000,
        total == compressed.wrapping_add(((len % 64) * 8) as u64),
    ensures
        total as int == (8 * len) % 0x1_0000_0000_0000_0000,
{
    let n = len as int / 64;
    let r = len as int % 64;
    assert(8 * len == 512 * n + 8 * r);
}

/// The block that ends a message whose last block had room for the
/// padding: the rest of the message, the marker, zeros up to byte 56 and
/// the length field.
pub proof fn lemma_last_block(msg: Seq<u8>, block: Seq<u8>)
    requires
        msg.len() % 64 < 56,
        block.len() == 64,
        forall|j: int|
            0 <= j < msg.len() % 64 ==> block[j] == msg[64 * (msg.len() as int / 64) + j],
        block[msg.len() as int % 64] == 0x80,
        forall|j: int| msg.len() % 64 < j < 56 ==> block[j] == 0,
        forall|t: int| 0 <= t < 8 ==> block[56 + t] == #[trigger] length_field(msg.len())[t],
    ensures
        padded(msg).len() == 64 * (msg.len() / 64) + 64,
        block == block_at(padded(msg), msg.len() as int / 64),
{
    lemma_padded_one_block(msg);
    let n = msg.len() as int / 64;
    let target = block_at(padded(msg), n);
    assert forall|i: int| 0 <= i < 64 implies block[i] == target[i] by {
        assert(target[i] == padded(msg)[64 * n + i]);
        if i >= 56 {
            assert(block[56 + (i - 56)] == length_field(msg.len())[i - 56]);
        }
    }
    assert(block =~= target);
}

/// The two blocks that end a message whose last block had no room for the
/// length field.
pub proof fn lemma_last_two_blocks(msg: Seq<u8>, first: Seq<u8>, second: Seq<u8>)
    requires
        msg.len() % 64 >= 56,
        first.len() == 64,
        second.len() == 64,
        forall|j: int|
            0 <= j < msg.len() % 64 ==> first[j] == msg[64 * (msg.len() as int / 64) + j],
        first[msg.len() as int % 64] == 0x80,
        forall|j: int| msg.len() % 64 < j < 64 ==> first[j] == 0,
        forall|j: int| 0 <= j < 56 ==> second[j] == 0,
        forall|t: int| 0 <= t < 8 ==> second[56 + t] == #[trigger] length_field(msg.len())[t],
    ensures
        padded(msg).len() == 64 * (msg.len() / 64) + 128,
        first == block_at(padded(msg), msg.len() as int / 64),
        second == block_at(padded(msg), msg.len() as int / 64 + 1),
{
    lemma_padded_two_blocks(msg);
    let n = msg.len() as int / 64;
    let one = block_at(padded(msg), n);
    let two = block_at(padded(msg), n + 1);
    assert forall|i: int| 0 <= i < 64 implies first[i] == one[i] by {
        assert(one[i] == padded(msg)[64 * n + i]);
    }
    assert forall|i: int| 0 <= i < 64 implies second[i] == two[i] by {
        assert(two[i] == padded(msg)[64 * n + 64 + i]);
        if i >= 56 {
            assert(second[56 + (i - 56)] == length_field(msg.len())[i - 56]);
        }
    }
    assert(first =~= one);
    assert(second =~= two);
}

/// A context that has seen nothing is what the empty message leaves
/// behind.
pub proof fn lemma_started_is_genuine()
    ensures
        genuine(started(), Seq::<u8>::empty()),
{
}

/// One more byte in the context is one more byte of the message.
pub proof fn lemma_push_keeps_genuine(p: Progress, msg: Seq<u8>, byte: u8)
    requires
        genuine(p, msg),
    ensures
        genuine(push_byte(p, byte), msg.push(byte)),
{
    let grown = msg.push(byte);
    let n = msg.len() as int / 64;
    let q = push_byte(p, byte);
    assert(msg.len() == 64 * n + p.buffered);
    lemma_chain_reads_prefix(grown, msg, n);
    assert(forall|i: int| 0 <= i <= p.buffered ==> q.buffer[i] == grown[64 * n + i]);
    if p.buffered + 1 == 64 {
        assert(q.buffer =~= block_at(grown, n));
        assert(grown.len() as int / 64 == n + 1);
        assert(chain(grown, n + 1) == compress(chain(grown, n), block_at(grown, n)));
    } else {
        assert(grown.len() as int / 64 == n);
    }
}

/// Feeding bytes to the context appends them to the message.
pub proof fn lemma_feed_keeps_genuine(p: Progress, msg: Seq<u8>, bytes: Seq<u8>)
    requires
        genuine(p, msg),
    ensures
        genuine(feed(p, bytes), msg + bytes),
    decreases bytes.len(),
{
    if bytes.len() == 0 {
        assert(msg + bytes =~= msg);
    } else {
        lemma_feed_keeps_genuine(p, msg, bytes.drop_last());
        lemma_push_keeps_genuine(feed(p, bytes.drop_last()), msg + bytes.drop_last(), bytes.last());
        assert((msg + bytes.drop_last()).push(bytes.last()) =~= msg + bytes);
    }
}

/// Feeding two pieces one after the other is feeding them joined.
pub proof fn lemma_feed_joins(p: Progress, first: Seq<u8>, second: Seq<u8>)
    ensures
        feed(feed(p, first), second) == feed(p, first + second),
    decreases second.len(),
{
    if second.len() == 0 {
        assert(first + second =~= first);
    } else {
        lemma_feed_joins(p, first, second.drop_last());
        assert((first + second).drop_last() =~= first + second.drop_last());
    }
}

/// Closing a context that `msg` left behind compresses the padding of
/// `msg`: the chaining value is that of the whole padded message, the
/// buffer is its last block, and the bit count is the length of `msg` in
/// bits.
pub proof fn lemma_finish_pads(p: Progress, msg: Seq<u8>)
    requires
        genuine(p, msg),
    ensures
        finish(p).chaining == chain(padded(msg), padded(msg).len() as int / 64),
        finish(p).buffer == block_at(padded(msg), padded(msg).len() as int / 64 - 1),
        finish(p).bit_count as int == (8 * msg.len()) % 0x1_0000_0000_0000_0000,
        digest_of(p) == sha256(msg),
{
    let n = msg.len() as int / 64;
    let full = padded(msg);
    let bits = total_bits(p);
    lemma_bit_count(msg.len(), p.bit_count, bits);
    lemma_padded_keeps_message(msg);
    lemma_chain_reads_prefix(full, msg, n);
    assert(count_field(bits) == length_field(msg.len()));
    let marked = p.buffer.subrange(0, p.buffered as int).push(0x80u8);
    if p.buffered < 56 {
        let block = marked + zeros((55 - p.buffered) as nat) + count_field(bits);
        lemma_last_block(msg, block);
        assert(chain(full, n + 1) == compress(chain(full, n), block_at(full, n)));
    } else {
        let first = marked + zeros((63 - p.buffered) as nat);
        let block = zeros(56) + count_field(bits);
        lemma_last_two_blocks(msg, first, block);
        assert(chain(full, n + 1) == compress(chain(full, n), block_at(full, n)));
        assert(chain(full, n + 2) == compress(chain(full, n + 1), block_at(full, n + 1)));
    }
}

/// Hashing in pieces gives the digest of the whole: a context that was
/// fed the bytes of a message, in whatever pieces, and then closed gives
/// the SHA-256 digest of the message.
pub proof fn law_streaming_is_sha256(msg: Seq<u8>)
    ensures
        digest_of(feed(started(), msg)) == sha256(msg),
{
    lemma_started_is_genuine();
    lemma_feed_keeps_genuine(started(), Seq::<u8>::empty(), msg);
    assert(Seq::<u8>::empty() + msg =~= msg);
    lemma_finish_pads(feed(started(), msg), msg);
}

} // verus!
