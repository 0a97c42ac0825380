//! A streaming SHA-256 context.
//!
//! [`math`] defines the digest of a byte string, [`stream`] what a context
//! holds while a message passes through it, and [`lemmas`] proves that
//! hashing a message in pieces gives its digest.

use vstd::prelude::*;

pub mod lemmas;
pub mod math;
pub mod stream;

use crate::sha256::lemmas::law_streaming_is_sha256;
use crate::sha256::lemmas::lemma_count_digits;
use crate::sha256::lemmas::lemma_feed_joins;
use crate::sha256::lemmas::lemma_word_digits;
use crate::sha256::math::base256_digit;
use crate::sha256::math::big_sigma0;
use crate::sha256::math::big_sigma1;
use crate::sha256::math::choice;
use crate::sha256::math::compress;
use crate::sha256::math::count_field;
use crate::sha256::math::digest_bytes;
use crate::sha256::math::majority;
use crate::sha256::math::registers_of;
use crate::sha256::math::rotate_right;
use crate::sha256::math::rounds;
use crate::sha256::math::schedule_word;
use crate::sha256::math::sha256;
use crate::sha256::math::small_sigma0;
use crate::sha256::math::small_sigma1;
use crate::sha256::math::zeros;
use crate::sha256::math::INITIAL_STATE;
use crate::sha256::math::ROUND_CONSTANTS;
use crate::sha256::math::Registers;
use crate::sha256::stream::digest_of;
use crate::sha256::stream::feed;
use crate::sha256::stream::finish;
use crate::sha256::stream::started;
use crate::sha256::stream::total_bits;
use crate::sha256::stream::Progress;

verus! {

/// Rotates `x` right by `n` bits.
pub fn rotr(x: u32, n: u32) -> (r: u32)
    requires
        0 < n < 32,
    ensures
        r == rotate_right(x, n),
{
    (x >> n) | (x << (32 - n))
}

/// Picks each bit from `y` or `z` as the bit of `x` says.
pub fn ch(x: u32, y: u32, z: u32) -> (r: u32)
    ensures
        r == choice(x, y, z),
{
    (x & y) ^ (!x & z)
}

/// The bitwise majority of `x`, `y` and `z`.
pub fn maj(x: u32, y: u32, z: u32) -> (r: u32)
    ensures
        r == majority(x, y, z),
{
    (x & y) ^ (x & z) ^ (y & z)
}

/// The upper-case sigma-zero.
pub fn ep0(x: u32) -> (r: u32)
    ensures
        r == big_sigma0(x),
{
    rotr(x, 2) ^ rotr(x, 13) ^ rotr(x, 22)
}

/// The upper-case sigma-one.
pub fn ep1(x: u32) -> (r: u32)
    ensures
        r == big_sigma1(x),
{
    rotr(x, 6) ^ rotr(x, 11) ^ rotr(x, 25)
}

/// The lower-case sigma-zero.
pub fn sig0(x: u32) -> (r: u32)
    ensures
        r == small_sigma0(x),
{
    rotr(x, 7) ^ rotr(x, 18) ^ (x >> 3)
}

/// The lower-case sigma-one.
pub fn sig1(x: u32) -> (r: u32)
    ensures
        r == small_sigma1(x),
{
    rotr(x, 17) ^ rotr(x, 19) ^ (x >> 10)
}

/// Packing four bytes with shifts gives the word with those big-endian
/// bytes.
proof fn lemma_pack_word(b0: u8, b1: u8, b2: u8, b3: u8)
    by (bit_vector)
    ensures
        ((b0 as u32) << 24) | ((b1 as u32) << 16) | ((b2 as u32) << 8) | (b3 as u32) == (b0
            * 0x100_0000 + b1 * 0x1_0000 + b2 * 0x100 + b3) as u32,
{
}

/// A hashing context: the chaining value, the bytes of the block being
/// filled, and the count of bits already compressed.
pub struct Sha256Ctx {
    data: [u8; 64],
    datalen: usize,
    bitlen: u64,
    state: [u32; 8],
}

impl Sha256Ctx {
    #[verifier::type_invariant]
    spec fn buffer_has_room(&self) -> bool {
        self.datalen < 64
    }

    /// What the context holds.
    pub closed spec fn progress(&self) -> Progress {
        Progress {
            chaining: self.state@,
            buffer: self.data@,
            buffered: self.datalen as nat,
            bit_count: self.bitlen,
        }
    }

    /// A context that has absorbed nothing yet.
    pub fn new() -> (ctx: Self)
        ensures
            ctx.progress() == started(),
    {
        let ctx = Sha256Ctx { data: [0u8; 64], datalen: 0, bitlen: 0, state: INITIAL_STATE };
        assert(ctx.data@ =~= zeros(64));
        ctx
    }

    /// The chaining value.
    pub fn state(&self) -> (words: [u32; 8])
        ensures
            words@ == self.progress().chaining,
    {
        self.state
    }

    /// Compresses the block buffer into the chaining value. Nothing else
    /// changes.
    pub fn transform(&mut self)
        ensures
            final(self).progress() == (Progress {
                chaining: compress(old(self).progress().chaining, old(self).progress().buffer),
                ..old(self).progress()
            }),
    {
        proof {
            use_type_invariant(&*self);
        }
        let ghost block = self.data@;
        let ghost start = registers_of(self.state@);
        let mut m = [0u32; 64];

        for i in 0..16
            invariant
                self.data@ == block,
                forall|j: int| 0 <= j < i ==> m[j] == schedule_word(block, j),
        {
            proof {
                let t = i as int;
                lemma_pack_word(block[4 * t], block[4 * t + 1], block[4 * t + 2], block[4 * t + 3]);
            }
            m[i] = ((self.data[i * 4] as u32) << 24) | ((self.data[i * 4 + 1] as u32) << 16) | ((
            self.data[i * 4 + 2] as u32) << 8) | (self.data[i * 4 + 3] as u32);
        }

        for i in 16..64
            invariant
                forall|j: int| 0 <= j < i ==> m[j] == schedule_word(block, j),
        {
            let ghost t = i as int;
            assert(m[t - 2] == schedule_word(block, t - 2));
            assert(m[t - 7] == schedule_word(block, t - 7));
            assert(m[t - 15] == schedule_word(block, t - 15));
            assert(m[t - 16] == schedule_word(block, t - 16));
            m[i] = sig1(m[i - 2]).wrapping_add(m[i - 7]).wrapping_add(sig0(m[i - 15])).wrapping_add(
                m[i - 16],
            );
            assert(m[t] == schedule_word(block, t));
        }

        let mut a = self.state[0];
        let mut b = self.state[1];
        let mut c = self.state[2];
        let mut d = self.state[3];
        let mut e = self.state[4];
        let mut f = self.state[5];
        let mut g = self.state[6];
        let mut h = self.state[7];

        for i in 0..64
            invariant
                forall|j: int| 0 <= j < 64 ==> m[j] == schedule_word(block, j),
                (Registers { a, b, c, d, e, f, g, h }) == rounds(start, block, i as int),
        {
            let t1 = h.wrapping_add(ep1(e)).wrapping_add(ch(e, f, g)).wrapping_add(
                ROUND_CONSTANTS[i],
            ).wrapping_add(m[i]);
            let t2 = ep0(a).wrapping_add(maj(a, b, c));
            h = g;
            g = f;
            f = e;
            e = d.wrapping_add(t1);
            d = c;
            c = b;
            b = a;
            a = t1.wrapping_add(t2);
        }

        self.state[0] = self.state[0].wrapping_add(a);
        self.state[1] = self.state[1].wrapping_add(b);
        self.state[2] = self.state[2].wrapping_add(c);
        self.state[3] = self.state[3].wrapping_add(d);
        self.state[4] = self.state[4].wrapping_add(e);
        self.state[5] = self.state[5].wrapping_add(f);
        self.state[6] = self.state[6].wrapping_add(g);
        self.state[7] = self.state[7].wrapping_add(h);
        assert(self.state@ =~= compress(old(self).state@, block));
    }

    /// Feeds `data` to the context, byte by byte.
    pub fn update(&mut self, data: &[u8])
        ensures
            final(self).progress() == feed(old(self).progress(), data@),
    {
        assert(data@.subrange(0, 0) =~= Seq::<u8>::empty());
        for k in 0..data.len()
            invariant
                self.progress() == feed(old(self).progress(), data@.subrange(0, k as int)),
        {
            proof {
                use_type_invariant(&*self);
                assert(data@.subrange(0, k as int + 1).drop_last() =~= data@.subrange(0, k as int));
            }
            self.data[self.datalen] = data[k];
            if self.datalen == 63 {
                self.transform();
                self.bitlen = self.bitlen.wrapping_add(512);
                self.datalen = 0;
            } else {
                self.datalen += 1;
            }
        }
        assert(data@.subrange(0, data.len() as int) =~= data@);
    }

    /// Closes the message: pads what is buffered, compresses it and writes
    /// the digest to `hash`. The context is left as the padding left it.
    pub fn finalize(&mut self, hash: &mut [u8; 32])
        ensures
            final(hash)@ == digest_of(old(self).progress()),
            final(self).progress() == finish(old(self).progress()),
    {
        proof {
            use_type_invariant(&*self);
        }
        let ghost before = self.progress();
        let fill_to: usize = if self.datalen < 56 {
            56
        } else {
            64
        };
        let mut i = self.datalen;

        self.data[i] = 0x80;
        i += 1;
        while i < fill_to
            invariant
                self.datalen < i <= fill_to <= 64,
                self.data@.len() == 64,
                forall|j: int| 0 <= j < self.datalen ==> self.data@[j] == before.buffer[j],
                self.data@[self.datalen as int] == 0x80,
                forall|j: int| self.datalen < j < i ==> self.data@[j] == 0,
                self.datalen == old(self).datalen,
                self.bitlen == old(self).bitlen,
                self.state == old(self).state,
            decreases fill_to - i,
        {
            self.data[i] = 0x00;
            i += 1;
        }
        let ghost marked = before.buffer.subrange(0, before.buffered as int).push(0x80u8);
        if self.datalen >= 56 {
            assert(self.data@ =~= marked + zeros((63 - before.buffered) as nat));
            self.transform();
            for j in 0..56
                invariant
                    self.data@.len() == 64,
                    forall|t: int| 0 <= t < j ==> self.data@[t] == 0,
                    self.datalen < 64,
                    self.datalen == old(self).datalen,
                    self.bitlen == old(self).bitlen,
                    self.state@ == compress(
                        before.chaining,
                        marked + zeros((63 - before.buffered) as nat),
                    ),
            {
                self.data[j] = 0;
            }
        }

        let ghost head = self.data@;
        self.bitlen = self.bitlen.wrapping_add((self.datalen as u64) * 8);
        proof {
            lemma_count_digits(self.bitlen);
            assert(self.bitlen == total_bits(before));
        }
        self.data[63] = (self.bitlen) as u8;
        self.data[62] = (self.bitlen >> 8) as u8;
        self.data[61] = (self.bitlen >> 16) as u8;
        self.data[60] = (self.bitlen >> 24) as u8;
        self.data[59] = (self.bitlen >> 32) as u8;
        self.data[58] = (self.bitlen >> 40) as u8;
        self.data[57] = (self.bitlen >> 48) as u8;
        self.data[56] = (self.bitlen >> 56) as u8;
        proof {
            let field = count_field(self.bitlen);
            assert(forall|t: int| 0 <= t < 8 ==> self.data@[56 + t] == #[trigger] field[t]);
            assert(forall|j: int| 0 <= j < 56 ==> self.data@[j] == head[j]);
            assert(self.data@ =~= finish(before).buffer);
        }
        self.transform();

        for i in 0..8
            invariant
                hash@.len() == 32,
                forall|t: int| 0 <= t < 4 * i ==> hash@[t] == digest_bytes(self.state@)[t],
                self.progress() == finish(before),
        {
            proof {
                lemma_word_digits(self.state[i as int]);
            }
            hash[i * 4] = (self.state[i] >> 24) as u8;
            hash[i * 4 + 1] = (self.state[i] >> 16) as u8;
            hash[i * 4 + 2] = (self.state[i] >> 8) as u8;
            hash[i * 4 + 3] = self.state[i] as u8;
        }
        assert(hash@ =~= digest_of(before));
    }
}

/// The four bytes of a nonce, most significant first.
pub open spec fn nonce_bytes(nonce: u32) -> Seq<u8> {
    Seq::new(4, |i: int| base256_digit(nonce as int, 3 - i))
}

/// The digest of `message` followed by the four bytes of `nonce`.
pub fn hash_with_nonce(message: &[u8], nonce: u32) -> (hash: [u8; 32])
    ensures
        hash@ == sha256(message@ + nonce_bytes(nonce)),
{
    let mut ctx = Sha256Ctx::new();
    ctx.update(message);
    let tail = [(nonce >> 24) as u8, (nonce >> 16) as u8, (nonce >> 8) as u8, nonce as u8];
    proof {
        lemma_word_digits(nonce);
        assert(tail@ =~= nonce_bytes(nonce));
        lemma_feed_joins(started(), message@, tail@);
        law_streaming_is_sha256(message@ + tail@);
    }
    ctx.update(tail.as_slice());
    let mut hash = [0u8; 32];
    ctx.finalize(&mut hash);
    hash
}

/// Hashes `message` with every nonce below `rounds` in turn and returns
/// the last digest; 32 zero bytes where `rounds` is 0.
pub fn hash_nonces(message: &[u8], rounds: u32) -> (hash: [u8; 32])
    ensures
        rounds > 0 ==> hash@ == sha256(message@ + nonce_bytes((rounds - 1) as u32)),
        rounds == 0 ==> hash@ == zeros(32),
{
    let mut hash = [0u8; 32];
    assert(hash@ =~= zeros(32));
    for nonce in 0..rounds
        invariant
            nonce > 0 ==> hash@ == sha256(message@ + nonce_bytes((nonce - 1) as u32)),
            nonce == 0 ==> hash@ == zeros(32),
    {
        hash = hash_with_nonce(message, nonce);
    }
    hash
}

} // verus!
