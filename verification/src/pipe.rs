//! The arithmetic of the pipe throughput test: the byte pattern that the
//! writer sends and the checksum that the reader keeps.

use vstd::prelude::*;

verus! {

/// The number of bytes that the writer sends in all: 10 GiB.
pub const TOTAL_BYTES: u64 = 10 * 1024 * 1024 * 1024;

/// The number of bytes in one write and in one read: 64 KiB.
pub const BUFFER_SIZE: usize = 64 * 1024;

/// The exclusive-or of all bytes of `bytes`.
pub open spec fn xor_of(bytes: Seq<u8>) -> u8
    decreases bytes.len(),
{
    if bytes.len() == 0 {
        0
    } else {
        xor_of(bytes.drop_last()) ^ bytes.last()
    }
}

/// The buffer that the writer sends over and over: byte `i` is `i` modulo
/// 256.
pub fn pattern(len: usize) -> (buffer: Vec<u8>)
    ensures
        buffer.len() == len,
        forall|i: int| 0 <= i < len ==> buffer[i] == i % 256,
{
    let mut buffer: Vec<u8> = Vec::new();
    let mut i: usize = 0;
    while i < len
        invariant
            i <= len,
            buffer.len() == i,
            forall|j: int| 0 <= j < i ==> buffer[j] == j % 256,
        decreases len - i,
    {
        assert(i as u8 == i % 256) by (bit_vector);
        buffer.push(i as u8);
        i += 1;
    }
    buffer
}

/// The checksum after the reader has received `bytes`: the checksum so
/// far, exclusive-or every byte received.
pub fn fold_xor(checksum: u8, bytes: &[u8]) -> (folded: u8)
    ensures
        folded == checksum ^ xor_of(bytes@),
{
    let mut folded = checksum;
    assert(checksum ^ 0 == checksum) by (bit_vector);
    assert(bytes@.subrange(0, 0) =~= Seq::<u8>::empty());
    for i in 0..bytes.len()
        invariant
            folded == checksum ^ xor_of(bytes@.subrange(0, i as int)),
    {
        let ghost seen = bytes@.subrange(0, i as int);
        let ghost more = bytes@.subrange(0, i as int + 1);
        assert(more.drop_last() =~= seen);
        let ghost a = xor_of(seen);
        let b = bytes[i];
        assert((checksum ^ a) ^ b == checksum ^ (a ^ b)) by (bit_vector);
        folded ^= bytes[i];
    }
    assert(bytes@.subrange(0, bytes.len() as int) =~= bytes@);
    folded
}

} // verus!
