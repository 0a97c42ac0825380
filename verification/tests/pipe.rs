use bench_kernels::pipe::fold_xor;
use bench_kernels::pipe::pattern;
use bench_kernels::pipe::BUFFER_SIZE;
use bench_kernels::pipe::TOTAL_BYTES;

#[test]
fn pipe_constants() {
    assert_eq!(TOTAL_BYTES, 10_737_418_240);
    assert_eq!(BUFFER_SIZE, 65_536);
}

#[test]
fn pattern_counts_modulo_256() {
    let buffer = pattern(1000);
    assert_eq!(buffer.len(), 1000);
    for (i, byte) in buffer.iter().enumerate() {
        assert_eq!(*byte as usize, i % 256);
    }
    assert_eq!(buffer[255], 255);
    assert_eq!(buffer[256], 0);
    assert!(pattern(0).is_empty());
}

#[test]
fn fold_xor_of_known_bytes() {
    assert_eq!(fold_xor(0, &[]), 0);
    assert_eq!(fold_xor(0x5a, &[]), 0x5a);
    assert_eq!(fold_xor(0, &[0, 1, 2, 3, 4]), 4);
    assert_eq!(fold_xor(0xff, &[0x0f, 0xf0]), 0);
    assert_eq!(fold_xor(1, &[1]), 0);
}

#[test]
fn fold_xor_of_the_whole_pattern_is_zero() {
    let buffer = pattern(BUFFER_SIZE);
    assert_eq!(fold_xor(0, &buffer), 0);
    assert_eq!(fold_xor(0, &buffer[..1000]), 0);
    assert_eq!(fold_xor(0, &buffer[..5]), 4);
    let first = fold_xor(0x21, &buffer[..700]);
    assert_eq!(fold_xor(first, &buffer[700..]), 0x21);
}
