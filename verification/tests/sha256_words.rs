use bench_kernels::sha256::ch;
use bench_kernels::sha256::ep0;
use bench_kernels::sha256::ep1;
use bench_kernels::sha256::maj;
use bench_kernels::sha256::rotr;
use bench_kernels::sha256::sig0;
use bench_kernels::sha256::sig1;

#[test]
fn rotr_moves_low_bits_to_the_top() {
    assert_eq!(rotr(0x12345678, 8), 0x78123456);
    assert_eq!(rotr(1, 1), 0x80000000);
    assert_eq!(rotr(0x12345678, 31), 0x2468acf0);
    assert_eq!(rotr(0xffffffff, 13), 0xffffffff);
    assert_eq!(rotr(0, 7), 0);
}

#[test]
fn ch_picks_by_the_first_word() {
    assert_eq!(ch(0xf0f0f0f0, 0x12345678, 0x9abcdef0), 0x1a3c5e70);
    assert_eq!(ch(0xffffffff, 0x12345678, 0x9abcdef0), 0x12345678);
    assert_eq!(ch(0, 0x12345678, 0x9abcdef0), 0x9abcdef0);
}

#[test]
fn maj_takes_the_majority_bit() {
    assert_eq!(maj(0xf0f0f0f0, 0x12345678, 0x9abcdef0), 0x92b4d6f0);
    assert_eq!(maj(0xffffffff, 0, 0xffffffff), 0xffffffff);
    assert_eq!(maj(0xffffffff, 0, 0), 0);
}

#[test]
fn sigma_functions_on_a_known_word() {
    assert_eq!(ep0(0x12345678), 0x66146474);
    assert_eq!(ep1(0x12345678), 0x3561abda);
    assert_eq!(sig0(0x12345678), 0xe7fce6ee);
    assert_eq!(sig1(0x12345678), 0xa1f78649);
    assert_eq!(ep0(0), 0);
    assert_eq!(sig1(0), 0);
}
