use bench_kernels::sha256::hash_nonces;
use bench_kernels::sha256::hash_with_nonce;
use bench_kernels::sha256::Sha256Ctx;

fn hex(bytes: &[u8]) -> String {
    let mut s = String::new();
    for b in bytes {
        s.push_str(&format!("{:02x}", b));
    }
    s
}

fn digest(parts: &[&[u8]]) -> String {
    let mut ctx = Sha256Ctx::new();
    for part in parts {
        ctx.update(part);
    }
    let mut out = [0u8; 32];
    ctx.finalize(&mut out);
    hex(&out)
}

const BASE: &[u8] = b"Computational Benchmarks - Language Performance Lab";

#[test]
fn digest_of_the_empty_message() {
    assert_eq!(
        digest(&[]),
        "e3b0c44298fc1c149afbf4c8996fb92427ae41e4649b934ca495991b7852b855"
    );
}

#[test]
fn digest_of_abc() {
    assert_eq!(
        digest(&[b"abc"]),
        "ba7816bf8f01cfea414140de5dae2223b00361a396177a9cb410ff61f20015ad"
    );
}

#[test]
fn digest_of_the_two_block_test_vector() {
    assert_eq!(
        digest(&[b"abcdbcdecdefdefgefghfghighijhijkijkljklmklmnlmnomnopnopq"]),
        "248d6a61d20638b8e5c026930c3e6039a33ce45964ff2167f6ecedd419db06c1"
    );
}

#[test]
fn digests_around_the_padding_boundary() {
    assert_eq!(
        digest(&[&[b'a'; 55]]),
        "9f4390f8d30c2dd92ec9f095b65e2b9ae9b0a925a5258e241c9f1e910f734318"
    );
    assert_eq!(
        digest(&[&[b'a'; 56]]),
        "b35439a4ac6f0948b6d6f9e3c6af0f5f590ce20f1bde7090ef7970686ec6738a"
    );
    assert_eq!(
        digest(&[&[b'a'; 63]]),
        "7d3e74a05d7db15bce4ad9ec0658ea98e3f06eeecf16b4c6fff2da457ddc2f34"
    );
    assert_eq!(
        digest(&[&[b'a'; 64]]),
        "ffe054fe7ae0cb6dc65c3af9b61d5209f439851db43d0ba5997337df154668eb"
    );
    assert_eq!(
        digest(&[&[b'a'; 119]]),
        "31eba51c313a5c08226adf18d4a359cfdfd8d2e816b13f4af952f7ea6584dcfb"
    );
    assert_eq!(
        digest(&[&[b'a'; 120]]),
        "2f3d335432c70b580af0e8e1b3674a7c020d683aa5f73aaaedfdc55af904c21c"
    );
}

#[test]
fn digest_of_a_thousand_bytes() {
    assert_eq!(
        digest(&[&[b'a'; 1000]]),
        "41edece42d63e8d9bf515a9ba6932e1c20cbc9f5a5d134645adb5db1b9737ea3"
    );
}

#[test]
fn digest_does_not_depend_on_how_the_message_is_cut() {
    let whole = [b'a'; 1000];
    let expected = "41edece42d63e8d9bf515a9ba6932e1c20cbc9f5a5d134645adb5db1b9737ea3";
    for cut in [0usize, 1, 55, 56, 63, 64, 65, 128, 500, 999, 1000] {
        assert_eq!(digest(&[&whole[..cut], &whole[cut..]]), expected);
    }
    let mut ctx = Sha256Ctx::new();
    for byte in whole.iter() {
        ctx.update(&[*byte]);
    }
    let mut out = [0u8; 32];
    ctx.finalize(&mut out);
    assert_eq!(hex(&out), expected);
}

#[test]
fn fresh_context_holds_the_initial_state() {
    let ctx = Sha256Ctx::new();
    assert_eq!(
        ctx.state(),
        [
            0x6a09e667, 0xbb67ae85, 0x3c6ef372, 0xa54ff53a, 0x510e527f, 0x9b05688c, 0x1f83d9ab,
            0x5be0cd19
        ]
    );
}

#[test]
fn transform_compresses_the_block_buffer() {
    // A fresh context holds a block of zeros.
    let mut ctx = Sha256Ctx::new();
    ctx.transform();
    assert_eq!(
        ctx.state(),
        [
            0xda5698be, 0x17b9b469, 0x62335799, 0x779fbeca, 0x8ce5d491, 0xc0d26243, 0xbafef9ea,
            0x1837a9d8
        ]
    );
    // Closing the empty message now pads a block behind the zeros.
    let mut out = [0u8; 32];
    ctx.finalize(&mut out);
    assert_eq!(
        hex(&out),
        "c18f6586ccbca7edcfbd28e8ef80bdf994b95c0db675e24221a473a304e3e747"
    );
}

#[test]
fn update_compresses_each_full_block() {
    let mut ctx = Sha256Ctx::new();
    ctx.update(&[0u8; 63]);
    assert_eq!(ctx.state()[0], 0x6a09e667);
    ctx.update(&[0u8; 1]);
    assert_eq!(ctx.state()[0], 0xda5698be);
    assert_eq!(ctx.state()[7], 0x1837a9d8);
}

#[test]
fn finalize_leaves_the_digest_in_the_state() {
    let mut ctx = Sha256Ctx::new();
    ctx.update(b"abc");
    let mut out = [0u8; 32];
    ctx.finalize(&mut out);
    assert_eq!(ctx.state()[0], 0xba7816bf);
    assert_eq!(ctx.state()[7], 0xf20015ad);
}

#[test]
fn digest_of_the_benchmark_message_with_nonces() {
    assert_eq!(BASE.len(), 51);
    assert_eq!(
        hex(&hash_with_nonce(BASE, 0)),
        "332b98afdae5788282d44413359f654e0596ccb342f41545113e1fd8a222bd39"
    );
    assert_eq!(
        hex(&hash_with_nonce(BASE, 0x01020304)),
        "c8242733a23532825982202d803c0b60974c9023f2f739af4a3ec38b0ba2175e"
    );
    assert_eq!(
        hex(&hash_with_nonce(BASE, 999_999)),
        "0c8b1d734f86267071940844faf8e537ca6d3778a48affc690d642922d49670d"
    );
    assert_eq!(
        hex(&hash_with_nonce(BASE, u32::MAX)),
        "cc24e818ad4ad34a71e3fd5ac240ab87dc94ba5ff72c743b9b24c8dad965a589"
    );
    assert_eq!(digest(&[BASE, &[0, 0, 0, 255]]), hex(&hash_with_nonce(BASE, 255)));
    assert_eq!(
        hex(&hash_with_nonce(BASE, 256)),
        "684c9e2dc9e9b7fbe559eb3c0365933a73aff17b30eab83899059f7ac5868483"
    );
}

#[test]
fn hashing_a_run_of_nonces_gives_the_last_digest() {
    assert_eq!(hash_nonces(BASE, 0), [0u8; 32]);
    assert_eq!(
        hex(&hash_nonces(BASE, 1)),
        "332b98afdae5788282d44413359f654e0596ccb342f41545113e1fd8a222bd39"
    );
    assert_eq!(
        hex(&hash_nonces(BASE, 3)),
        "56787b40348645be50e834d9f60942a3f15b98dbc8d0d11288b4cce582217247"
    );
    assert_eq!(
        hex(&hash_nonces(BASE, 256)),
        "43cc4ff756a79d44bc68c5eaaf6eb7bfbc89643d886d1e63a1e4744712b53aa9"
    );
}
