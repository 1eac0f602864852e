use aes::cipher::{Array, BlockCipherDecrypt, KeyInit};
use fhe_aes::keys::expand_key;
use fhe_aes::pipeline::transcipher_with_round_keys;
use fhe_aes::state::post_process;
use fhe_aes::workload::decode_bit_list;

fn gf_mul_ref(mut a: u8, mut b: u8) -> u8 {
    let mut r: u8 = 0;
    while b != 0 {
        if b & 1 != 0 {
            r ^= a;
        }
        let hi = a & 0x80;
        a <<= 1;
        if hi != 0 {
            a ^= 0x1b;
        }
        b >>= 1;
    }
    r
}

fn gf_inv_ref(a: u8) -> u8 {
    if a == 0 {
        return 0;
    }
    // a^254 in GF(2^8)
    let mut r: u8 = 1;
    let mut base = a;
    let mut e = 254u32;
    while e > 0 {
        if e & 1 == 1 {
            r = gf_mul_ref(r, base);
        }
        base = gf_mul_ref(base, base);
        e >>= 1;
    }
    r
}

pub fn build_sbox() -> Vec<u8> {
    let mut sbox = vec![0u8; 256];
    for x in 0..256usize {
        let b = gf_inv_ref(x as u8);
        let s = b
            ^ b.rotate_left(1)
            ^ b.rotate_left(2)
            ^ b.rotate_left(3)
            ^ b.rotate_left(4)
            ^ 0x63;
        sbox[x] = s;
    }
    sbox
}

pub fn build_inv_sbox() -> Vec<u8> {
    let sbox = build_sbox();
    let mut inv = vec![0u8; 256];
    for x in 0..256usize {
        inv[sbox[x] as usize] = x as u8;
    }
    inv
}

fn reference_decrypt(block: &[u8; 16], key: &[u8; 16]) -> [u8; 16] {
    let cipher = aes::Aes128::new(&Array(*key));
    let mut b = Array(*block);
    cipher.decrypt_block(&mut b);
    b.0
}

fn run_pipeline(ct: [u8; 16], key: [u8; 16], poly_size: usize) -> [u8; 16] {
    let sbox = build_sbox();
    let inv_sbox = build_inv_sbox();
    let rks = expand_key(&key.to_vec(), &sbox);
    let out = transcipher_with_round_keys(&ct.to_vec(), &inv_sbox, &rks, poly_size);
    let decoded = decode_bit_list(&out);
    post_process(&decoded)
}

#[test]
fn sbox_construction_matches_known_entries() {
    let sbox = build_sbox();
    let inv = build_inv_sbox();
    assert_eq!(sbox[0x00], 0x63);
    assert_eq!(sbox[0x01], 0x7c);
    assert_eq!(sbox[0x53], 0xed);
    assert_eq!(inv[0x00], 0x52);
    assert_eq!(inv[0x63], 0x00);
}

#[test]
fn key_expansion_matches_known_schedule() {
    let sbox = build_sbox();
    let key: Vec<u8> = (0u8..16).collect();
    let rks = expand_key(&key, &sbox);
    assert_eq!(rks.len(), 11);
    assert_eq!(rks[0], key);
    let rk1: [u8; 16] = [
        0xd6, 0xaa, 0x74, 0xfd, 0xd2, 0xaf, 0x72, 0xfa, 0xda, 0xa6, 0x78, 0xf1, 0xd6, 0xab, 0x76,
        0xfe,
    ];
    assert_eq!(rks[1], rk1.to_vec());
    let rk10: [u8; 16] = [
        0x13, 0x11, 0x1d, 0x7f, 0xe3, 0x94, 0x4a, 0x17, 0xf3, 0x07, 0xa7, 0x8b, 0x4d, 0x2b, 0x30,
        0xc5,
    ];
    assert_eq!(rks[10], rk10.to_vec());
}

#[test]
fn round_trip_known_vector() {
    // The standard AES-128 example vector: decrypting the known
    // ciphertext must restore the known plaintext.
    let key: [u8; 16] = [
        0x00, 0x01, 0x02, 0x03, 0x04, 0x05, 0x06, 0x07, 0x08, 0x09, 0x0a, 0x0b, 0x0c, 0x0d, 0x0e,
        0x0f,
    ];
    let ct: [u8; 16] = [
        0x69, 0xc4, 0xe0, 0xd8, 0x6a, 0x7b, 0x04, 0x30, 0xd8, 0xcd, 0xb7, 0x80, 0x70, 0xb4, 0xc5,
        0x5a,
    ];
    let pt: [u8; 16] = [
        0x00, 0x11, 0x22, 0x33, 0x44, 0x55, 0x66, 0x77, 0x88, 0x99, 0xaa, 0xbb, 0xcc, 0xdd, 0xee,
        0xff,
    ];
    let got = run_pipeline(ct, key, 2048);
    assert_eq!(got, pt);
    assert_eq!(reference_decrypt(&ct, &key), pt);
}

#[test]
fn round_trip_matches_reference_cipher() {
    // The pipeline agrees with an independent AES implementation on
    // further blocks and keys, at both supported ring degrees.
    let mut key = [0u8; 16];
    let mut ct = [0u8; 16];
    let mut seed: u64 = 0x1234_5678_9abc_def0;
    for round in 0..2 {
        for i in 0..16 {
            seed = seed.wrapping_mul(6364136223846793005).wrapping_add(1442695040888963407);
            key[i] = (seed >> 33) as u8;
            seed = seed.wrapping_mul(6364136223846793005).wrapping_add(1442695040888963407);
            ct[i] = (seed >> 29) as u8;
        }
        let expected = reference_decrypt(&ct, &key);
        let poly = if round == 0 { 2048 } else { 256 };
        assert_eq!(run_pipeline(ct, key, poly), expected);
    }
}
