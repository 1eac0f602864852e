use tfhe::core_crypto::prelude::{
    decrypt_glwe_ciphertext, ContiguousEntityContainer, CiphertextModulus, GlweCiphertext, GlweSecretKey, PlaintextCount,
    PlaintextList, PolynomialSize,
};

use fhe_aes::fhe::{
    generate_vec_keyed_lut_accumulator, glwe_key_from_coeffs, glwe_to_coeffs,
    known_rotate_keyed_lut, lwe_to_coeffs,
};

fn binary_key(len: usize) -> Vec<u64> {
    let mut seed: u64 = 0x0123_4567_89ab_cdef;
    (0..len)
        .map(|_| {
            seed = seed.wrapping_mul(6364136223846793005).wrapping_add(1442695040888963407);
            (seed >> 63) & 1
        })
        .collect()
}

fn block_tables() -> Vec<Vec<u8>> {
    (0u16..16)
        .map(|j| {
            (0..256)
                .map(|x| (x as u8).wrapping_mul(2 * j as u8 + 7).wrapping_add(j as u8))
                .collect()
        })
        .collect()
}

/// Rounding decode of the bit packed at plane `lut_idx`.
fn decode_plane(raw: u64, lut_idx: u32) -> u64 {
    let scale = 63 - lut_idx;
    let rounding = (raw & (1u64 << (scale - 1))) << 1;
    (raw.wrapping_add(rounding) >> scale) & 1
}

#[test]
fn secret_accumulators_decrypt_to_packed_tables() {
    // The secret mode of the keyed accumulator builder: every
    // accumulator's mask is nonzero-random, yet decrypting under the
    // same key returns the packed table coefficients up to noise within
    // the stated band, and decoding each coefficient at its plane scale
    // recovers exactly the packed table bits.
    let poly_size: usize = 256;
    let key_coeffs = binary_key(poly_size);
    let gkey = glwe_key_from_coeffs(&key_coeffs, poly_size);
    let tables = block_tables();
    let accs = generate_vec_keyed_lut_accumulator(&tables, 63, &gkey, 6, poly_size);
    assert_eq!(accs.len(), 16);

    let glwe_sk = GlweSecretKey::from_container(key_coeffs.clone(), PolynomialSize(poly_size));
    let mut saw_nonzero_mask = false;
    for j in 0..16usize {
        assert_eq!(accs[j].len(), 8);
        for a in 0..8usize {
            let data = glwe_to_coeffs(&accs[j][a]);
            saw_nonzero_mask = saw_nonzero_mask || data[..poly_size].iter().any(|&c| c != 0);
            let ct = GlweCiphertext::from_container(
                data,
                PolynomialSize(poly_size),
                CiphertextModulus::new_native(),
            );
            let mut pt = PlaintextList::new(0u64, PlaintextCount(poly_size));
            decrypt_glwe_ciphertext(&glwe_sk, &ct, &mut pt);
            let bound = 1u64 << 6;
            for i in 0..poly_size {
                let expected_bit = ((tables[j][i] >> a) & 1) as u64;
                let packed = expected_bit << (63 - a);
                let noise = (*pt.get(i).0).wrapping_sub(packed);
                assert!(noise <= bound || noise >= 0u64.wrapping_sub(bound));
                assert_eq!(decode_plane(*pt.get(i).0, a as u32), expected_bit);
            }
        }
    }
    assert!(saw_nonzero_mask);
}

#[test]
fn known_rotate_on_secret_accumulators_decrypts_correctly() {
    // The entry-round lookup over secret-encrypted accumulators:
    // extracting the packed planes at the public input bytes and
    // decrypting under the same key yields the keyed table entries.
    let poly_size: usize = 256;
    let key_coeffs = binary_key(poly_size);
    let gkey = glwe_key_from_coeffs(&key_coeffs, poly_size);
    let tables = block_tables();
    let accs = generate_vec_keyed_lut_accumulator(&tables, 63, &gkey, 6, poly_size);
    let input: Vec<u8> = (0u8..16).map(|i| i.wrapping_mul(83).wrapping_add(29)).collect();

    let out = known_rotate_keyed_lut(&input, &accs, poly_size);
    assert_eq!(out.len(), 128);
    for j in 0..16usize {
        let mut byte: u8 = 0;
        for b in 0..8usize {
            let coeffs = lwe_to_coeffs(&out[8 * j + b]);
            let mut dot: u64 = 0;
            for (a, s) in coeffs[..coeffs.len() - 1].iter().zip(key_coeffs.iter()) {
                dot = dot.wrapping_add(a.wrapping_mul(*s));
            }
            let raw = coeffs[coeffs.len() - 1].wrapping_sub(dot);
            byte |= (decode_plane(raw, b as u32) as u8) << b;
        }
        assert_eq!(byte, tables[j][input[j] as usize]);
    }
}
