use tfhe::core_crypto::prelude::{
    allocate_and_generate_new_binary_glwe_secret_key, encrypt_constant_ggsw_ciphertext,
    new_seeder, Cleartext, CiphertextModulus, DecompositionBaseLog, DecompositionLevelCount,
    DefaultRandomGenerator, EncryptionRandomGenerator, Gaussian, GgswCiphertext, GlweDimension,
    GlweSize, PolynomialSize, SecretRandomGenerator,
};

use fhe_aes::fhe::{
    blind_rotate_keyed_sboxes, evaluate_8_to_8_cipher_lut, lwe_from_coeffs, lwe_key_from_coeffs,
    lwe_to_coeffs, max_of_two, trivial_lut_accumulators, GgswSelectors, LweCipher,
};

fn scrambled_table() -> Vec<u8> {
    (0..256).map(|x| (x as u8).wrapping_mul(113).wrapping_add(91)).collect()
}

/// Rounding decode of the packed plane `lut_idx` from a raw decryption.
fn decode_plane(raw: u64, lut_idx: u32) -> u64 {
    let scale = 63 - lut_idx;
    let rounding = (raw & (1u64 << (scale - 1))) << 1;
    (raw.wrapping_add(rounding) >> scale) & 1
}

#[test]
fn blind_rotation_walk_recovers_table_entries() {
    // The online path end to end, with real GGSW selectors: the byte
    // table is packed into trivially encrypted accumulators, the eight
    // bits of the input byte are encrypted as GGSW selectors under a
    // fresh GLWE secret key with zero noise, the verified walk rotates
    // the accumulators homomorphically, and decryption under the
    // equivalent LWE key recovers exactly the table entry.
    let poly_size: usize = 256;
    let glwe_size: usize = 2;
    let base_log: usize = 21;
    let level: usize = 3;

    let mut seeder = new_seeder();
    let seeder = seeder.as_mut();
    let mut secret_generator = SecretRandomGenerator::<DefaultRandomGenerator>::new(seeder.seed());
    let mut encryption_generator =
        EncryptionRandomGenerator::<DefaultRandomGenerator>::new(seeder.seed(), seeder);

    let glwe_sk = allocate_and_generate_new_binary_glwe_secret_key::<u64, _>(
        GlweDimension(glwe_size - 1),
        PolynomialSize(poly_size),
        &mut secret_generator,
    );
    let lwe_sk_coeffs: Vec<u64> = glwe_sk.clone().into_lwe_secret_key().into_container();
    let sk = lwe_key_from_coeffs(&lwe_sk_coeffs);

    let table = scrambled_table();
    let noise = Gaussian::from_standard_dev(tfhe::core_crypto::prelude::StandardDev(0.0), 0.0);

    for &v in &[0u8, 1, 77, 0x80, 0xff] {
        // Encrypt the eight bits of v as GGSW selectors, least
        // significant bit first.
        let mut data: Vec<u64> = Vec::new();
        for i in 0..8u32 {
            let bit = ((v >> i) & 1) as u64;
            let mut ggsw = GgswCiphertext::new(
                0u64,
                GlweSize(glwe_size),
                PolynomialSize(poly_size),
                DecompositionBaseLog(base_log),
                DecompositionLevelCount(level),
                CiphertextModulus::new_native(),
            );
            encrypt_constant_ggsw_ciphertext(
                &glwe_sk,
                &mut ggsw,
                Cleartext(bit),
                noise,
                &mut encryption_generator,
            );
            data.extend_from_slice(ggsw.as_ref());
        }
        let selectors = GgswSelectors {
            data,
            glwe_size,
            poly_size,
            base_log,
            level,
            count: 8,
        };

        let mut accs = trivial_lut_accumulators(&table, poly_size, glwe_size);
        let out = evaluate_8_to_8_cipher_lut(&selectors, &mut accs, poly_size);
        assert_eq!(out.len(), 8);

        let mut byte: u8 = 0;
        for (g, lwe) in out.iter().enumerate() {
            let coeffs = lwe_to_coeffs(lwe);
            // Raw decryption: body minus mask-key dot product.
            let mut dot: u64 = 0;
            for (a, s) in coeffs[..coeffs.len() - 1].iter().zip(lwe_sk_coeffs.iter()) {
                dot = dot.wrapping_add(a.wrapping_mul(*s));
            }
            let raw = coeffs[coeffs.len() - 1].wrapping_sub(dot);
            let bit = decode_plane(raw, g as u32);
            byte |= (bit as u8) << g;
        }
        assert_eq!(byte, table[v as usize]);
    }
}

fn decode_byte(out: &[LweCipher], sk_coeffs: &[u64]) -> u8 {
    let mut byte: u8 = 0;
    for (g, lwe) in out.iter().enumerate() {
        let coeffs = lwe_to_coeffs(lwe);
        let mut dot: u64 = 0;
        for (a, s) in coeffs[..coeffs.len() - 1].iter().zip(sk_coeffs.iter()) {
            dot = dot.wrapping_add(a.wrapping_mul(*s));
        }
        let raw = coeffs[coeffs.len() - 1].wrapping_sub(dot);
        byte |= (decode_plane(raw, g as u32) as u8) << g;
    }
    byte
}

#[test]
fn block_walk_evaluates_all_four_variants() {
    // The block-wide keyed lookup: every byte position's selectors walk
    // the four multiplier tables, and decryption recovers the four
    // table entries for every byte of the block.
    let poly_size: usize = 256;
    let glwe_size: usize = 2;
    let base_log: usize = 21;
    let level: usize = 3;

    let mut seeder = new_seeder();
    let seeder = seeder.as_mut();
    let mut secret_generator = SecretRandomGenerator::<DefaultRandomGenerator>::new(seeder.seed());
    let mut encryption_generator =
        EncryptionRandomGenerator::<DefaultRandomGenerator>::new(seeder.seed(), seeder);
    let glwe_sk = allocate_and_generate_new_binary_glwe_secret_key::<u64, _>(
        GlweDimension(glwe_size - 1),
        PolynomialSize(poly_size),
        &mut secret_generator,
    );
    let lwe_sk_coeffs: Vec<u64> = glwe_sk.clone().into_lwe_secret_key().into_container();
    let noise = Gaussian::from_standard_dev(tfhe::core_crypto::prelude::StandardDev(0.0), 0.0);

    let tables: Vec<Vec<u8>> = (0u16..4)
        .map(|m| (0..256).map(|x| (x as u8).wrapping_mul(29 + 2 * m as u8).wrapping_add(m as u8)).collect())
        .collect();
    let input: Vec<u8> = (0u8..16).map(|i| i.wrapping_mul(59).wrapping_add(13)).collect();

    let mut selectors: Vec<GgswSelectors> = Vec::new();
    for &v in &input {
        let mut data: Vec<u64> = Vec::new();
        for i in 0..8u32 {
            let bit = ((v >> i) & 1) as u64;
            let mut ggsw = GgswCiphertext::new(
                0u64,
                GlweSize(glwe_size),
                PolynomialSize(poly_size),
                DecompositionBaseLog(base_log),
                DecompositionLevelCount(level),
                CiphertextModulus::new_native(),
            );
            encrypt_constant_ggsw_ciphertext(
                &glwe_sk,
                &mut ggsw,
                Cleartext(bit),
                noise,
                &mut encryption_generator,
            );
            data.extend_from_slice(ggsw.as_ref());
        }
        selectors.push(GgswSelectors {
            data,
            glwe_size,
            poly_size,
            base_log,
            level,
            count: 8,
        });
    }

    let acc_sets: Vec<Vec<Vec<fhe_aes::fhe::GlweCipher>>> = tables
        .iter()
        .map(|t| (0..16).map(|_| trivial_lut_accumulators(t, poly_size, glwe_size)).collect())
        .collect();

    let (o9, o11, o13, o14) = blind_rotate_keyed_sboxes(
        &selectors,
        &acc_sets[0],
        &acc_sets[1],
        &acc_sets[2],
        &acc_sets[3],
        poly_size,
        glwe_size,
    );
    for j in 0..16usize {
        let v = input[j] as usize;
        assert_eq!(decode_byte(&o9[8 * j..8 * j + 8], &lwe_sk_coeffs), tables[0][v]);
        assert_eq!(decode_byte(&o11[8 * j..8 * j + 8], &lwe_sk_coeffs), tables[1][v]);
        assert_eq!(decode_byte(&o13[8 * j..8 * j + 8], &lwe_sk_coeffs), tables[2][v]);
        assert_eq!(decode_byte(&o14[8 * j..8 * j + 8], &lwe_sk_coeffs), tables[3][v]);
    }
}

#[test]
fn encrypted_max_selects_the_larger_chunk() {
    // The encrypted comparison engine: two 16-bit chunks, given both as
    // GGSW selectors and as encrypted bits, reduce to the encrypted
    // bits of the larger value; a chunk compared with itself comes back
    // unchanged.
    let poly_size: usize = 256;
    let glwe_size: usize = 2;
    let base_log: usize = 21;
    let level: usize = 3;

    let mut seeder = new_seeder();
    let seeder = seeder.as_mut();
    let mut secret_generator = SecretRandomGenerator::<DefaultRandomGenerator>::new(seeder.seed());
    let mut encryption_generator =
        EncryptionRandomGenerator::<DefaultRandomGenerator>::new(seeder.seed(), seeder);
    let glwe_sk = allocate_and_generate_new_binary_glwe_secret_key::<u64, _>(
        GlweDimension(glwe_size - 1),
        PolynomialSize(poly_size),
        &mut secret_generator,
    );
    let lwe_sk_coeffs: Vec<u64> = glwe_sk.clone().into_lwe_secret_key().into_container();
    let sk = lwe_key_from_coeffs(&lwe_sk_coeffs);
    let noise = Gaussian::from_standard_dev(tfhe::core_crypto::prelude::StandardDev(0.0), 0.0);
    let dim = (glwe_size - 1) * poly_size;

    let mut encrypt_chunk = |v: u16| -> (GgswSelectors, Vec<LweCipher>) {
        let mut data: Vec<u64> = Vec::new();
        let mut lwes: Vec<LweCipher> = Vec::new();
        for i in 0..16u32 {
            // Index 0 carries the most significant bit.
            let bit = ((v >> (15 - i)) & 1) as u64;
            let mut ggsw = GgswCiphertext::new(
                0u64,
                GlweSize(glwe_size),
                PolynomialSize(poly_size),
                DecompositionBaseLog(base_log),
                DecompositionLevelCount(level),
                CiphertextModulus::new_native(),
            );
            encrypt_constant_ggsw_ciphertext(
                &glwe_sk,
                &mut ggsw,
                Cleartext(bit),
                noise,
                &mut encryption_generator,
            );
            data.extend_from_slice(ggsw.as_ref());
            let mut coeffs = vec![0u64; dim + 1];
            coeffs[dim] = bit << 63;
            lwes.push(lwe_from_coeffs(&coeffs));
        }
        (
            GgswSelectors { data, glwe_size, poly_size, base_log, level, count: 16 },
            lwes,
        )
    };

    let decode_chunk = |out: &[LweCipher]| -> u16 {
        let mut v: u16 = 0;
        for (i, lwe) in out.iter().enumerate() {
            let coeffs = lwe_to_coeffs(lwe);
            let mut dot: u64 = 0;
            for (a, s) in coeffs[..coeffs.len() - 1].iter().zip(lwe_sk_coeffs.iter()) {
                dot = dot.wrapping_add(a.wrapping_mul(*s));
            }
            let raw = coeffs[coeffs.len() - 1].wrapping_sub(dot);
            let bit = (raw.wrapping_add(1u64 << 62) >> 63) & 1;
            v |= (bit as u16) << (15 - i);
        }
        v
    };
    let _ = &sk;

    for &(x, y) in &[(40961u16, 513u16), (513, 40961), (7u16, 7u16), (0u16, 65535u16)] {
        let (sel_a, lwe_a) = encrypt_chunk(x);
        let (sel_b, lwe_b) = encrypt_chunk(y);
        let winner = max_of_two(&sel_a, &sel_b, &lwe_a, &lwe_b, poly_size, glwe_size);
        assert_eq!(decode_chunk(&winner), x.max(y));
    }
}
