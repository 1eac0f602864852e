use fhe_aes::fhe::{
    check_transciphering_result, check_workload_1_result, check_workload_2_result,
    decrypt_decode_lwe_list, he_add_round_key, he_inv_mix_columns_precomp, he_inv_shift_rows,
    he_mult_by_two, he_shift_rows, known_rotate_keyed_lut, lwe_from_coeffs, lwe_key_from_coeffs,
    lwe_to_coeffs, trivial_known_rotate_decode, trivial_lut_accumulator_set,
    trivial_lut_accumulators, workload_tiny_1, workload_tiny_2, LweCipher,
};
use fhe_aes::gf::xtime;
use fhe_aes::state::{inv_mix_columns_precomp, inv_shift_rows, post_process};

fn identity_table() -> Vec<u8> {
    (0..256).map(|x| x as u8).collect()
}

fn scrambled_table() -> Vec<u8> {
    (0..256).map(|x| (x as u8).wrapping_mul(167).wrapping_add(43)).collect()
}

fn binary_key(len: usize) -> Vec<u64> {
    let mut seed: u64 = 0x9e37_79b9_7f4a_7c15;
    (0..len)
        .map(|_| {
            seed = seed.wrapping_mul(6364136223846793005).wrapping_add(1442695040888963407);
            (seed >> 63) & 1
        })
        .collect()
}

fn encoded_lwe(bit: u8, dim: usize) -> LweCipher {
    let mut coeffs = vec![0u64; dim + 1];
    coeffs[dim] = (bit as u64) << 63;
    lwe_from_coeffs(&coeffs)
}

#[test]
fn lwe_coefficients_round_trip() {
    let coeffs: Vec<u64> = vec![5, 0, u64::MAX, 1 << 63, 77];
    let ct = lwe_from_coeffs(&coeffs);
    assert_eq!(lwe_to_coeffs(&ct), coeffs);
}

#[test]
fn trivial_lookup_recovers_every_table_entry() {
    // The whole chain through the lattice library: pack, trivially
    // encrypt, extract a sample per bit plane, decrypt under a real
    // binary key, decode. The result must be the table entry.
    let sk = lwe_key_from_coeffs(&binary_key(2 * 256));
    let table = scrambled_table();
    for v in [0u8, 1, 42, 0x80, 0xa7, 0xff] {
        let got = trivial_known_rotate_decode(&table, v, 256, 3, &sk);
        assert_eq!(got, table[v as usize]);
    }
    let sk2 = lwe_key_from_coeffs(&binary_key(2048));
    let idt = identity_table();
    for v in [0u8, 3, 200, 255] {
        assert_eq!(trivial_known_rotate_decode(&idt, v, 2048, 2, &sk2), v);
    }
}

#[test]
fn known_rotate_block_extracts_all_bits() {
    // The block-level entry lookup on trivially encrypted accumulators:
    // for ring degree 256 the bit at plane 0 of each byte decodes at the
    // top scale, so decrypting the extracted list recovers bit 0 of each
    // table entry.
    let table = scrambled_table();
    let tables: Vec<Vec<u8>> = (0..16).map(|_| table.clone()).collect();
    let accs = trivial_lut_accumulator_set(&tables, 256, 2);
    let input: Vec<u8> = (0u8..16).map(|i| i.wrapping_mul(17).wrapping_add(9)).collect();
    let out = known_rotate_keyed_lut(&input, &accs, 256);
    assert_eq!(out.len(), 128);
    let sk = lwe_key_from_coeffs(&binary_key(256));
    let decoded = decrypt_decode_lwe_list(&sk, &out);
    for j in 0..16 {
        let expected_bit0 = (table[input[j] as usize] & 1) as u64;
        assert_eq!(decoded[8 * j], expected_bit0);
    }
}

#[test]
fn encrypted_workloads_match_message_arithmetic() {
    // Exact trivial encodings: the chunk XOR-add and the constant flip
    // act on the decoded messages as XOR with the other half and with
    // all-ones respectively, and each is its own inverse.
    let msg: Vec<u8> = (0u8..16).map(|i| i.wrapping_mul(73).wrapping_add(29)).collect();
    let dim = 4usize;
    let sk = lwe_key_from_coeffs(&vec![0u64; dim]);
    let mut state: Vec<LweCipher> = Vec::new();
    for &b in &msg {
        for j in 0..8u32 {
            state.push(encoded_lwe((b >> (7 - j)) & 1, dim));
        }
    }
    workload_tiny_1(&mut state);
    let bytes = post_process(&decrypt_decode_lwe_list(&sk, &state));
    for i in 0..8 {
        assert_eq!(bytes[i], msg[i] ^ msg[i + 8]);
    }
    workload_tiny_1(&mut state);
    let restored = post_process(&decrypt_decode_lwe_list(&sk, &state));
    assert_eq!(&restored[..], &msg[..]);

    workload_tiny_2(&mut state);
    let flipped = post_process(&decrypt_decode_lwe_list(&sk, &state));
    for i in 0..16 {
        assert_eq!(flipped[i], msg[i] ^ 0xff);
    }
    workload_tiny_2(&mut state);
    let back = post_process(&decrypt_decode_lwe_list(&sk, &state));
    assert_eq!(&back[..], &msg[..]);
}

fn encode_state(bytes: &[u8], dim: usize) -> Vec<LweCipher> {
    let mut out = Vec::new();
    for &b in bytes {
        for j in 0..8u32 {
            out.push(encoded_lwe((b >> (7 - j)) & 1, dim));
        }
    }
    out
}

#[test]
fn encrypted_round_plumbing_matches_byte_model() {
    // Inverse MixColumns combination and inverse ShiftRows on the
    // encrypted state agree with the byte-level model: XOR-adding the
    // four multiplied copies bit by bit and relabeling the bytes.
    let m9: Vec<u8> = (0u8..16).map(|i| i.wrapping_mul(31).wrapping_add(5)).collect();
    let m11: Vec<u8> = (0u8..16).map(|i| i.wrapping_mul(57).wrapping_add(99)).collect();
    let m13: Vec<u8> = (0u8..16).map(|i| i.wrapping_mul(7).wrapping_add(211)).collect();
    let m14: Vec<u8> = (0u8..16).map(|i| i.wrapping_mul(143).wrapping_add(17)).collect();
    let dim = 3usize;
    let sk = lwe_key_from_coeffs(&vec![0u64; dim]);

    let s9 = encode_state(&m9, dim);
    let s11 = encode_state(&m11, dim);
    let s13 = encode_state(&m13, dim);
    let s14 = encode_state(&m14, dim);
    let combined = he_inv_mix_columns_precomp(&s9, &s11, &s13, &s14);
    let shifted = he_inv_shift_rows(&combined);
    let got = post_process(&decrypt_decode_lwe_list(&sk, &shifted));

    let expected_combined = inv_mix_columns_precomp(&m14, &m11, &m13, &m9);
    let expected = inv_shift_rows(&expected_combined);
    assert_eq!(&got[..], &expected[..]);
}

#[test]
fn encrypted_doubling_matches_field_doubling() {
    // he_mult_by_two on one encrypted byte, bits least significant
    // first, agrees with doubling in the Galois field.
    let dim = 3usize;
    let sk = lwe_key_from_coeffs(&vec![0u64; dim]);
    for v in [0u8, 1, 0x53, 0x80, 0xfe, 0xff] {
        let byte: Vec<LweCipher> = (0..8u32).map(|i| encoded_lwe((v >> i) & 1, dim)).collect();
        let doubled = he_mult_by_two(&byte);
        let bits = decrypt_decode_lwe_list(&sk, &doubled);
        let mut got: u8 = 0;
        for (i, b) in bits.iter().enumerate() {
            got |= (*b as u8) << i;
        }
        assert_eq!(got, xtime(v));
    }
}

#[test]
fn encrypted_round_key_addition_is_xor() {
    let msg: Vec<u8> = (0u8..16).map(|i| i.wrapping_mul(41).wrapping_add(3)).collect();
    let rk: Vec<u8> = (0u8..16).map(|i| i.wrapping_mul(67).wrapping_add(19)).collect();
    let dim = 2usize;
    let sk = lwe_key_from_coeffs(&vec![0u64; dim]);
    let mut state = encode_state(&msg, dim);
    let key_state = encode_state(&rk, dim);
    he_add_round_key(&mut state, &key_state);
    let got = post_process(&decrypt_decode_lwe_list(&sk, &state));
    for i in 0..16 {
        assert_eq!(got[i], msg[i] ^ rk[i]);
    }
}

#[test]
fn encrypted_forward_shift_rows_relabels_bytes() {
    let msg: Vec<u8> = (0u8..16).collect();
    let dim = 2usize;
    let sk = lwe_key_from_coeffs(&vec![0u64; dim]);
    let state = encode_state(&msg, dim);
    let shifted = he_shift_rows(&state);
    let got = post_process(&decrypt_decode_lwe_list(&sk, &shifted));
    // Row 1 rotates left by one column: byte (1,0) takes byte (1,1).
    assert_eq!(got[0], 0);
    assert_eq!(got[1], 5);
    assert_eq!(got[5], 9);
    assert_eq!(got[13], 1);
    assert_eq!(got[2], 10);
}

#[test]
fn result_checks_accept_and_reject() {
    // The verified harness comparisons: each check accepts the matching
    // message and rejects a corrupted one.
    let msg: [u8; 16] = [
        0x0f, 0x21, 0x33, 0x45, 0x57, 0x69, 0x7b, 0x8d, 0x9f, 0xa1, 0xb3, 0xc5, 0xd7, 0xe9, 0xfb,
        0x0d,
    ];
    let dim = 4usize;
    let sk = lwe_key_from_coeffs(&vec![0u64; dim]);
    let state = encode_state(&msg, dim);
    assert!(check_transciphering_result(&state, &sk, &msg));
    let mut wrong = msg;
    wrong[3] ^= 0x10;
    assert!(!check_transciphering_result(&state, &sk, &wrong));

    let mut data1 = encode_state(&msg, dim);
    workload_tiny_1(&mut data1);
    assert!(check_workload_1_result(&data1, &sk, &msg));
    assert!(!check_workload_1_result(&state, &sk, &msg));

    let mut data2 = encode_state(&msg, dim);
    workload_tiny_2(&mut data2);
    assert!(check_workload_2_result(&data2, &sk, &msg));
    assert!(!check_workload_2_result(&state, &sk, &msg));
}
