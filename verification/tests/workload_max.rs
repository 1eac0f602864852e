use fhe_aes::encode::{decode_bit, encode_bit};
use fhe_aes::maxcmp::{max_of_chunks, max_of_two};
use fhe_aes::state::{inv_shift_rows, post_process};
use fhe_aes::workload::{decode_bit_list, flip_all_assign, xor_halves_assign};
use fhe_aes::get_size_string;

fn encode_bytes(bytes: &[u8]) -> Vec<u64> {
    let mut out = Vec::new();
    for &b in bytes {
        for j in 0..8u32 {
            out.push(encode_bit((b >> (7 - j)) & 1));
        }
    }
    out
}

fn decode_bytes(data: &Vec<u64>) -> [u8; 16] {
    post_process(&decode_bit_list(data))
}

fn bits_msb(v: u16) -> Vec<u8> {
    (0..16).map(|i| ((v >> (15 - i)) & 1) as u8).collect()
}

fn val_of_bits(bits: &[u8]) -> u16 {
    let mut v: u16 = 0;
    for &b in bits {
        v = (v << 1) | b as u16;
    }
    v
}

#[test]
fn encode_decode_round_trip() {
    assert_eq!(decode_bit(encode_bit(0)), 0);
    assert_eq!(decode_bit(encode_bit(1)), 1);
    // Decoding tolerates noise strictly below a quarter of the modulus.
    let e = (1u64 << 62) - 1;
    assert_eq!(decode_bit(encode_bit(1).wrapping_add(e)), 1);
    assert_eq!(decode_bit(encode_bit(1).wrapping_sub(e)), 1);
    assert_eq!(decode_bit(encode_bit(0).wrapping_add(e)), 0);
}

#[test]
fn xor_halves_computes_message_xor() {
    let msg: Vec<u8> = (0u8..16).map(|i| i.wrapping_mul(37).wrapping_add(11)).collect();
    let mut data = encode_bytes(&msg);
    xor_halves_assign(&mut data);
    let out = decode_bytes(&data);
    for i in 0..8 {
        assert_eq!(out[i], msg[i] ^ msg[i + 8]);
    }
    for i in 8..16 {
        assert_eq!(out[i], msg[i]);
    }
}

#[test]
fn xor_halves_twice_restores_the_state() {
    let msg: Vec<u8> = (0u8..16).map(|i| i.wrapping_mul(201).wrapping_add(3)).collect();
    let original = encode_bytes(&msg);
    let mut data = original.clone();
    xor_halves_assign(&mut data);
    xor_halves_assign(&mut data);
    assert_eq!(data, original);
}

#[test]
fn flip_all_computes_message_complement() {
    let msg: Vec<u8> = (0u8..16).map(|i| i.wrapping_mul(91).wrapping_add(7)).collect();
    let mut data = encode_bytes(&msg);
    flip_all_assign(&mut data);
    let out = decode_bytes(&data);
    for i in 0..16 {
        assert_eq!(out[i], msg[i] ^ 0xff);
    }
}

#[test]
fn flip_all_twice_restores_the_state() {
    let msg: Vec<u8> = (0u8..16).map(|i| i.wrapping_mul(13).wrapping_add(5)).collect();
    let original = encode_bytes(&msg);
    let mut data = original.clone();
    flip_all_assign(&mut data);
    flip_all_assign(&mut data);
    assert_eq!(data, original);
}

#[test]
fn max_of_two_is_idempotent_and_commutative() {
    let mut seed: u32 = 0xdead_beef;
    for _ in 0..64 {
        seed = seed.wrapping_mul(1664525).wrapping_add(1013904223);
        let x = (seed >> 16) as u16;
        seed = seed.wrapping_mul(1664525).wrapping_add(1013904223);
        let y = (seed >> 16) as u16;
        let a = bits_msb(x);
        let b = bits_msb(y);
        assert_eq!(max_of_two(&a, &a), a);
        assert_eq!(max_of_two(&a, &b), max_of_two(&b, &a));
        let winner = max_of_two(&a, &b);
        assert_eq!(val_of_bits(&winner), x.max(y));
    }
}

#[test]
fn eight_way_reduction_finds_the_maximum() {
    let values: [u16; 8] = [313, 65535, 0, 9182, 44000, 9182, 7, 65534];
    let chunks: Vec<Vec<u8>> = values.iter().map(|&v| bits_msb(v)).collect();
    let winner = max_of_chunks(&chunks);
    assert_eq!(val_of_bits(&winner), 65535);
    let mut seed: u32 = 42;
    for _ in 0..16 {
        let mut vals = [0u16; 8];
        for v in vals.iter_mut() {
            seed = seed.wrapping_mul(1664525).wrapping_add(1013904223);
            *v = (seed >> 13) as u16;
        }
        let chunks: Vec<Vec<u8>> = vals.iter().map(|&v| bits_msb(v)).collect();
        let winner = max_of_chunks(&chunks);
        assert_eq!(val_of_bits(&winner), *vals.iter().max().unwrap());
    }
}

#[test]
fn post_process_packs_bits_msb_first() {
    let mut data = vec![0u64; 128];
    // Byte 0: bits 1000_0001 -> 0x81; byte 5: 0000_1111 -> 0x0f.
    data[0] = 1;
    data[7] = 1;
    for j in 4..8 {
        data[5 * 8 + j] = 1;
    }
    let out = post_process(&data);
    assert_eq!(out[0], 0x81);
    assert_eq!(out[5], 0x0f);
    assert_eq!(out[1], 0);
}

#[test]
fn inverse_shift_rows_relabels_bytes() {
    let state: Vec<u8> = (0u8..16).collect();
    let shifted = inv_shift_rows(&state);
    // Row 0 fixed, row 1 rotated right by one column.
    assert_eq!(shifted[0], 0);
    assert_eq!(shifted[1], 13);
    assert_eq!(shifted[2], 10);
    assert_eq!(shifted[3], 7);
    assert_eq!(shifted[4], 4);
    assert_eq!(shifted[5], 1);
}

#[test]
fn size_strings_cover_the_three_workloads() {
    assert_eq!(get_size_string(0), "toy");
    assert_eq!(get_size_string(1), "small");
    assert_eq!(get_size_string(2), "medium");
    assert_eq!(get_size_string(9), "unknown");
}
