use fhe_aes::gf::{gmul, gmul_table};
use fhe_aes::lut::{
    accumulator_coeffs, compose_tables, evaluate_byte_lut, known_rotate_byte_lut, num_accumulators,
    num_par_lut,
};

fn gf_mul_ref(mut a: u8, mut b: u8) -> u8 {
    let mut r: u8 = 0;
    while b != 0 {
        if b & 1 != 0 {
            r ^= a;
        }
        let hi = a & 0x80;
        a <<= 1;
        if hi != 0 {
            a ^= 0x1b;
        }
        b >>= 1;
    }
    r
}

fn gf_inv_ref(a: u8) -> u8 {
    if a == 0 {
        return 0;
    }
    let mut r: u8 = 1;
    let mut base = a;
    let mut e = 254u32;
    while e > 0 {
        if e & 1 == 1 {
            r = gf_mul_ref(r, base);
        }
        base = gf_mul_ref(base, base);
        e >>= 1;
    }
    r
}

fn build_inv_sbox() -> Vec<u8> {
    let mut sbox = vec![0u8; 256];
    for x in 0..256usize {
        let b = gf_inv_ref(x as u8);
        sbox[x] =
            b ^ b.rotate_left(1) ^ b.rotate_left(2) ^ b.rotate_left(3) ^ b.rotate_left(4) ^ 0x63;
    }
    let mut inv = vec![0u8; 256];
    for x in 0..256usize {
        inv[sbox[x] as usize] = x as u8;
    }
    inv
}

#[test]
fn gmul_matches_field_multiplication() {
    for m in [9u8, 11, 13, 14] {
        for x in 0..256usize {
            assert_eq!(gmul(m, x as u8), gf_mul_ref(m, x as u8));
        }
        let t = gmul_table(m);
        assert_eq!(t.len(), 256);
        assert_eq!(t[0x57], gf_mul_ref(m, 0x57));
    }
}

#[test]
fn inv_sbox_lut_evaluates_every_byte() {
    // The blind-rotation evaluation of the inverse S-box table yields
    // the table entry for all 256 inputs.
    let inv_sbox = build_inv_sbox();
    for v in 0..256usize {
        assert_eq!(evaluate_byte_lut(&inv_sbox, v as u8, 2048), inv_sbox[v]);
    }
}

#[test]
fn keyed_multiply_lut_evaluates_every_byte() {
    // The fused substitution-and-multiply tables evaluate to the Galois
    // product of the substituted byte for all inputs and multipliers.
    let inv_sbox = build_inv_sbox();
    for m in [9u8, 11, 13, 14] {
        let mt = gmul_table(m);
        let fused = compose_tables(&mt, &inv_sbox);
        for v in 0..256usize {
            assert_eq!(
                evaluate_byte_lut(&fused, v as u8, 2048),
                gf_mul_ref(m, inv_sbox[v])
            );
        }
    }
}

#[test]
fn known_rotate_matches_blind_rotate() {
    let inv_sbox = build_inv_sbox();
    for v in [0u8, 1, 37, 0x80, 0xff] {
        assert_eq!(
            known_rotate_byte_lut(&inv_sbox, v, 512),
            evaluate_byte_lut(&inv_sbox, v, 512)
        );
    }
}

#[test]
fn packing_counts_for_both_ring_degrees() {
    // Ring degree 2048 packs all 8 planes into one accumulator; ring
    // degree 256 needs 8 accumulators.
    assert_eq!(num_par_lut(2048), 8);
    assert_eq!(num_accumulators(num_par_lut(2048)), 1);
    assert_eq!(num_par_lut(256), 1);
    assert_eq!(num_accumulators(num_par_lut(256)), 8);
}

#[test]
fn both_ring_degrees_decode_identically() {
    let inv_sbox = build_inv_sbox();
    for v in 0..256usize {
        let small = evaluate_byte_lut(&inv_sbox, v as u8, 256);
        let large = evaluate_byte_lut(&inv_sbox, v as u8, 2048);
        assert_eq!(small, large);
        assert_eq!(small, inv_sbox[v]);
    }
}

#[test]
fn accumulator_coefficients_pack_bit_planes() {
    let inv_sbox = build_inv_sbox();
    // One accumulator for ring degree 512 packs planes 0 and 1: the
    // coefficient at index 256 + v holds bit 1 of entry v, scaled one
    // bit below the top.
    let c = accumulator_coeffs(&inv_sbox, 0, 2, 63, 512);
    assert_eq!(c.len(), 512);
    let v = 0xa7usize;
    let bit0 = ((inv_sbox[v] >> 0) & 1) as u64;
    let bit1 = ((inv_sbox[v] >> 1) & 1) as u64;
    assert_eq!(c[v], bit0 << 63);
    assert_eq!(c[256 + v], bit1 << 62);
}
