use vstd::prelude::*;

verus! {

/// The message scaling factor for encrypted bits: one semantic bit in the
/// most significant position of a 64-bit torus element.
pub const DELTA: u64 = 0x8000_0000_0000_0000;

/// Half of the scaling factor, the rounding threshold at decode time.
pub const HALF_DELTA: u64 = 0x4000_0000_0000_0000;

/// Encoding of a single bit: the bit scaled into the top position.
pub open spec fn encode_bit_spec(b: u8) -> u64
    recommends
        b <= 1,
{
    ((b as u64) << 63) as u64
}

/// Rounding decode of a bit-scaled value: add half the scale (taken from
/// bit 62), let the carry wrap, and divide by the scale.
pub open spec fn decode_bit_spec(x: u64) -> u64 {
    ((((x as int) + (((x & 0x4000_0000_0000_0000) << 1) as int)) % 0x1_0000_0000_0000_0000) as u64)
        / 0x8000_0000_0000_0000
}

pub fn encode_bit(b: u8) -> (r: u64)
    requires
        b <= 1,
    ensures
        r == encode_bit_spec(b),
{
    (b as u64) << 63
}

/// Decodes one bit-scaled value with the deterministic rounding rule.
pub fn decode_bit(x: u64) -> (r: u64)
    ensures
        r == decode_bit_spec(x),
{
    let rounding: u64 = (x & HALF_DELTA) << 1;
    let y: u64 = x.wrapping_add(rounding);
    y / DELTA
}

/// Decoding returns exactly the encoded bit.
pub proof fn lemma_decode_encode(b: u8)
    requires
        b <= 1,
    ensures
        decode_bit_spec(encode_bit_spec(b)) == b,
{
    assert(decode_bit_spec(encode_bit_spec(b)) == b) by (bit_vector)
        requires
            b <= 1,
    ;
}

/// Decoding tolerates any additive error strictly below half the scale,
/// in either direction: the noise margin of the scheme. The value `x` is
/// the encoding of `b` shifted by `e`, upward or downward with wraparound.
pub proof fn lemma_decode_noise_margin(b: u8, e: u64, x: u64)
    requires
        b <= 1,
        e < 0x4000_0000_0000_0000,
        x == ((encode_bit_spec(b) + e) as u64) || ((x + e) as u64) == encode_bit_spec(b),
    ensures
        decode_bit_spec(x) == b,
{
    assert(decode_bit_spec(x) == b) by (bit_vector)
        requires
            b <= 1,
            e < 0x4000_0000_0000_0000,
            x == ((encode_bit_spec(b) + e) as u64) || ((x + e) as u64) == encode_bit_spec(b),
    ;
}

} // verus!
