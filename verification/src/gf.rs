use vstd::prelude::*;

verus! {

/// Doubling in GF(2^8) modulo the AES reduction polynomial
/// x^8 + x^4 + x^3 + x + 1 (0x11b).
pub open spec fn xtime_spec(x: u8) -> u8 {
    if x >= 0x80 {
        ((x << 1) ^ 0x1b) as u8
    } else {
        (x << 1) as u8
    }
}

/// Multiplication by one of the inverse MixColumns coefficients
/// (9, 11, 13 or 14), written as a chain of doublings and additions:
/// 9·x = 8·x + x, 11·x = 8·x + 2·x + x, 13·x = 8·x + 4·x + x,
/// 14·x = 8·x + 4·x + 2·x.
pub open spec fn gmul_spec(m: u8, x: u8) -> u8
    recommends
        m == 9 || m == 11 || m == 13 || m == 14,
{
    let x2 = xtime_spec(x);
    let x4 = xtime_spec(x2);
    let x8 = xtime_spec(x4);
    if m == 9 {
        (x8 ^ x) as u8
    } else if m == 11 {
        (x8 ^ x2 ^ x) as u8
    } else if m == 13 {
        (x8 ^ x4 ^ x) as u8
    } else {
        (x8 ^ x4 ^ x2) as u8
    }
}

pub fn xtime(x: u8) -> (r: u8)
    ensures
        r == xtime_spec(x),
{
    if x >= 0x80 {
        (x << 1) ^ 0x1b
    } else {
        x << 1
    }
}

pub fn gmul(m: u8, x: u8) -> (r: u8)
    requires
        m == 9 || m == 11 || m == 13 || m == 14,
    ensures
        r == gmul_spec(m, x),
{
    let x2 = xtime(x);
    let x4 = xtime(x2);
    let x8 = xtime(x4);
    if m == 9 {
        x8 ^ x
    } else if m == 11 {
        x8 ^ x2 ^ x
    } else if m == 13 {
        x8 ^ x4 ^ x
    } else {
        x8 ^ x4 ^ x2
    }
}

/// The 256-entry multiplication table for one inverse MixColumns
/// coefficient, as handed to the keyed lookup-table builders.
pub fn gmul_table(m: u8) -> (t: Vec<u8>)
    requires
        m == 9 || m == 11 || m == 13 || m == 14,
    ensures
        t.len() == 256,
        forall|i: int| 0 <= i < 256 ==> t@[i] == gmul_spec(m, i as u8),
{
    let mut t: Vec<u8> = Vec::new();
    let mut i: usize = 0;
    while i < 256
        invariant
            i <= 256,
            t.len() == i,
            m == 9 || m == 11 || m == 13 || m == 14,
            forall|k: int| 0 <= k < i ==> t@[k] == gmul_spec(m, k as u8),
        decreases 256 - i,
    {
        t.push(gmul(m, i as u8));
        i = i + 1;
    }
    t
}

/// Multiplication by a fixed inverse MixColumns coefficient distributes
/// over XOR.
pub proof fn lemma_gmul_linear(m: u8, a: u8, b: u8)
    requires
        m == 9 || m == 11 || m == 13 || m == 14,
    ensures
        gmul_spec(m, (a ^ b) as u8) == (gmul_spec(m, a) ^ gmul_spec(m, b)) as u8,
{
    assert(gmul_spec(m, (a ^ b) as u8) == (gmul_spec(m, a) ^ gmul_spec(m, b)) as u8)
        by (bit_vector)
        requires
            m == 9 || m == 11 || m == 13 || m == 14,
    ;
}

} // verus!
