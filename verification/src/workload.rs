use vstd::prelude::*;
use vstd::pervasive::VecAdditionalExecFns;
use crate::encode::decode_bit;
use crate::encode::decode_bit_spec;

verus! {

/// Addition of two torus elements, wrapping at the 64-bit native
/// modulus: the ciphertext-level operation that realizes XOR on
/// bit-scaled messages.
pub open spec fn wadd(x: u64, y: u64) -> u64 {
    if x + y > u64::MAX {
        ((x + y - 0x1_0000_0000_0000_0000) as u64)
    } else {
        ((x + y) as u64)
    }
}

/// The chunk XOR-add: the second half of the list is added into the
/// first half elementwise, and the second half is left as it is.
pub open spec fn xor_halves_spec(s: Seq<u64>) -> Seq<u64> {
    Seq::new(
        s.len(),
        |i: int|
            if i < s.len() / 2 {
                wadd(s[i], s[s.len() / 2 + i])
            } else {
                s[i]
            },
    )
}

/// Flipping every bit of the list: the constant XOR adds the encoding of
/// 1 to every element.
pub open spec fn flip_all_spec(s: Seq<u64>) -> Seq<u64> {
    Seq::new(s.len(), |i: int| wadd(s[i], 0x8000_0000_0000_0000))
}

/// Adds the second half of a list of encoded bit values into the first
/// half, elementwise: XOR of the two halves at the message level.
pub fn xor_halves_assign(input: &mut Vec<u64>)
    ensures
        final(input)@ == xor_halves_spec(old(input)@),
{
    let mid: usize = input.len() / 2;
    let mut i: usize = 0;
    while i < mid
        invariant
            i <= mid,
            mid == input.len() / 2,
            input.len() == old(input).len(),
            forall|k: int| 0 <= k < i ==> input@[k] == xor_halves_spec(old(input)@)[k],
            forall|k: int| i <= k < input.len() ==> input@[k] == old(input)@[k],
        decreases mid - i,
    {
        let v: u64 = input[i].wrapping_add(input[mid + i]);
        input.set(i, v);
        i = i + 1;
    }
    assert(final(input)@ =~= xor_halves_spec(old(input)@));
}

/// Adds the encoding of 1 to every element of a list of encoded bit
/// values, flipping every message bit.
pub fn flip_all_assign(input: &mut Vec<u64>)
    ensures
        final(input)@ == flip_all_spec(old(input)@),
{
    let mut i: usize = 0;
    while i < input.len()
        invariant
            i <= input.len(),
            input.len() == old(input).len(),
            forall|k: int| 0 <= k < i ==> input@[k] == flip_all_spec(old(input)@)[k],
            forall|k: int| i <= k < input.len() ==> input@[k] == old(input)@[k],
        decreases input.len() - i,
    {
        let v: u64 = input[i].wrapping_add(0x8000_0000_0000_0000);
        input.set(i, v);
        i = i + 1;
    }
    assert(final(input)@ =~= flip_all_spec(old(input)@));
}

/// Decodes every element of an encrypted bit list with the rounding rule.
pub fn decode_bit_list(xs: &Vec<u64>) -> (r: Vec<u64>)
    ensures
        r.len() == xs.len(),
        forall|i: int| 0 <= i < xs.len() ==> r@[i] == decode_bit_spec(xs@[i]),
{
    let mut r: Vec<u64> = Vec::new();
    let mut i: usize = 0;
    while i < xs.len()
        invariant
            i <= xs.len(),
            r.len() == i,
            forall|k: int| 0 <= k < i ==> r@[k] == decode_bit_spec(xs@[k]),
        decreases xs.len() - i,
    {
        r.push(decode_bit(xs[i]));
        i = i + 1;
    }
    r
}

/// The chunk XOR-add is self-inverse on exact bit encodings: adding a
/// bit-scaled value twice contributes a full multiple of the modulus,
/// so applying the operation twice restores the left half unchanged.
pub proof fn lemma_xor_halves_self_inverse(s: Seq<u64>)
    requires
        forall|i: int|
            s.len() / 2 <= i < s.len() ==> s[i] == 0 || #[trigger] s[i] == 0x8000_0000_0000_0000,
    ensures
        xor_halves_spec(xor_halves_spec(s)) == s,
{
    let t = xor_halves_spec(xor_halves_spec(s));
    assert forall|i: int| 0 <= i < s.len() implies t[i] == s[i] by {
        if i < s.len() / 2 {
            let a = s[i];
            let b = s[s.len() / 2 + i];
            assert(b == 0 || b == 0x8000_0000_0000_0000);
            assert(wadd(wadd(a, b), b) == a) by (bit_vector)
                requires
                    b == 0 || b == 0x8000_0000_0000_0000,
            ;
        }
    }
    assert(t =~= s);
}

/// The constant XOR is self-inverse on every list: adding the encoding
/// of 1 twice adds a full multiple of the modulus.
pub proof fn lemma_flip_all_self_inverse(s: Seq<u64>)
    ensures
        flip_all_spec(flip_all_spec(s)) == s,
{
    let t = flip_all_spec(flip_all_spec(s));
    assert forall|i: int| 0 <= i < s.len() implies t[i] == s[i] by {
        let a = s[i];
        assert(wadd(wadd(a, 0x8000_0000_0000_0000), 0x8000_0000_0000_0000) == a) by (bit_vector);
    }
    assert(t =~= s);
}

} // verus!
