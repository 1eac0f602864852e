use vstd::prelude::*;
use crate::encode::encode_bit;
use crate::encode::encode_bit_spec;
use crate::keys::build_all_round_tables;
use crate::keys::AllRoundTables;
use crate::keys::QuadTables;
use crate::lut::evaluate_byte_lut;
use crate::lut::known_rotate_byte_lut;
use crate::state::bit_of;
use crate::state::byte_index;
use crate::state::inv_mix_byte;
use crate::state::inv_mix_columns_precomp;
use crate::state::inv_shift_rows;
use crate::state::inv_shift_rows_src;
use crate::gf::gmul_spec;
use crate::gf::lemma_gmul_linear;
use crate::keys::imc_byte_spec;

verus! {

/// Inverse ShiftRows as a transformation of the whole 16-byte state.
pub open spec fn shift_state(st: Seq<u8>) -> Seq<u8>
    recommends
        st.len() == 16,
{
    Seq::new(16, |j: int| st[inv_shift_rows_src(j)])
}

/// One keyed round on the state: each byte is pushed through the four
/// fused multiplication tables of the round and the results are combined
/// by the inverse MixColumns pattern.
pub open spec fn quad_round_state(q: QuadTables, st: Seq<u8>) -> Seq<u8>
    recommends
        q.wf(),
        st.len() == 16,
{
    Seq::new(
        16,
        |j: int|
            {
                let row = j % 4;
                let col = j / 4;
                (q.entry(14, byte_index(row, col), st[byte_index(row, col)] as int) ^ q.entry(
                    11,
                    byte_index((row + 1) % 4, col),
                    st[byte_index((row + 1) % 4, col)] as int,
                ) ^ q.entry(
                    13,
                    byte_index((row + 2) % 4, col),
                    st[byte_index((row + 2) % 4, col)] as int,
                ) ^ q.entry(
                    9,
                    byte_index((row + 3) % 4, col),
                    st[byte_index((row + 3) % 4, col)] as int,
                )) as u8
            },
    )
}

/// The middle rounds, applied from round `r` down to round 1: each is a
/// keyed quad round followed by inverse ShiftRows.
pub open spec fn middle_rounds_state(keys: AllRoundTables, st: Seq<u8>, r: int) -> Seq<u8>
    recommends
        keys.wf(),
        st.len() == 16,
        0 <= r <= 8,
    decreases r,
{
    if r <= 0 {
        st
    } else {
        middle_rounds_state(keys, shift_state(quad_round_state(keys.middle@[r - 1], st)), r - 1)
    }
}

/// The byte-level result of the whole round pipeline on one block:
/// inverse ShiftRows on the public ciphertext, the fused entry round,
/// the eight middle rounds, and the final substitution round.
pub open spec fn transcipher_bytes_spec(keys: AllRoundTables, ct: Seq<u8>) -> Seq<u8>
    recommends
        keys.wf(),
        ct.len() == 16,
{
    let c1 = shift_state(ct);
    let st0 = shift_state(quad_round_state(keys.initial, c1));
    let stm = middle_rounds_state(keys, st0, 8);
    Seq::new(16, |j: int| keys.last@[j]@[stm[j] as int])
}


/// Inverse SubBytes followed by AddRoundKey on a 16-byte state.
pub open spec fn sub_add_state(inv_sbox: Seq<u8>, rk: Seq<u8>, st: Seq<u8>) -> Seq<u8>
    recommends
        inv_sbox.len() == 256,
        rk.len() == 16,
        st.len() == 16,
{
    Seq::new(16, |k: int| (inv_sbox[st[k] as int] ^ rk[k]) as u8)
}

/// What a fused middle round computes: looking every byte up in the
/// four keyed multiplication tables and combining them by the inverse
/// MixColumns pattern equals inverse SubBytes, AddRoundKey with that
/// round's key, then inverse MixColumns. The fusion is sound because
/// multiplication by a fixed coefficient distributes over XOR, so the
/// key's inverse MixColumns image can ride along in the x14 table.
pub proof fn lemma_fused_round_is_inverse_round(
    q: QuadTables,
    inv_sbox: Seq<u8>,
    rk: Seq<u8>,
    st: Seq<u8>,
    j: int,
)
    requires
        q.wf(),
        inv_sbox.len() == 256,
        rk.len() == 16,
        st.len() == 16,
        forall|k: int| 0 <= k < 16 ==> st[k] < 256,
        0 <= j < 16,
        forall|m: u8, k: int, x: int|
            (m == 9 || m == 11 || m == 13 || m == 14) && 0 <= k < 16 && 0 <= x < 256
                ==> #[trigger] q.entry(m, k, x) == (gmul_spec(m, inv_sbox[x]) ^ (if m == 14 {
                imc_byte_spec(rk, k)
            } else {
                0
            })) as u8,
    ensures
        quad_round_state(q, st)[j] == imc_byte_spec(sub_add_state(inv_sbox, rk, st), j),
{
    let row = j % 4;
    let col = j / 4;
    let j14 = byte_index(row, col);
    let j11 = byte_index((row + 1) % 4, col);
    let j13 = byte_index((row + 2) % 4, col);
    let j9 = byte_index((row + 3) % 4, col);
    let a14 = gmul_spec(14, inv_sbox[st[j14] as int]);
    let a11 = gmul_spec(11, inv_sbox[st[j11] as int]);
    let a13 = gmul_spec(13, inv_sbox[st[j13] as int]);
    let a9 = gmul_spec(9, inv_sbox[st[j9] as int]);
    let k14 = gmul_spec(14, rk[j14]);
    let k11 = gmul_spec(11, rk[j11]);
    let k13 = gmul_spec(13, rk[j13]);
    let k9 = gmul_spec(9, rk[j9]);
    lemma_gmul_linear(14, inv_sbox[st[j14] as int], rk[j14]);
    lemma_gmul_linear(11, inv_sbox[st[j11] as int], rk[j11]);
    lemma_gmul_linear(13, inv_sbox[st[j13] as int], rk[j13]);
    lemma_gmul_linear(9, inv_sbox[st[j9] as int], rk[j9]);
    assert(q.entry(14, j14, st[j14] as int) == (a14 ^ (k14 ^ k11 ^ k13 ^ k9)) as u8);
    assert(q.entry(11, j11, st[j11] as int) == (a11 ^ 0) as u8);
    assert(q.entry(13, j13, st[j13] as int) == (a13 ^ 0) as u8);
    assert(q.entry(9, j9, st[j9] as int) == (a9 ^ 0) as u8);
    assert((((a14 ^ (k14 ^ k11 ^ k13 ^ k9)) as u8) ^ ((a11 ^ 0) as u8) ^ ((a13 ^ 0) as u8) ^ ((a9
        ^ 0) as u8)) == (((a14 ^ k14) as u8) ^ ((a11 ^ k11) as u8) ^ ((a13 ^ k13) as u8) ^ ((a9
        ^ k9) as u8))) by (bit_vector);
}


/// AddRoundKey on a 16-byte state.
pub open spec fn add_key_state(st: Seq<u8>, rk: Seq<u8>) -> Seq<u8>
    recommends
        st.len() == 16,
        rk.len() == 16,
{
    Seq::new(16, |k: int| (st[k] ^ rk[k]) as u8)
}

/// Inverse SubBytes on a 16-byte state.
pub open spec fn inv_sub_state(inv_sbox: Seq<u8>, st: Seq<u8>) -> Seq<u8>
    recommends
        inv_sbox.len() == 256,
        st.len() == 16,
{
    Seq::new(16, |k: int| inv_sbox[st[k] as int])
}

/// Inverse MixColumns on a 16-byte state.
pub open spec fn imc_state(st: Seq<u8>) -> Seq<u8>
    recommends
        st.len() == 16,
{
    Seq::new(16, |j: int| imc_byte_spec(st, j))
}

/// The textbook inverse rounds `r` down to 1: each applies inverse
/// ShiftRows, inverse SubBytes, AddRoundKey with that round's key, and
/// inverse MixColumns.
pub open spec fn inv_rounds_state(
    inv_sbox: Seq<u8>,
    rks: Seq<Vec<u8>>,
    st: Seq<u8>,
    r: int,
) -> Seq<u8>
    recommends
        inv_sbox.len() == 256,
        rks.len() == 11,
        st.len() == 16,
        0 <= r <= 9,
    decreases r,
{
    if r <= 0 {
        st
    } else {
        inv_rounds_state(
            inv_sbox,
            rks,
            imc_state(add_key_state(inv_sub_state(inv_sbox, shift_state(st)), rks[r]@)),
            r - 1,
        )
    }
}

/// The textbook AES-128 inverse cipher: AddRoundKey with the last round
/// key, nine full inverse rounds, then the final inverse ShiftRows,
/// inverse SubBytes and AddRoundKey with the first round key.
pub open spec fn aes128_inv_cipher_spec(inv_sbox: Seq<u8>, rks: Seq<Vec<u8>>, ct: Seq<u8>) -> Seq<
    u8,
>
    recommends
        inv_sbox.len() == 256,
        rks.len() == 11,
        ct.len() == 16,
{
    add_key_state(
        inv_sub_state(
            inv_sbox,
            shift_state(inv_rounds_state(inv_sbox, rks, add_key_state(ct, rks[10]@), 9)),
        ),
        rks[0]@,
    )
}

/// What the fused entry round computes: looking the inverse-shifted
/// public ciphertext up in the four entry tables and combining by the
/// inverse MixColumns pattern equals the textbook sequence AddRoundKey
/// with the last round key, inverse ShiftRows, inverse SubBytes,
/// AddRoundKey with round key 9, inverse MixColumns.
pub proof fn lemma_fused_entry_is_first_round(
    q: QuadTables,
    inv_sbox: Seq<u8>,
    rk10: Seq<u8>,
    rk9: Seq<u8>,
    ct: Seq<u8>,
    j: int,
)
    requires
        q.wf(),
        inv_sbox.len() == 256,
        rk10.len() == 16,
        rk9.len() == 16,
        ct.len() == 16,
        0 <= j < 16,
        forall|m: u8, k: int, x: int|
            (m == 9 || m == 11 || m == 13 || m == 14) && 0 <= k < 16 && 0 <= x < 256
                ==> #[trigger] q.entry(m, k, x) == (gmul_spec(
                m,
                inv_sbox[((x as u8) ^ rk10[inv_shift_rows_src(k)]) as int],
            ) ^ (if m == 14 {
                imc_byte_spec(rk9, k)
            } else {
                0
            })) as u8,
    ensures
        quad_round_state(q, shift_state(ct))[j] == imc_byte_spec(
            add_key_state(inv_sub_state(inv_sbox, shift_state(add_key_state(ct, rk10))), rk9),
            j,
        ),
{
    let c1 = shift_state(ct);
    let subbed = inv_sub_state(inv_sbox, shift_state(add_key_state(ct, rk10)));
    assert forall|k: int| 0 <= k < 16 implies subbed[k] == inv_sbox[((c1[k] as u8) ^ rk10[
        inv_shift_rows_src(k)
    ]) as int] by {
        assert(shift_state(add_key_state(ct, rk10))[k] == add_key_state(ct, rk10)[
            inv_shift_rows_src(k)
        ]);
    }
    let row = j % 4;
    let col = j / 4;
    let j14 = byte_index(row, col);
    let j11 = byte_index((row + 1) % 4, col);
    let j13 = byte_index((row + 2) % 4, col);
    let j9 = byte_index((row + 3) % 4, col);
    let a14 = gmul_spec(14, subbed[j14]);
    let a11 = gmul_spec(11, subbed[j11]);
    let a13 = gmul_spec(13, subbed[j13]);
    let a9 = gmul_spec(9, subbed[j9]);
    let k14 = gmul_spec(14, rk9[j14]);
    let k11 = gmul_spec(11, rk9[j11]);
    let k13 = gmul_spec(13, rk9[j13]);
    let k9 = gmul_spec(9, rk9[j9]);
    lemma_gmul_linear(14, subbed[j14], rk9[j14]);
    lemma_gmul_linear(11, subbed[j11], rk9[j11]);
    lemma_gmul_linear(13, subbed[j13], rk9[j13]);
    lemma_gmul_linear(9, subbed[j9], rk9[j9]);
    assert(q.entry(14, j14, c1[j14] as int) == (a14 ^ (k14 ^ k11 ^ k13 ^ k9)) as u8);
    assert(q.entry(11, j11, c1[j11] as int) == (a11 ^ 0) as u8);
    assert(q.entry(13, j13, c1[j13] as int) == (a13 ^ 0) as u8);
    assert(q.entry(9, j9, c1[j9] as int) == (a9 ^ 0) as u8);
    assert((((a14 ^ (k14 ^ k11 ^ k13 ^ k9)) as u8) ^ ((a11 ^ 0) as u8) ^ ((a13 ^ 0) as u8) ^ ((a9
        ^ 0) as u8)) == (((a14 ^ k14) as u8) ^ ((a11 ^ k11) as u8) ^ ((a13 ^ k13) as u8) ^ ((a9
        ^ k9) as u8))) by (bit_vector);
}

/// The middle rounds of the fused pipeline, started on an already
/// shifted state, track the textbook inverse rounds: the pending
/// inverse ShiftRows commutes through every round.
pub proof fn lemma_middle_rounds_track_inverse_rounds(
    keys: AllRoundTables,
    inv_sbox: Seq<u8>,
    rks: Seq<Vec<u8>>,
    w: Seq<u8>,
    r: int,
)
    requires
        keys.wf(),
        inv_sbox.len() == 256,
        rks.len() == 11,
        forall|i: int| 0 <= i < 11 ==> (#[trigger] rks[i]).len() == 16,
        w.len() == 16,
        0 <= r <= 8,
        forall|i: int, m: u8, j: int, x: int|
            0 <= i < 8 && (m == 9 || m == 11 || m == 13 || m == 14) && 0 <= j < 16 && 0 <= x < 256
                ==> (#[trigger] keys.middle@[i].entry(m, j, x)) == (gmul_spec(m, inv_sbox[x]) ^ (
            if m == 14 {
                imc_byte_spec(rks[i + 1]@, j)
            } else {
                0
            })) as u8,
    ensures
        middle_rounds_state(keys, shift_state(w), r) == shift_state(
            inv_rounds_state(inv_sbox, rks, w, r),
        ),
    decreases r,
{
    if r > 0 {
        let q = keys.middle@[r - 1];
        let stepped = imc_state(add_key_state(inv_sub_state(inv_sbox, shift_state(w)), rks[r]@));
        assert forall|j: int| 0 <= j < 16 implies quad_round_state(q, shift_state(w))[j]
            == stepped[j] by {
            lemma_fused_round_is_inverse_round(q, inv_sbox, rks[r]@, shift_state(w), j);
            assert(sub_add_state(inv_sbox, rks[r]@, shift_state(w)) =~= add_key_state(
                inv_sub_state(inv_sbox, shift_state(w)),
                rks[r]@,
            ));
        }
        assert(quad_round_state(q, shift_state(w)) =~= stepped);
        lemma_middle_rounds_track_inverse_rounds(keys, inv_sbox, rks, stepped, r - 1);
        assert(middle_rounds_state(keys, shift_state(w), r) == middle_rounds_state(
            keys,
            shift_state(stepped),
            r - 1,
        ));
        assert(inv_rounds_state(inv_sbox, rks, w, r) == inv_rounds_state(
            inv_sbox,
            rks,
            stepped,
            r - 1,
        ));
    }
}

/// The round pipeline computes the AES-128 inverse cipher: with the
/// keyed tables built from the inverse S-box and the expanded round
/// keys, the byte-level result of the whole pipeline on any ciphertext
/// block is exactly the textbook decryption of that block.
pub proof fn lemma_pipeline_is_inverse_cipher(
    keys: AllRoundTables,
    inv_sbox: Seq<u8>,
    rks: Seq<Vec<u8>>,
    ct: Seq<u8>,
)
    requires
        keys.wf(),
        inv_sbox.len() == 256,
        rks.len() == 11,
        forall|i: int| 0 <= i < 11 ==> (#[trigger] rks[i]).len() == 16,
        ct.len() == 16,
        forall|m: u8, j: int, x: int|
            (m == 9 || m == 11 || m == 13 || m == 14) && 0 <= j < 16 && 0 <= x < 256
                ==> #[trigger] keys.initial.entry(m, j, x) == (gmul_spec(
                m,
                inv_sbox[((x as u8) ^ rks[10]@[inv_shift_rows_src(j)]) as int],
            ) ^ (if m == 14 {
                imc_byte_spec(rks[9]@, j)
            } else {
                0
            })) as u8,
        forall|i: int, m: u8, j: int, x: int|
            0 <= i < 8 && (m == 9 || m == 11 || m == 13 || m == 14) && 0 <= j < 16 && 0 <= x < 256
                ==> (#[trigger] keys.middle@[i].entry(m, j, x)) == (gmul_spec(m, inv_sbox[x]) ^ (
            if m == 14 {
                imc_byte_spec(rks[i + 1]@, j)
            } else {
                0
            })) as u8,
        forall|j: int, x: int|
            0 <= j < 16 && 0 <= x < 256 ==> (#[trigger] keys.last@[j]@[x]) == (inv_sbox[x]
                ^ rks[0]@[j]) as u8,
    ensures
        transcipher_bytes_spec(keys, ct) == aes128_inv_cipher_spec(inv_sbox, rks, ct),
{
    let c1 = shift_state(ct);
    let entry = imc_state(
        add_key_state(inv_sub_state(inv_sbox, shift_state(add_key_state(ct, rks[10]@))), rks[9]@),
    );
    assert forall|j: int| 0 <= j < 16 implies quad_round_state(keys.initial, c1)[j]
        == entry[j] by {
        lemma_fused_entry_is_first_round(keys.initial, inv_sbox, rks[10]@, rks[9]@, ct, j);
    }
    assert(quad_round_state(keys.initial, c1) =~= entry);
    assert(inv_rounds_state(inv_sbox, rks, add_key_state(ct, rks[10]@), 9) == inv_rounds_state(
        inv_sbox,
        rks,
        entry,
        8,
    ));
    lemma_middle_rounds_track_inverse_rounds(keys, inv_sbox, rks, entry, 8);
    let stm = middle_rounds_state(keys, shift_state(entry), 8);
    assert(stm == shift_state(inv_rounds_state(inv_sbox, rks, entry, 8)));
    let lhs = transcipher_bytes_spec(keys, ct);
    let rhs = aes128_inv_cipher_spec(inv_sbox, rks, ct);
    assert forall|j: int| 0 <= j < 16 implies lhs[j] == rhs[j] by {
        assert(lhs[j] == keys.last@[j]@[stm[j] as int]);
        assert(rhs[j] == (inv_sub_state(inv_sbox, stm)[j] ^ rks[0]@[j]) as u8);
    }
    assert(lhs =~= rhs);
}

fn quad_lookup_known(c1: &Vec<u8>, q: &QuadTables, poly_size: usize) -> (st: Vec<u8>)
    requires
        c1.len() == 16,
        q.wf(),
        poly_size % 256 == 0,
        256 <= poly_size <= 2048,
    ensures
        st.len() == 16,
        forall|j: int| 0 <= j < 16 ==> st@[j] == quad_round_state(*q, c1@)[j],
{
    let mut s9: Vec<u8> = Vec::new();
    let mut s11: Vec<u8> = Vec::new();
    let mut s13: Vec<u8> = Vec::new();
    let mut s14: Vec<u8> = Vec::new();
    let mut j: usize = 0;
    while j < 16
        invariant
            j <= 16,
            s9.len() == j,
            s11.len() == j,
            s13.len() == j,
            s14.len() == j,
            c1.len() == 16,
            q.wf(),
            poly_size % 256 == 0,
            256 <= poly_size <= 2048,
            forall|k: int| 0 <= k < j ==> s9@[k] == q.entry(9, k, c1@[k] as int),
            forall|k: int| 0 <= k < j ==> s11@[k] == q.entry(11, k, c1@[k] as int),
            forall|k: int| 0 <= k < j ==> s13@[k] == q.entry(13, k, c1@[k] as int),
            forall|k: int| 0 <= k < j ==> s14@[k] == q.entry(14, k, c1@[k] as int),
        decreases 16 - j,
    {
        s9.push(known_rotate_byte_lut(&q.t9[j], c1[j], poly_size));
        s11.push(known_rotate_byte_lut(&q.t11[j], c1[j], poly_size));
        s13.push(known_rotate_byte_lut(&q.t13[j], c1[j], poly_size));
        s14.push(known_rotate_byte_lut(&q.t14[j], c1[j], poly_size));
        j = j + 1;
    }
    let st: Vec<u8> = inv_mix_columns_precomp(&s14, &s11, &s13, &s9);
    proof {
        assert forall|k: int| 0 <= k < 16 implies st@[k] == quad_round_state(*q, c1@)[k] by {
            assert(st@[k] == inv_mix_byte(s14@, s11@, s13@, s9@, k));
        }
    }
    st
}

fn quad_lookup_rotated(state: &Vec<u8>, q: &QuadTables, poly_size: usize) -> (st: Vec<u8>)
    requires
        state.len() == 16,
        q.wf(),
        poly_size % 256 == 0,
        256 <= poly_size <= 2048,
    ensures
        st.len() == 16,
        forall|j: int| 0 <= j < 16 ==> st@[j] == quad_round_state(*q, state@)[j],
{
    let mut s9: Vec<u8> = Vec::new();
    let mut s11: Vec<u8> = Vec::new();
    let mut s13: Vec<u8> = Vec::new();
    let mut s14: Vec<u8> = Vec::new();
    let mut j: usize = 0;
    while j < 16
        invariant
            j <= 16,
            s9.len() == j,
            s11.len() == j,
            s13.len() == j,
            s14.len() == j,
            state.len() == 16,
            q.wf(),
            poly_size % 256 == 0,
            256 <= poly_size <= 2048,
            forall|k: int| 0 <= k < j ==> s9@[k] == q.entry(9, k, state@[k] as int),
            forall|k: int| 0 <= k < j ==> s11@[k] == q.entry(11, k, state@[k] as int),
            forall|k: int| 0 <= k < j ==> s13@[k] == q.entry(13, k, state@[k] as int),
            forall|k: int| 0 <= k < j ==> s14@[k] == q.entry(14, k, state@[k] as int),
        decreases 16 - j,
    {
        s9.push(evaluate_byte_lut(&q.t9[j], state[j], poly_size));
        s11.push(evaluate_byte_lut(&q.t11[j], state[j], poly_size));
        s13.push(evaluate_byte_lut(&q.t13[j], state[j], poly_size));
        s14.push(evaluate_byte_lut(&q.t14[j], state[j], poly_size));
        j = j + 1;
    }
    let st: Vec<u8> = inv_mix_columns_precomp(&s14, &s11, &s13, &s9);
    proof {
        assert forall|k: int| 0 <= k < 16 implies st@[k] == quad_round_state(*q, state@)[k] by {
            assert(st@[k] == inv_mix_byte(s14@, s11@, s13@, s9@, k));
        }
    }
    st
}

/// Runs the whole inverse round pipeline on one AES ciphertext block
/// and returns the 128 freshly encoded plaintext bits, most significant
/// bit of each byte first: the bit-order reversal of the last round is
/// already applied.
pub fn transcipher_block(ct: &Vec<u8>, keys: &AllRoundTables, poly_size: usize) -> (r: Vec<u64>)
    requires
        ct.len() == 16,
        keys.wf(),
        poly_size % 256 == 0,
        256 <= poly_size <= 2048,
    ensures
        r.len() == 128,
        forall|k: int|
            0 <= k < 128 ==> #[trigger] r@[k] == encode_bit_spec(
                bit_of(transcipher_bytes_spec(*keys, ct@)[k / 8], 7 - (k % 8)),
            ),
{
    let c1: Vec<u8> = inv_shift_rows(ct);
    proof {
        assert(c1@ =~= shift_state(ct@));
    }
    let mut state: Vec<u8> = quad_lookup_known(&c1, &keys.initial, poly_size);
    proof {
        assert(state@ =~= quad_round_state(keys.initial, c1@));
    }
    state = inv_shift_rows(&state);
    proof {
        assert(state@ =~= shift_state(quad_round_state(keys.initial, shift_state(ct@))));
    }
    let ghost st0: Seq<u8> = state@;
    let mut i: usize = 0;
    while i < 8
        invariant
            i <= 8,
            state.len() == 16,
            ct.len() == 16,
            keys.wf(),
            poly_size % 256 == 0,
            256 <= poly_size <= 2048,
            middle_rounds_state(*keys, st0, 8) == middle_rounds_state(*keys, state@, 8 - i),
        decreases 8 - i,
    {
        let round_tables_idx: usize = 7 - i;
        let ghost state_before: Seq<u8> = state@;
        state = quad_lookup_rotated(&state, &keys.middle[round_tables_idx], poly_size);
        proof {
            assert(state@ =~= quad_round_state(keys.middle@[7 - i as int], state_before));
        }
        state = inv_shift_rows(&state);
        proof {
            assert(state@ =~= shift_state(
                quad_round_state(keys.middle@[7 - i as int], state_before),
            ));
            assert(middle_rounds_state(*keys, state_before, 8 - i as int) == middle_rounds_state(
                *keys,
                state@,
                8 - i as int - 1,
            ));
        }
        i = i + 1;
    }
    proof {
        assert(middle_rounds_state(*keys, state@, 0) == state@);
    }
    let mut out_bytes: Vec<u8> = Vec::new();
    let mut j: usize = 0;
    while j < 16
        invariant
            j <= 16,
            out_bytes.len() == j,
            state.len() == 16,
            keys.wf(),
            poly_size % 256 == 0,
            256 <= poly_size <= 2048,
            forall|k: int| 0 <= k < j ==> out_bytes@[k] == keys.last@[k]@[state@[k] as int],
        decreases 16 - j,
    {
        out_bytes.push(evaluate_byte_lut(&keys.last[j], state[j], poly_size));
        j = j + 1;
    }
    proof {
        assert forall|k: int| 0 <= k < 16 implies out_bytes@[k] == transcipher_bytes_spec(
            *keys,
            ct@,
        )[k] by {}
    }
    let mut r: Vec<u64> = Vec::new();
    let mut j2: usize = 0;
    while j2 < 16
        invariant
            j2 <= 16,
            r.len() == 8 * j2,
            out_bytes.len() == 16,
            forall|k: int| 0 <= k < 16 ==> out_bytes@[k] == transcipher_bytes_spec(*keys, ct@)[k],
            forall|k: int|
                0 <= k < 8 * j2 ==> #[trigger] r@[k] == encode_bit_spec(
                    bit_of(transcipher_bytes_spec(*keys, ct@)[k / 8], 7 - (k % 8)),
                ),
        decreases 16 - j2,
    {
        let v: u8 = out_bytes[j2];
        let mut b: usize = 0;
        while b < 8
            invariant
                b <= 8,
                j2 < 16,
                r.len() == 8 * j2 + b,
                v == out_bytes@[j2 as int],
                out_bytes.len() == 16,
                forall|k: int| 0 <= k < 16 ==> out_bytes@[k] == transcipher_bytes_spec(*keys, ct@)[k],
                forall|k: int|
                    0 <= k < 8 * j2 + b ==> #[trigger] r@[k] == encode_bit_spec(
                        bit_of(transcipher_bytes_spec(*keys, ct@)[k / 8], 7 - (k % 8)),
                    ),
            decreases 8 - b,
        {
            let sh: u8 = (7 - b) as u8;
            let bit: u8 = (v >> sh) & 1;
            proof {
                assert(((v >> sh) & 1) <= 1) by (bit_vector);
                assert((8 * j2 + b) / 8 == j2 && (8 * j2 + b) % 8 == b) by (nonlinear_arith)
                    requires
                        0 <= b < 8 && 0 <= j2,
                ;
            }
            r.push(encode_bit(bit));
            b = b + 1;
        }
        j2 = j2 + 1;
    }
    r
}


/// Builds the keyed tables for the given round keys and runs the whole
/// round pipeline: the 128 freshly encoded output bits carry, most
/// significant bit of each byte first, exactly the textbook AES-128
/// decryption of the block.
pub fn transcipher_with_round_keys(
    ct: &Vec<u8>,
    inv_sbox: &Vec<u8>,
    round_keys: &Vec<Vec<u8>>,
    poly_size: usize,
) -> (r: Vec<u64>)
    requires
        ct.len() == 16,
        inv_sbox.len() == 256,
        round_keys.len() == 11,
        forall|i: int| 0 <= i < 11 ==> (#[trigger] round_keys@[i]).len() == 16,
        poly_size % 256 == 0,
        256 <= poly_size <= 2048,
    ensures
        r.len() == 128,
        forall|k: int|
            0 <= k < 128 ==> #[trigger] r@[k] == encode_bit_spec(
                bit_of(aes128_inv_cipher_spec(inv_sbox@, round_keys@, ct@)[k / 8], 7 - (k % 8)),
            ),
{
    let tables: AllRoundTables = build_all_round_tables(inv_sbox, round_keys);
    proof {
        lemma_pipeline_is_inverse_cipher(tables, inv_sbox@, round_keys@, ct@);
    }
    transcipher_block(ct, &tables, poly_size)
}

} // verus!
