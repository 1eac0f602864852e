use vstd::prelude::*;
use crate::gf::gmul;
use crate::gf::gmul_spec;
use crate::state::byte_index;
use crate::state::inv_shift_rows;
use crate::state::inv_shift_rows_src;

verus! {

/// Inverse MixColumns applied to a plain 16-byte block, used to fold a
/// round key into the multiplication tables of its round.
pub open spec fn imc_byte_spec(rk: Seq<u8>, j: int) -> u8
    recommends
        rk.len() == 16,
        0 <= j < 16,
{
    let row = j % 4;
    let col = j / 4;
    (gmul_spec(14, rk[byte_index(row, col)]) ^ gmul_spec(11, rk[byte_index((row + 1) % 4, col)])
        ^ gmul_spec(13, rk[byte_index((row + 2) % 4, col)]) ^ gmul_spec(
        9,
        rk[byte_index((row + 3) % 4, col)],
    )) as u8
}

/// Inverse MixColumns on a plain 16-byte round key.
pub fn inv_mix_columns_key(rk: &Vec<u8>) -> (r: Vec<u8>)
    requires
        rk.len() == 16,
    ensures
        r.len() == 16,
        forall|j: int| 0 <= j < 16 ==> r@[j] == imc_byte_spec(rk@, j),
{
    let mut r: Vec<u8> = Vec::new();
    let mut j: usize = 0;
    while j < 16
        invariant
            j <= 16,
            r.len() == j,
            rk.len() == 16,
            forall|k: int| 0 <= k < j ==> r@[k] == imc_byte_spec(rk@, k),
        decreases 16 - j,
    {
        let row: usize = j % 4;
        let col: usize = j / 4;
        let b: u8 = gmul(14, rk[4 * col + row]) ^ gmul(11, rk[4 * col + (row + 1) % 4]) ^ gmul(
            13,
            rk[4 * col + (row + 2) % 4],
        ) ^ gmul(9, rk[4 * col + (row + 3) % 4]);
        assert(b == imc_byte_spec(rk@, j as int));
        r.push(b);
        j = j + 1;
    }
    r
}

/// The four keyed multiplication tables of one round, one 256-entry table
/// per multiplier and byte position.
pub struct QuadTables {
    pub t9: Vec<Vec<u8>>,
    pub t11: Vec<Vec<u8>>,
    pub t13: Vec<Vec<u8>>,
    pub t14: Vec<Vec<u8>>,
}

/// 16 byte-position tables of 256 entries each.
pub open spec fn wf_tables(t: Seq<Vec<u8>>) -> bool {
    t.len() == 16 && forall|j: int| 0 <= j < 16 ==> (#[trigger] t[j]).len() == 256
}

impl QuadTables {
    pub open spec fn wf(self) -> bool {
        wf_tables(self.t9@) && wf_tables(self.t11@) && wf_tables(self.t13@) && wf_tables(self.t14@)
    }

    /// Table entry for multiplier `m` at byte position `j` and input `x`.
    pub open spec fn entry(self, m: u8, j: int, x: int) -> u8
        recommends
            self.wf(),
            m == 9 || m == 11 || m == 13 || m == 14,
            0 <= j < 16,
            0 <= x < 256,
    {
        if m == 9 {
            self.t9@[j]@[x]
        } else if m == 11 {
            self.t11@[j]@[x]
        } else if m == 13 {
            self.t13@[j]@[x]
        } else {
            self.t14@[j]@[x]
        }
    }
}

fn build_table(inv_sbox: &Vec<u8>, m: u8, key_in: u8, key_out: u8) -> (t: Vec<u8>)
    requires
        inv_sbox.len() == 256,
        m == 9 || m == 11 || m == 13 || m == 14,
    ensures
        t.len() == 256,
        forall|x: int|
            0 <= x < 256 ==> t@[x] == (gmul_spec(m, inv_sbox@[((x as u8) ^ key_in) as int])
                ^ key_out) as u8,
{
    let mut t: Vec<u8> = Vec::new();
    let mut x: usize = 0;
    while x < 256
        invariant
            x <= 256,
            t.len() == x,
            inv_sbox.len() == 256,
            m == 9 || m == 11 || m == 13 || m == 14,
            forall|k: int|
                0 <= k < x ==> t@[k] == (gmul_spec(m, inv_sbox@[((k as u8) ^ key_in) as int])
                    ^ key_out) as u8,
        decreases 256 - x,
    {
        let idx: u8 = (x as u8) ^ key_in;
        let e: u8 = gmul(m, inv_sbox[idx as usize]) ^ key_out;
        t.push(e);
        x = x + 1;
    }
    t
}

fn build_quad(inv_sbox: &Vec<u8>, key_in: &Vec<u8>, key_out: &Vec<u8>) -> (q: QuadTables)
    requires
        inv_sbox.len() == 256,
        key_in.len() == 16,
        key_out.len() == 16,
    ensures
        q.wf(),
        forall|m: u8, j: int, x: int|
            (m == 9 || m == 11 || m == 13 || m == 14) && 0 <= j < 16 && 0 <= x < 256
                ==> #[trigger] q.entry(m, j, x) == (gmul_spec(
                m,
                inv_sbox@[((x as u8) ^ key_in@[j]) as int],
            ) ^ (if m == 14 {
                key_out@[j]
            } else {
                0
            })) as u8,
{
    let mut t9: Vec<Vec<u8>> = Vec::new();
    let mut t11: Vec<Vec<u8>> = Vec::new();
    let mut t13: Vec<Vec<u8>> = Vec::new();
    let mut t14: Vec<Vec<u8>> = Vec::new();
    let mut j: usize = 0;
    while j < 16
        invariant
            j <= 16,
            t9.len() == j,
            t11.len() == j,
            t13.len() == j,
            t14.len() == j,
            inv_sbox.len() == 256,
            key_in.len() == 16,
            key_out.len() == 16,
            forall|k: int, x: int|
                0 <= k < j && 0 <= x < 256 ==> (#[trigger] t9@[k]@[x]) == (gmul_spec(
                    9,
                    inv_sbox@[((x as u8) ^ key_in@[k]) as int],
                ) ^ 0) as u8,
            forall|k: int, x: int|
                0 <= k < j && 0 <= x < 256 ==> (#[trigger] t11@[k]@[x]) == (gmul_spec(
                    11,
                    inv_sbox@[((x as u8) ^ key_in@[k]) as int],
                ) ^ 0) as u8,
            forall|k: int, x: int|
                0 <= k < j && 0 <= x < 256 ==> (#[trigger] t13@[k]@[x]) == (gmul_spec(
                    13,
                    inv_sbox@[((x as u8) ^ key_in@[k]) as int],
                ) ^ 0) as u8,
            forall|k: int, x: int|
                0 <= k < j && 0 <= x < 256 ==> (#[trigger] t14@[k]@[x]) == (gmul_spec(
                    14,
                    inv_sbox@[((x as u8) ^ key_in@[k]) as int],
                ) ^ key_out@[k]) as u8,
            forall|k: int| 0 <= k < j ==> (#[trigger] t9@[k]).len() == 256,
            forall|k: int| 0 <= k < j ==> (#[trigger] t11@[k]).len() == 256,
            forall|k: int| 0 <= k < j ==> (#[trigger] t13@[k]).len() == 256,
            forall|k: int| 0 <= k < j ==> (#[trigger] t14@[k]).len() == 256,
        decreases 16 - j,
    {
        t9.push(build_table(inv_sbox, 9, key_in[j], 0));
        t11.push(build_table(inv_sbox, 11, key_in[j], 0));
        t13.push(build_table(inv_sbox, 13, key_in[j], 0));
        t14.push(build_table(inv_sbox, 14, key_in[j], key_out[j]));
        j = j + 1;
    }
    let q = QuadTables { t9, t11, t13, t14 };
    proof {
        assert forall|m: u8, j2: int, x: int|
            (m == 9 || m == 11 || m == 13 || m == 14) && 0 <= j2 < 16 && 0 <= x
                < 256 implies #[trigger] q.entry(m, j2, x) == (gmul_spec(
            m,
            inv_sbox@[((x as u8) ^ key_in@[j2]) as int],
        ) ^ (if m == 14 {
            key_out@[j2]
        } else {
            0
        })) as u8 by {
            let v = gmul_spec(m, inv_sbox@[((x as u8) ^ key_in@[j2]) as int]);
            assert((v ^ 0) as u8 == v) by (bit_vector);
        }
    }
    q
}


fn build_last_table(inv_sbox: &Vec<u8>, key_out: u8) -> (t: Vec<u8>)
    requires
        inv_sbox.len() == 256,
    ensures
        t.len() == 256,
        forall|x: int| 0 <= x < 256 ==> t@[x] == (inv_sbox@[x] ^ key_out) as u8,
{
    let mut t: Vec<u8> = Vec::new();
    let mut x: usize = 0;
    while x < 256
        invariant
            x <= 256,
            t.len() == x,
            inv_sbox.len() == 256,
            forall|k: int| 0 <= k < x ==> t@[k] == (inv_sbox@[k] ^ key_out) as u8,
        decreases 256 - x,
    {
        t.push(inv_sbox[x] ^ key_out);
        x = x + 1;
    }
    t
}

/// The complete keyed table bundle for one AES key: the fused tables of
/// the entry round, one quadruple per middle round, and the final
/// substitution tables. Immutable once built; the pipeline only reads it.
pub struct AllRoundTables {
    pub initial: QuadTables,
    pub middle: Vec<QuadTables>,
    pub last: Vec<Vec<u8>>,
}

impl AllRoundTables {
    pub open spec fn wf(self) -> bool {
        &&& self.initial.wf()
        &&& self.middle.len() == 8
        &&& forall|i: int| 0 <= i < 8 ==> (#[trigger] self.middle@[i]).wf()
        &&& wf_tables(self.last@)
    }
}

/// Builds the keyed lookup tables for all rounds from the inverse S-box
/// and the 11 expanded round keys. The entry round's tables absorb the
/// last round key into the lookup argument and the inverse MixColumns
/// image of round key 9 into the x14 table; each middle round's tables
/// absorb that round key's inverse MixColumns image; the final tables
/// absorb round key 0 into the output.
pub fn build_all_round_tables(inv_sbox: &Vec<u8>, round_keys: &Vec<Vec<u8>>) -> (t: AllRoundTables)
    requires
        inv_sbox.len() == 256,
        round_keys.len() == 11,
        forall|i: int| 0 <= i < 11 ==> (#[trigger] round_keys@[i]).len() == 16,
    ensures
        t.wf(),
        forall|m: u8, j: int, x: int|
            (m == 9 || m == 11 || m == 13 || m == 14) && 0 <= j < 16 && 0 <= x < 256
                ==> #[trigger] t.initial.entry(m, j, x) == (gmul_spec(
                m,
                inv_sbox@[((x as u8) ^ round_keys@[10]@[inv_shift_rows_src(j)]) as int],
            ) ^ (if m == 14 {
                imc_byte_spec(round_keys@[9]@, j)
            } else {
                0
            })) as u8,
        forall|i: int, m: u8, j: int, x: int|
            0 <= i < 8 && (m == 9 || m == 11 || m == 13 || m == 14) && 0 <= j < 16 && 0 <= x < 256
                ==> (#[trigger] t.middle@[i].entry(m, j, x)) == (gmul_spec(m, inv_sbox@[x]) ^ (
            if m == 14 {
                imc_byte_spec(round_keys@[i + 1]@, j)
            } else {
                0
            })) as u8,
        forall|j: int, x: int|
            0 <= j < 16 && 0 <= x < 256 ==> (#[trigger] t.last@[j]@[x]) == (inv_sbox@[x]
                ^ round_keys@[0]@[j]) as u8,
{
    let rk10s: Vec<u8> = inv_shift_rows(&round_keys[10]);
    let imc9: Vec<u8> = inv_mix_columns_key(&round_keys[9]);
    let initial: QuadTables = build_quad(inv_sbox, &rk10s, &imc9);
    let mut zero_key: Vec<u8> = Vec::new();
    let mut z: usize = 0;
    while z < 16
        invariant
            z <= 16,
            zero_key.len() == z,
            forall|k: int| 0 <= k < z ==> zero_key@[k] == 0u8,
        decreases 16 - z,
    {
        zero_key.push(0);
        z = z + 1;
    }
    let mut middle: Vec<QuadTables> = Vec::new();
    let mut i: usize = 0;
    while i < 8
        invariant
            i <= 8,
            middle.len() == i,
            inv_sbox.len() == 256,
            round_keys.len() == 11,
            forall|k: int| 0 <= k < 11 ==> (#[trigger] round_keys@[k]).len() == 16,
            zero_key.len() == 16,
            forall|k: int| 0 <= k < 16 ==> zero_key@[k] == 0u8,
            forall|k: int| 0 <= k < i ==> (#[trigger] middle@[k]).wf(),
            forall|k: int, m: u8, j: int, x: int|
                0 <= k < i && (m == 9 || m == 11 || m == 13 || m == 14) && 0 <= j < 16 && 0 <= x
                    < 256 ==> (#[trigger] middle@[k].entry(m, j, x)) == (gmul_spec(
                    m,
                    inv_sbox@[x],
                ) ^ (if m == 14 {
                    imc_byte_spec(round_keys@[k + 1]@, j)
                } else {
                    0
                })) as u8,
        decreases 8 - i,
    {
        let imc_rk: Vec<u8> = inv_mix_columns_key(&round_keys[i + 1]);
        let q: QuadTables = build_quad(inv_sbox, &zero_key, &imc_rk);
        proof {
            assert forall|m: u8, j: int, x: int|
                (m == 9 || m == 11 || m == 13 || m == 14) && 0 <= j < 16 && 0 <= x
                    < 256 implies #[trigger] q.entry(m, j, x) == (gmul_spec(m, inv_sbox@[x]) ^ (
            if m == 14 {
                imc_byte_spec(round_keys@[i + 1]@, j)
            } else {
                0
            })) as u8 by {
                let xx = x as u8;
                assert((xx ^ 0) == xx) by (bit_vector);
            }
        }
        middle.push(q);
        i = i + 1;
    }
    let mut last: Vec<Vec<u8>> = Vec::new();
    let mut j: usize = 0;
    while j < 16
        invariant
            j <= 16,
            last.len() == j,
            inv_sbox.len() == 256,
            round_keys.len() == 11,
            forall|k: int| 0 <= k < 11 ==> (#[trigger] round_keys@[k]).len() == 16,
            forall|k: int| 0 <= k < j ==> (#[trigger] last@[k]).len() == 256,
            forall|k: int, x: int|
                0 <= k < j && 0 <= x < 256 ==> (#[trigger] last@[k]@[x]) == (inv_sbox@[x]
                    ^ round_keys@[0]@[k]) as u8,
        decreases 16 - j,
    {
        last.push(build_last_table(inv_sbox, round_keys[0][j]));
        j = j + 1;
    }
    AllRoundTables { initial, middle, last }
}


/// One entry of the AES round constant schedule.
pub open spec fn rcon_spec(r: int) -> u8 {
    if r == 1 {
        1
    } else if r == 2 {
        2
    } else if r == 3 {
        4
    } else if r == 4 {
        8
    } else if r == 5 {
        16
    } else if r == 6 {
        32
    } else if r == 7 {
        64
    } else if r == 8 {
        128
    } else if r == 9 {
        0x1b
    } else {
        0x36
    }
}

fn rcon(r: usize) -> (b: u8)
    requires
        1 <= r <= 10,
    ensures
        b == rcon_spec(r as int),
{
    if r == 1 {
        1
    } else if r == 2 {
        2
    } else if r == 3 {
        4
    } else if r == 4 {
        8
    } else if r == 5 {
        16
    } else if r == 6 {
        32
    } else if r == 7 {
        64
    } else if r == 8 {
        128
    } else if r == 9 {
        0x1b
    } else {
        0x36
    }
}

/// The first `w` 4-byte words of the AES-128 key schedule: every fourth
/// word mixes in the rotated, substituted previous word and a round
/// constant; the others XOR the previous word in directly.
pub open spec fn expand_words_spec(key: Seq<u8>, sbox: Seq<u8>, w: int) -> Seq<u8>
    recommends
        key.len() == 16,
        sbox.len() == 256,
        4 <= w <= 44,
    decreases w,
{
    if w <= 4 {
        key
    } else {
        let prev = expand_words_spec(key, sbox, w - 1);
        let j = w - 1;
        prev + Seq::new(
            4,
            |k: int|
                {
                    let a = prev[4 * (j - 4) + k];
                    if j % 4 == 0 {
                        let t = sbox[prev[4 * (j - 1) + ((k + 1) % 4)] as int];
                        if k == 0 {
                            (a ^ t ^ rcon_spec(j / 4)) as u8
                        } else {
                            (a ^ t) as u8
                        }
                    } else {
                        (a ^ prev[4 * (j - 1) + k]) as u8
                    }
                },
        )
    }
}

/// Expands a 16-byte AES key into the 11 round keys, given the forward
/// substitution table.
pub fn expand_key(key: &Vec<u8>, sbox: &Vec<u8>) -> (r: Vec<Vec<u8>>)
    requires
        key.len() == 16,
        sbox.len() == 256,
    ensures
        r.len() == 11,
        forall|i: int| 0 <= i < 11 ==> (#[trigger] r@[i]).len() == 16,
        forall|i: int, b: int|
            0 <= i < 11 && 0 <= b < 16 ==> (#[trigger] r@[i]@[b]) == expand_words_spec(
                key@,
                sbox@,
                44,
            )[16 * i + b],
{
    let mut flat: Vec<u8> = Vec::new();
    let mut c: usize = 0;
    while c < 16
        invariant
            c <= 16,
            flat.len() == c,
            key.len() == 16,
            forall|k: int| 0 <= k < c ==> flat@[k] == key@[k],
        decreases 16 - c,
    {
        flat.push(key[c]);
        c = c + 1;
    }
    proof {
        assert(flat@ =~= expand_words_spec(key@, sbox@, 4));
    }
    let mut j: usize = 4;
    while j < 44
        invariant
            4 <= j <= 44,
            key.len() == 16,
            sbox.len() == 256,
            flat.len() == 4 * j,
            flat@ == expand_words_spec(key@, sbox@, j as int),
        decreases 44 - j,
    {
        let ghost prev: Seq<u8> = flat@;
        let mut word: Vec<u8> = Vec::new();
        if j % 4 == 0 {
            let rc: u8 = rcon(j / 4);
            let mut k: usize = 0;
            while k < 4
                invariant
                    k <= 4,
                    word.len() == k,
                    4 <= j < 44,
                    j % 4 == 0,
                    key.len() == 16,
                    sbox.len() == 256,
                    flat.len() == 4 * j,
                    flat@ == prev,
                    rc == rcon_spec(j as int / 4),
                    forall|m: int|
                        0 <= m < k ==> word@[m] == (if m == 0 {
                            (prev[4 * (j - 4) + m] ^ sbox@[prev[4 * (j - 1) + ((m + 1) % 4)] as int]
                                ^ rcon_spec(j as int / 4)) as u8
                        } else {
                            (prev[4 * (j - 4) + m]
                                ^ sbox@[prev[4 * (j - 1) + ((m + 1) % 4)] as int]) as u8
                        }),
                decreases 4 - k,
            {
                let a: u8 = flat[4 * (j - 4) + k];
                let t: u8 = sbox[flat[4 * (j - 1) + (k + 1) % 4] as usize];
                if k == 0 {
                    word.push(a ^ t ^ rc);
                } else {
                    word.push(a ^ t);
                }
                k = k + 1;
            }
        } else {
            let mut k: usize = 0;
            while k < 4
                invariant
                    k <= 4,
                    word.len() == k,
                    4 <= j < 44,
                    j % 4 != 0,
                    key.len() == 16,
                    sbox.len() == 256,
                    flat.len() == 4 * j,
                    flat@ == prev,
                    forall|m: int|
                        0 <= m < k ==> word@[m] == (prev[4 * (j - 4) + m] ^ prev[4 * (j - 1)
                            + m]) as u8,
                decreases 4 - k,
            {
                let a: u8 = flat[4 * (j - 4) + k];
                let b: u8 = flat[4 * (j - 1) + k];
                word.push(a ^ b);
                k = k + 1;
            }
        }
        let mut k2: usize = 0;
        while k2 < 4
            invariant
                k2 <= 4,
                word.len() == 4,
                flat.len() == 4 * j + k2,
                4 <= j < 44,
                forall|m: int| 0 <= m < 4 * j ==> flat@[m] == prev[m],
                prev.len() == 4 * j,
                forall|m: int| 0 <= m < k2 ==> flat@[4 * j + m] == word@[m],
            decreases 4 - k2,
        {
            flat.push(word[k2]);
            k2 = k2 + 1;
        }
        proof {
            let jj = j as int;
            let nxt = expand_words_spec(key@, sbox@, jj + 1);
            let pr = expand_words_spec(key@, sbox@, jj);
            assert(pr == prev);
            assert(nxt.len() == 4 * jj + 4);
            assert forall|m: int| 0 <= m < 4 * jj + 4 implies flat@[m] == nxt[m] by {
                if m < 4 * jj {
                    assert(nxt[m] == pr[m]);
                    assert(flat@[m] == prev[m]);
                } else {
                    let mm = m - 4 * jj;
                    assert(flat@[m] == word@[mm]);
                    if jj % 4 == 0 {
                        assert(nxt[m] == (if mm == 0 {
                            (pr[4 * (jj - 4) + mm] ^ sbox@[pr[4 * (jj - 1) + ((mm + 1) % 4)] as int]
                                ^ rcon_spec(jj / 4)) as u8
                        } else {
                            (pr[4 * (jj - 4) + mm]
                                ^ sbox@[pr[4 * (jj - 1) + ((mm + 1) % 4)] as int]) as u8
                        }));
                    } else {
                        assert(nxt[m] == (pr[4 * (jj - 4) + mm] ^ pr[4 * (jj - 1) + mm]) as u8);
                    }
                }
            }
            assert(flat@ =~= nxt);
        }
        j = j + 1;
    }
    let mut r: Vec<Vec<u8>> = Vec::new();
    let mut i: usize = 0;
    while i < 11
        invariant
            i <= 11,
            r.len() == i,
            flat.len() == 176,
            flat@ == expand_words_spec(key@, sbox@, 44),
            forall|m: int| 0 <= m < i ==> (#[trigger] r@[m]).len() == 16,
            forall|m: int, b: int|
                0 <= m < i && 0 <= b < 16 ==> (#[trigger] r@[m]@[b]) == flat@[16 * m + b],
        decreases 11 - i,
    {
        let mut rk: Vec<u8> = Vec::new();
        let mut b: usize = 0;
        while b < 16
            invariant
                b <= 16,
                rk.len() == b,
                i < 11,
                flat.len() == 176,
                forall|m: int| 0 <= m < b ==> rk@[m] == flat@[16 * i as int + m],
            decreases 16 - b,
        {
            rk.push(flat[16 * i + b]);
            b = b + 1;
        }
        r.push(rk);
        i = i + 1;
    }
    r
}

} // verus!
