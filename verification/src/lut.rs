use vstd::prelude::*;

verus! {

/// Number of 256-entry bit-planes that fit side by side in one
/// accumulator polynomial of the given ring degree.
pub open spec fn num_par_lut_spec(poly_size: int) -> int {
    poly_size / 256
}

/// Number of accumulator polynomials needed to cover all 8 output bit
/// planes of a byte table when each accumulator packs `npl` planes.
pub open spec fn num_accumulators_spec(npl: int) -> int
    recommends
        npl >= 1,
{
    if 8int % npl == 0 {
        8int / npl
    } else {
        8int / npl + 1
    }
}

pub fn num_par_lut(poly_size: usize) -> (r: usize)
    requires
        poly_size >= 256,
    ensures
        r == num_par_lut_spec(poly_size as int),
        r >= 1,
{
    poly_size / 256
}

pub fn num_accumulators(npl: usize) -> (r: usize)
    requires
        npl >= 1,
    ensures
        r == num_accumulators_spec(npl as int),
        r >= 1,
{
    proof {
        assert(npl <= 8 ==> 8int / (npl as int) >= 1) by (nonlinear_arith)
            requires
                npl >= 1,
        ;
        assert(npl > 8 ==> 8int % (npl as int) == 8) by (nonlinear_arith)
            requires
                npl >= 1,
        ;
    }
    if 8 % npl == 0 {
        8 / npl
    } else {
        8 / npl + 1
    }
}

/// Packing invariant: however many planes one accumulator carries, the
/// accumulators for one byte table jointly cover all 8 output bit planes.
pub proof fn lemma_accumulators_cover_all_planes(npl: int)
    requires
        npl >= 1,
    ensures
        num_accumulators_spec(npl) * npl >= 8,
{
    if 8int % npl == 0 {
        assert((8int / npl) * npl == 8) by (nonlinear_arith)
            requires
                npl >= 1 && 8int % npl == 0,
        ;
    } else {
        assert((8int / npl + 1) * npl >= 8) by (nonlinear_arith)
            requires
                npl >= 1 && 8int % npl != 0,
        ;
    }
}

/// A ring of degree 2048 packs all 8 planes into a single accumulator; a
/// ring of degree 256 needs 8 accumulators of one plane each.
pub proof fn lemma_packing_counts()
    ensures
        num_par_lut_spec(2048) == 8,
        num_accumulators_spec(num_par_lut_spec(2048)) == 1,
        num_par_lut_spec(256) == 1,
        num_accumulators_spec(num_par_lut_spec(256)) == 8,
{
}


/// Bounds for walking a byte table's accumulators: with the accumulator
/// count that covers the 8 planes, every accumulator's first plane lies
/// below 8 and the whole set packs at most 7 + npl planes.
pub proof fn lemma_accumulator_index_bound(npl: int, nacc: int, acc_idx: int)
    requires
        npl >= 1,
        nacc == num_accumulators_spec(npl),
        0 <= acc_idx < nacc,
    ensures
        acc_idx * npl < 8,
        acc_idx * npl + npl <= 7 + npl,
        nacc * npl <= 7 + npl,
{
    if 8int % npl == 0 {
        assert(nacc * npl == 8) by (nonlinear_arith)
            requires
                npl >= 1 && 8int % npl == 0 && nacc == 8int / npl,
        ;
    } else {
        assert(nacc * npl == 8 - 8int % npl + npl && 1 <= 8int % npl) by (nonlinear_arith)
            requires
                npl >= 1 && 8int % npl != 0 && nacc == 8int / npl + 1,
        ;
    }
    assert(acc_idx * npl <= (nacc - 1) * npl && (nacc - 1) * npl == nacc * npl - npl)
        by (nonlinear_arith)
        requires
            0 <= acc_idx < nacc && npl >= 1,
    ;
}

/// Coefficient `i` of accumulator `acc_idx` for a byte table: bit
/// `lut_idx` of the table entry at `i mod 256`, scaled so that plane
/// `lut_idx` sits `lut_idx` bits below the top scale.
pub open spec fn acc_coeff_spec(
    table: Seq<u8>,
    acc_idx: int,
    npl: int,
    log_scale: int,
    i: int,
) -> u64
    recommends
        table.len() == 256,
        0 <= i,
        npl >= 1,
        acc_idx * npl + i / 256 <= log_scale <= 63,
{
    let lut_idx = acc_idx * npl + i / 256;
    (((((table[i % 256] as u64) >> (lut_idx as u64)) & 1) << ((log_scale - lut_idx) as u64)) as u64)
}

/// Builds the coefficient list of one accumulator polynomial for a byte
/// table, packing `npl` output bit planes in disjoint 256-coefficient
/// windows.
pub fn accumulator_coeffs(
    table: &Vec<u8>,
    acc_idx: usize,
    npl: usize,
    log_scale: usize,
    poly_size: usize,
) -> (r: Vec<u64>)
    requires
        table.len() == 256,
        npl >= 1,
        poly_size == 256 * npl,
        log_scale <= 63,
        acc_idx * npl + npl <= log_scale + 1,
    ensures
        r.len() == poly_size,
        forall|i: int|
            0 <= i < poly_size ==> r@[i] == acc_coeff_spec(
                table@,
                acc_idx as int,
                npl as int,
                log_scale as int,
                i,
            ),
{
    let mut r: Vec<u64> = Vec::new();
    let mut i: usize = 0;
    while i < poly_size
        invariant
            i <= poly_size,
            r.len() == i,
            table.len() == 256,
            npl >= 1,
            poly_size == 256 * npl,
            log_scale <= 63,
            acc_idx * npl + npl <= log_scale + 1,
            forall|k: int|
                0 <= k < i ==> r@[k] == acc_coeff_spec(
                    table@,
                    acc_idx as int,
                    npl as int,
                    log_scale as int,
                    k,
                ),
        decreases poly_size - i,
    {
        proof {
            assert(i / 256 < npl) by (nonlinear_arith)
                requires
                    npl >= 1 && i < 256 * npl,
            ;
            assert(i % 256 < 256) by (nonlinear_arith);
        }
        let lut_idx: usize = acc_idx * npl + i / 256;
        let bit: u64 = ((table[i % 256] as u64) >> (lut_idx as u64)) & 1;
        let coeff: u64 = bit << ((log_scale - lut_idx) as u64);
        r.push(coeff);
        i = i + 1;
    }
    r
}

/// Two's-complement negation of a torus element.
pub open spec fn wneg(x: u64) -> u64 {
    ((0x1_0000_0000_0000_0000 - (x as int)) % 0x1_0000_0000_0000_0000) as u64
}

/// Negacyclic rotation: the coefficients of p(X) * X^(-d) in the ring
/// Z[X]/(X^N + 1). Coefficients that wrap around the top degree pick up
/// a sign, because X^N = -1 in this ring.
pub open spec fn monomial_div_spec(p: Seq<u64>, d: int) -> Seq<u64>
    recommends
        0 <= d <= p.len(),
{
    Seq::new(
        p.len(),
        |i: int|
            if i + d < p.len() {
                p[i + d]
            } else {
                wneg(p[i + d - p.len()])
            },
    )
}

/// Plaintext counterpart of the homomorphic monomial division applied to
/// an accumulator during the blind-rotation walk.
pub fn monomial_div(p: &Vec<u64>, d: usize) -> (r: Vec<u64>)
    requires
        d <= p.len(),
        p.len() <= 0x1000_0000,
    ensures
        r@ == monomial_div_spec(p@, d as int),
{
    let n: usize = p.len();
    let mut r: Vec<u64> = Vec::new();
    let mut i: usize = 0;
    while i < n
        invariant
            i <= n,
            n == p.len(),
            d <= n,
            n <= 0x1000_0000,
            r.len() == i,
            forall|k: int| 0 <= k < i ==> r@[k] == monomial_div_spec(p@, d as int)[k],
        decreases n - i,
    {
        if i + d < n {
            r.push(p[i + d]);
        } else {
            let x: u64 = p[i + d - n];
            r.push((0u64).wrapping_sub(x));
        }
        i = i + 1;
    }
    assert(r@ =~= monomial_div_spec(p@, d as int));
    r
}

/// Two successive negacyclic rotations compose additively as long as the
/// combined shift stays within one ring degree.
pub proof fn lemma_monomial_div_compose(p: Seq<u64>, a: int, b: int)
    requires
        0 <= a,
        0 <= b,
        a + b <= p.len(),
    ensures
        monomial_div_spec(monomial_div_spec(p, a), b) == monomial_div_spec(p, a + b),
{
    let n = p.len() as int;
    let q1 = monomial_div_spec(p, a);
    let lhs = monomial_div_spec(q1, b);
    let rhs = monomial_div_spec(p, a + b);
    assert forall|i: int| 0 <= i < n implies lhs[i] == rhs[i] by {
        if i + b < n {
            assert(lhs[i] == q1[i + b]);
        } else {
            assert(lhs[i] == wneg(q1[i + b - n]));
            assert(i + b - n + a < n);
        }
    }
    assert(lhs =~= rhs);
}

/// The full blind-rotation walk on plaintext coefficients: for each bit
/// of `v`, from least to most significant, the accumulator is rotated by
/// the bit's weight when the bit is set. The conditional blend that the
/// external product performs homomorphically is exactly this selection,
/// so the walk as a whole rotates the accumulator by `v`.
pub fn blind_rotate(acc: &Vec<u64>, v: u8) -> (r: Vec<u64>)
    requires
        acc.len() >= 256,
        acc.len() <= 0x1000_0000,
    ensures
        r@ == monomial_div_spec(acc@, v as int),
{
    let mut cur: Vec<u64> = Vec::new();
    let mut j: usize = 0;
    while j < acc.len()
        invariant
            j <= acc.len(),
            cur.len() == j,
            forall|k: int| 0 <= k < j ==> cur@[k] == acc@[k],
        decreases acc.len() - j,
    {
        cur.push(acc[j]);
        j = j + 1;
    }
    proof {
        assert(cur@ =~= acc@);
        assert(monomial_div_spec(acc@, 0) =~= acc@);
        assert(((v as u64) & (((1u64 << 0u64) - 1) as u64)) == 0) by (bit_vector);
    }
    let mut i: usize = 0;
    while i < 8
        invariant
            i <= 8,
            acc.len() >= 256,
            acc.len() <= 0x1000_0000,
            cur.len() == acc.len(),
            cur@ == monomial_div_spec(
                acc@,
                (((v as u64) & (((1u64 << (i as u64)) - 1) as u64)) as int),
            ),
        decreases 8 - i,
    {
        let bit: u64 = ((v as u64) >> (i as u64)) & 1;
        let d: usize = 1usize << (i as u32);
        proof {
            let vv = v as u64;
            let ii = i as u64;
            let m_lo: u64 = (vv & (((1u64 << ii) - 1) as u64)) as u64;
            let m_hi: u64 = (vv & (((1u64 << ((ii + 1) as u64)) - 1) as u64)) as u64;
            assert((((v as u64) >> (i as u64)) & 1) <= 1) by (bit_vector);
            assert(d == (1u64 << ii) && d <= 256) by (bit_vector)
                requires
                    ii < 8,
                    ii == i as u64,
                    d == 1usize << (i as u32),
            ;
            if bit == 1 {
                assert(m_hi == m_lo + (1u64 << ii) && m_lo + (1u64 << ii) <= 256) by (bit_vector)
                    requires
                        ii < 8,
                        vv < 256,
                        ((vv >> ii) & 1) == 1,
                        m_lo == (vv & (((1u64 << ii) - 1) as u64)) as u64,
                        m_hi == (vv & (((1u64 << ((ii + 1) as u64)) - 1) as u64)) as u64,
                ;
                lemma_monomial_div_compose(acc@, m_lo as int, (1u64 << ii) as int);
            } else {
                assert(m_hi == m_lo) by (bit_vector)
                    requires
                        ii < 8,
                        ((vv >> ii) & 1) == 0,
                        m_lo == (vv & (((1u64 << ii) - 1) as u64)) as u64,
                        m_hi == (vv & (((1u64 << ((ii + 1) as u64)) - 1) as u64)) as u64,
                ;
            }
        }
        if bit == 1 {
            cur = monomial_div(&cur, d);
        }
        i = i + 1;
    }
    proof {
        let vv = v as u64;
        assert((vv & (((1u64 << 8u64) - 1) as u64)) == vv) by (bit_vector)
            requires
                vv < 256,
        ;
    }
    cur
}


/// The low `g` bits of a byte, the planes already produced by the walk.
pub open spec fn low_mask_u8(g: int) -> u8
    recommends
        0 <= g <= 8,
{
    (((((1u16 << (g as u16)) - 1) as u16) & 0xff) as u8)
}

/// Caps a plane counter at the 8 planes a byte table has.
pub open spec fn min8(x: int) -> int {
    if x < 8 {
        x
    } else {
        8
    }
}

/// Composes two byte tables entrywise, as when a Galois multiplication
/// table is applied on top of a substitution table.
pub fn compose_tables(outer: &Vec<u8>, inner: &Vec<u8>) -> (r: Vec<u8>)
    requires
        outer.len() == 256,
        inner.len() == 256,
    ensures
        r.len() == 256,
        forall|i: int| 0 <= i < 256 ==> r@[i] == outer@[inner@[i] as int],
{
    let mut r: Vec<u8> = Vec::new();
    let mut i: usize = 0;
    while i < 256
        invariant
            i <= 256,
            r.len() == i,
            outer.len() == 256,
            inner.len() == 256,
            forall|k: int| 0 <= k < i ==> r@[k] == outer@[inner@[k] as int],
        decreases 256 - i,
    {
        r.push(outer[inner[i] as usize]);
        i = i + 1;
    }
    r
}

/// Evaluates a byte-to-byte table through the accumulator machinery: the
/// table is packed into accumulators at the top scale, each accumulator
/// is blind-rotated by the input byte, and one packed plane is sampled
/// per output bit at monomial degree plane * 256. Whatever the ring
/// degree, the assembled output equals the table entry for the input.
pub fn evaluate_byte_lut(table: &Vec<u8>, v: u8, poly_size: usize) -> (r: u8)
    requires
        table.len() == 256,
        poly_size % 256 == 0,
        256 <= poly_size <= 2048,
    ensures
        r == table@[v as int],
{
    let npl: usize = num_par_lut(poly_size);
    let nacc: usize = num_accumulators(npl);
    proof {
        assert(poly_size == 256 * (poly_size / 256)) by (nonlinear_arith)
            requires
                poly_size % 256 == 0 && poly_size >= 256,
        ;
        lemma_accumulators_cover_all_planes(npl as int);
    }
    let mut out: u8 = 0;
    proof {
        let tv = table@[v as int];
        assert((tv & low_mask_u8(0)) == 0) by (bit_vector);
    }
    let mut acc_idx: usize = 0;
    while acc_idx < nacc
        invariant
            acc_idx <= nacc,
            table.len() == 256,
            poly_size == 256 * npl,
            npl >= 1,
            npl <= 8,
            nacc == num_accumulators_spec(npl as int),
            nacc * npl >= 8,
            out == (table@[v as int] & low_mask_u8(min8(acc_idx * npl))),
        decreases nacc - acc_idx,
    {
        proof {
            lemma_accumulator_index_bound(npl as int, nacc as int, acc_idx as int);
        }
        let coeffs: Vec<u64> = accumulator_coeffs(table, acc_idx, npl, 63, poly_size);
        let rot: Vec<u64> = blind_rotate(&coeffs, v);
        let mut p: usize = 0;
        while p < npl && acc_idx * npl + p < 8
            invariant
                p <= npl,
                acc_idx * npl + p <= 8,
                acc_idx * npl < 8,
                table.len() == 256,
                poly_size == 256 * npl,
                npl >= 1,
                npl <= 8,
                rot@ == monomial_div_spec(coeffs@, v as int),
                coeffs.len() == poly_size,
                forall|i: int|
                    0 <= i < poly_size ==> coeffs@[i] == acc_coeff_spec(
                        table@,
                        acc_idx as int,
                        npl as int,
                        63,
                        i,
                    ),
                out == (table@[v as int] & low_mask_u8(min8(acc_idx * npl + p))),
            decreases npl - p,
        {
            let lut_idx: usize = acc_idx * npl + p;
            proof {
                assert(p * 256 + 256 <= poly_size) by (nonlinear_arith)
                    requires
                        p < npl && poly_size == 256 * npl,
                ;
                assert((p * 256 + (v as int)) / 256 == p && (p * 256 + (v as int)) % 256
                    == v as int) by (nonlinear_arith)
                    requires
                        0 <= (v as int) < 256 && p >= 0,
                ;
            }
            let sample: u64 = rot[p * 256];
            proof {
                assert(rot@[(p * 256) as int] == coeffs@[p * 256 + (v as int)]);
            }
            let bit: u64 = (sample >> ((63 - lut_idx) as u64)) & 1;
            let ghost out_before: u8 = out;
            out = out | ((bit as u8) << (lut_idx as u32));
            proof {
                let tv = table@[v as int];
                let li = lut_idx as u64;
                assert(out == (tv & low_mask_u8(li as int + 1))) by (bit_vector)
                    requires
                        li < 8,
                        sample == ((((tv as u64) >> li) & 1) << ((63 - li) as u64)) as u64,
                        out_before == (tv & low_mask_u8(li as int)),
                        out == out_before | ((((sample >> ((63 - li) as u64)) & 1) as u8) << (
                        li as u32)),
                ;
            }
            p = p + 1;
        }
        proof {
            assert(min8((acc_idx + 1) * npl) == min8(acc_idx * npl + p)) by (nonlinear_arith)
                requires
                    npl >= 1,
                    p <= npl,
                    acc_idx >= 0,
                    p == npl || acc_idx * npl + p == 8,
            ;
        }
        acc_idx = acc_idx + 1;
    }
    proof {
        let tv = table@[v as int];
        assert((tv & low_mask_u8(8)) == tv) by (bit_vector);
    }
    out
}


/// Table lookup for a public input byte: no blind rotation is needed,
/// the packed plane is sampled directly at monomial degree
/// plane * 256 + input. The result equals the table entry, as for the
/// rotated walk.
pub fn known_rotate_byte_lut(table: &Vec<u8>, v: u8, poly_size: usize) -> (r: u8)
    requires
        table.len() == 256,
        poly_size % 256 == 0,
        256 <= poly_size <= 2048,
    ensures
        r == table@[v as int],
{
    let npl: usize = num_par_lut(poly_size);
    let nacc: usize = num_accumulators(npl);
    proof {
        assert(poly_size == 256 * (poly_size / 256)) by (nonlinear_arith)
            requires
                poly_size % 256 == 0 && poly_size >= 256,
        ;
        lemma_accumulators_cover_all_planes(npl as int);
    }
    let mut out: u8 = 0;
    proof {
        let tv = table@[v as int];
        assert((tv & low_mask_u8(0)) == 0) by (bit_vector);
    }
    let mut acc_idx: usize = 0;
    while acc_idx < nacc
        invariant
            acc_idx <= nacc,
            table.len() == 256,
            poly_size == 256 * npl,
            npl >= 1,
            npl <= 8,
            nacc == num_accumulators_spec(npl as int),
            nacc * npl >= 8,
            out == (table@[v as int] & low_mask_u8(min8(acc_idx * npl))),
        decreases nacc - acc_idx,
    {
        proof {
            lemma_accumulator_index_bound(npl as int, nacc as int, acc_idx as int);
        }
        let coeffs: Vec<u64> = accumulator_coeffs(table, acc_idx, npl, 63, poly_size);
        let mut p: usize = 0;
        while p < npl && acc_idx * npl + p < 8
            invariant
                p <= npl,
                acc_idx * npl + p <= 8,
                acc_idx * npl < 8,
                table.len() == 256,
                poly_size == 256 * npl,
                npl >= 1,
                npl <= 8,
                coeffs.len() == poly_size,
                forall|i: int|
                    0 <= i < poly_size ==> coeffs@[i] == acc_coeff_spec(
                        table@,
                        acc_idx as int,
                        npl as int,
                        63,
                        i,
                    ),
                out == (table@[v as int] & low_mask_u8(min8(acc_idx * npl + p))),
            decreases npl - p,
        {
            let lut_idx: usize = acc_idx * npl + p;
            proof {
                assert(p * 256 + 256 <= poly_size) by (nonlinear_arith)
                    requires
                        p < npl && poly_size == 256 * npl,
                ;
                assert((p * 256 + (v as int)) / 256 == p && (p * 256 + (v as int)) % 256
                    == v as int) by (nonlinear_arith)
                    requires
                        0 <= (v as int) < 256 && p >= 0,
                ;
            }
            let sample: u64 = coeffs[p * 256 + (v as usize)];
            let bit: u64 = (sample >> ((63 - lut_idx) as u64)) & 1;
            let ghost out_before: u8 = out;
            out = out | ((bit as u8) << (lut_idx as u32));
            proof {
                let tv = table@[v as int];
                let li = lut_idx as u64;
                assert(out == (tv & low_mask_u8(li as int + 1))) by (bit_vector)
                    requires
                        li < 8,
                        sample == ((((tv as u64) >> li) & 1) << ((63 - li) as u64)) as u64,
                        out_before == (tv & low_mask_u8(li as int)),
                        out == out_before | ((((sample >> ((63 - li) as u64)) & 1) as u8) << (
                        li as u32)),
                ;
            }
            p = p + 1;
        }
        proof {
            assert(min8((acc_idx + 1) * npl) == min8(acc_idx * npl + p)) by (nonlinear_arith)
                requires
                    npl >= 1,
                    p <= npl,
                    acc_idx >= 0,
                    p == npl || acc_idx * npl + p == 8,
            ;
        }
        acc_idx = acc_idx + 1;
    }
    proof {
        let tv = table@[v as int];
        assert((tv & low_mask_u8(8)) == tv) by (bit_vector);
    }
    out
}

} // verus!
