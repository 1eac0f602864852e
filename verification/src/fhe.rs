use vstd::prelude::*;
use tfhe::core_crypto::prelude::LweCiphertext;
use tfhe::core_crypto::prelude::GlweCiphertext;
use tfhe::core_crypto::prelude::LweSecretKey;
use tfhe::core_crypto::prelude::GlweSecretKey;
use tfhe::core_crypto::prelude::encrypt_glwe_ciphertext;
use tfhe::core_crypto::prelude::new_seeder;
use tfhe::core_crypto::prelude::EncryptionRandomGenerator;
use tfhe::core_crypto::prelude::DefaultRandomGenerator;
use tfhe::core_crypto::prelude::TUniform;
use tfhe::core_crypto::prelude::PlaintextList;
use tfhe::core_crypto::prelude::Plaintext;
use tfhe::core_crypto::prelude::GlweSize;
use tfhe::core_crypto::prelude::LweSize;
use tfhe::core_crypto::prelude::MonomialDegree;
use tfhe::core_crypto::prelude::CiphertextModulus;
use tfhe::core_crypto::prelude::allocate_and_trivially_encrypt_new_glwe_ciphertext;
use tfhe::core_crypto::prelude::GgswCiphertextList;
use tfhe::core_crypto::prelude::FourierGgswCiphertext;
use tfhe::core_crypto::prelude::PolynomialSize;
use tfhe::core_crypto::prelude::DecompositionBaseLog;
use tfhe::core_crypto::prelude::DecompositionLevelCount;
use tfhe::core_crypto::prelude::convert_standard_ggsw_ciphertext_to_fourier;
use tfhe::core_crypto::fft_impl::fft64::crypto::ggsw::add_external_product_assign;
use tfhe::core_crypto::fft_impl::fft64::crypto::ggsw::cmux;
use tfhe::core_crypto::fft_impl::fft64::crypto::ggsw::cmux_scratch;
use tfhe::core_crypto::fft_impl::fft64::crypto::ggsw::add_external_product_assign_scratch;
use tfhe::core_crypto::prelude::Fft;
use tfhe::core_crypto::prelude::ComputationBuffers;
use tfhe::core_crypto::prelude::ContiguousEntityContainer;
use tfhe::core_crypto::prelude::extract_lwe_sample_from_glwe_ciphertext;
use tfhe::core_crypto::prelude::decrypt_lwe_ciphertext;
use tfhe::core_crypto::prelude::lwe_ciphertext_add_assign;
use tfhe::core_crypto::prelude::lwe_ciphertext_plaintext_add_assign;
use crate::workload::wadd;
use crate::lut::monomial_div;
use crate::lut::monomial_div_spec;

verus! {

/// An LWE ciphertext of the lattice library, held opaquely: its mask
/// coefficients followed by its body, over the native 64-bit modulus.
#[verifier::external_body]
pub struct LweCipher {
    inner: LweCiphertext<Vec<u64>>,
}

/// A GLWE ciphertext of the lattice library, held opaquely: the mask
/// polynomials followed by the body polynomial.
#[verifier::external_body]
pub struct GlweCipher {
    inner: GlweCiphertext<Vec<u64>>,
}

/// An LWE secret key of the lattice library, held opaquely.
#[verifier::external_body]
pub struct LweKey {
    inner: LweSecretKey<Vec<u64>>,
}

/// The raw coefficients of an LWE ciphertext: the mask followed by the
/// one body element.
pub uninterp spec fn lwe_data(ct: LweCipher) -> Seq<u64>;

/// Whether an LWE ciphertext uses the native power-of-two modulus.
pub uninterp spec fn lwe_modulus_native(ct: LweCipher) -> bool;

/// The raw coefficients of a GLWE ciphertext: the mask polynomials
/// followed by the body polynomial.
pub uninterp spec fn glwe_data(ct: GlweCipher) -> Seq<u64>;

/// The ring degree recorded in a GLWE ciphertext.
pub uninterp spec fn glwe_poly_size(ct: GlweCipher) -> int;

/// Whether a GLWE ciphertext uses the native power-of-two modulus.
pub uninterp spec fn glwe_modulus_native(ct: GlweCipher) -> bool;

/// The coefficients of an LWE secret key.
pub uninterp spec fn lwe_key_data(k: LweKey) -> Seq<u64>;

/// Subtraction of torus elements, wrapping at the native modulus.
pub open spec fn wsub(x: u64, y: u64) -> u64 {
    if x - y < 0 {
        ((x - y + 0x1_0000_0000_0000_0000) as u64)
    } else {
        ((x - y) as u64)
    }
}

/// Multiplication of torus elements, wrapping at the native modulus.
pub open spec fn wmul(x: u64, y: u64) -> u64 {
    (((x as nat) * (y as nat)) % 0x1_0000_0000_0000_0000nat) as u64
}

/// The wrapping dot product of the first `m` elements of two sequences,
/// folded from the left as the lattice library computes it.
pub open spec fn wdot_to(a: Seq<u64>, b: Seq<u64>, m: int) -> u64
    recommends
        0 <= m <= a.len(),
        m <= b.len(),
    decreases m,
{
    if m <= 0 {
        0u64
    } else {
        wadd(wdot_to(a, b, m - 1), wmul(a[m - 1], b[m - 1]))
    }
}

/// What decryption of an LWE ciphertext returns before decoding: the
/// body minus the dot product of the mask with the key.
pub open spec fn lwe_decrypt_spec(sk: Seq<u64>, ct: Seq<u64>) -> u64
    recommends
        ct.len() == sk.len() + 1,
{
    wsub(ct[ct.len() - 1], wdot_to(ct, sk, ct.len() - 1))
}

/// The coefficients of the LWE ciphertext that sample extraction at
/// monomial degree `nth` produces from a GLWE ciphertext with ring
/// degree `n`: the body picks coefficient `nth` of the body polynomial,
/// and each mask polynomial is reversed around the target degree with a
/// sign on the wrapped part.
pub open spec fn extract_lwe_spec(g: Seq<u64>, n: int, nth: int) -> Seq<u64>
    recommends
        n >= 1,
        0 <= nth < n,
        g.len() >= n,
{
    let klen = g.len() - n;
    Seq::new(
        (klen + 1) as nat,
        |i: int|
            if i < klen {
                let j = i / n;
                let t = i % n;
                if t <= nth {
                    g[j * n + (nth - t)]
                } else {
                    crate::lut::wneg(g[j * n + (n + nth - t)])
                }
            } else {
                g[klen + nth]
            },
    )
}

/// Elementwise wrapping addition of two coefficient lists.
pub open spec fn seq_wadd(a: Seq<u64>, b: Seq<u64>) -> Seq<u64>
    recommends
        a.len() == b.len(),
{
    Seq::new(a.len(), |i: int| wadd(a[i], b[i]))
}

/// Relies on tfhe's allocate_and_trivially_encrypt_new_glwe_ciphertext:
/// the mask polynomials of the fresh ciphertext are zero and the body
/// polynomial holds the plaintext list unchanged; the ring degree is the
/// plaintext count and the modulus is native.
#[verifier::external_body]
fn glwe_trivial_encrypt(coeffs: &Vec<u64>, glwe_size: usize) -> (r: GlweCipher)
    requires
        glwe_size >= 1,
        coeffs.len() >= 1,
    ensures
        glwe_data(r) == Seq::new(((glwe_size - 1) * coeffs@.len()) as nat, |i: int| 0u64)
            + coeffs@,
        glwe_poly_size(r) == coeffs@.len(),
        glwe_modulus_native(r),
{
    let pl = PlaintextList::from_container(coeffs.clone());
    let inner = allocate_and_trivially_encrypt_new_glwe_ciphertext(
        GlweSize(glwe_size),
        &pl,
        CiphertextModulus::new_native(),
    );
    GlweCipher { inner }
}

/// Relies on tfhe's extract_lwe_sample_from_glwe_ciphertext: the sample
/// at monomial degree `nth` becomes a fresh LWE ciphertext whose
/// coefficients are the rearrangement stated by `extract_lwe_spec`.
#[verifier::external_body]
fn extract_lwe_sample(glwe: &GlweCipher, nth: usize) -> (r: LweCipher)
    requires
        0 <= nth < glwe_poly_size(*glwe),
        glwe_modulus_native(*glwe),
    ensures
        lwe_data(r) == extract_lwe_spec(glwe_data(*glwe), glwe_poly_size(*glwe), nth as int),
        lwe_modulus_native(r),
{
    let n = glwe.inner.polynomial_size().0;
    let dim = glwe.inner.glwe_size().to_glwe_dimension().0 * n;
    let mut out = LweCiphertext::new(0u64, LweSize(dim + 1), glwe.inner.ciphertext_modulus());
    extract_lwe_sample_from_glwe_ciphertext(&glwe.inner, &mut out, MonomialDegree(nth));
    LweCipher { inner: out }
}

/// Relies on tfhe's decrypt_lwe_ciphertext: the body minus the wrapping
/// dot product of mask and key, at the native modulus.
#[verifier::external_body]
fn lwe_decrypt_raw(sk: &LweKey, ct: &LweCipher) -> (r: u64)
    requires
        lwe_data(*ct).len() == lwe_key_data(*sk).len() + 1,
        lwe_modulus_native(*ct),
    ensures
        r == lwe_decrypt_spec(lwe_key_data(*sk), lwe_data(*ct)),
{
    decrypt_lwe_ciphertext(&sk.inner, &ct.inner).0
}

/// Relies on tfhe's lwe_ciphertext_add_assign: elementwise wrapping
/// addition of the two coefficient lists.
#[verifier::external_body]
fn lwe_add(a: &LweCipher, b: &LweCipher) -> (r: LweCipher)
    requires
        lwe_data(*a).len() == lwe_data(*b).len(),
        lwe_modulus_native(*a),
        lwe_modulus_native(*b),
    ensures
        lwe_data(r) == seq_wadd(lwe_data(*a), lwe_data(*b)),
        lwe_modulus_native(r),
{
    let mut out = a.inner.clone();
    lwe_ciphertext_add_assign(&mut out, &b.inner);
    LweCipher { inner: out }
}

/// Relies on tfhe's lwe_ciphertext_plaintext_add_assign: the plaintext
/// is added, wrapping, to the body element alone.
#[verifier::external_body]
fn lwe_plaintext_add(a: &LweCipher, pt: u64) -> (r: LweCipher)
    requires
        lwe_data(*a).len() >= 1,
        lwe_modulus_native(*a),
    ensures
        lwe_data(r) == lwe_data(*a).update(lwe_data(*a).len() - 1, wadd(lwe_data(*a)[lwe_data(*a).len() - 1], pt)),
        lwe_modulus_native(r),
{
    let mut out = a.inner.clone();
    lwe_ciphertext_plaintext_add_assign(&mut out, Plaintext(pt));
    LweCipher { inner: out }
}

/// Relies on tfhe's LweSecretKey::from_container: the key holds exactly
/// the given coefficients. The container must not be empty.
#[verifier::external_body]
pub fn lwe_key_from_coeffs(coeffs: &Vec<u64>) -> (r: LweKey)
    requires
        coeffs.len() >= 1,
    ensures
        lwe_key_data(r) == coeffs@,
{
    LweKey { inner: LweSecretKey::from_container(coeffs.clone()) }
}

/// Relies on the container view of tfhe's LweCiphertext: hands the raw
/// coefficients out unchanged.
#[verifier::external_body]
pub fn lwe_to_coeffs(ct: &LweCipher) -> (r: Vec<u64>)
    ensures
        r@ == lwe_data(*ct),
{
    ct.inner.as_ref().to_vec()
}

/// Relies on tfhe's LweCiphertext::from_container at the native modulus:
/// the ciphertext holds exactly the given coefficients.
#[verifier::external_body]
pub fn lwe_from_coeffs(coeffs: &Vec<u64>) -> (r: LweCipher)
    requires
        coeffs.len() >= 2,
    ensures
        lwe_data(r) == coeffs@,
        lwe_modulus_native(r),
{
    LweCipher {
        inner: LweCiphertext::from_container(coeffs.clone(), CiphertextModulus::new_native()),
    }
}


/// A GLWE secret key of the lattice library, held opaquely.
#[verifier::external_body]
pub struct GlweKey {
    inner: GlweSecretKey<Vec<u64>>,
}

/// The coefficients of a GLWE secret key, one ring polynomial per mask
/// position.
pub uninterp spec fn glwe_key_data(k: GlweKey) -> Seq<u64>;

/// The ring degree recorded in a GLWE secret key.
pub uninterp spec fn glwe_key_poly_size(k: GlweKey) -> int;

/// Relies on tfhe's GlweSecretKey::from_container: the key holds
/// exactly the given coefficients at the given ring degree. The
/// container must be non-empty and a whole number of polynomials.
#[verifier::external_body]
pub fn glwe_key_from_coeffs(coeffs: &Vec<u64>, poly_size: usize) -> (r: GlweKey)
    requires
        poly_size >= 1,
        coeffs.len() >= 1,
        coeffs.len() % poly_size == 0,
    ensures
        glwe_key_data(r) == coeffs@,
        glwe_key_poly_size(r) == poly_size,
{
    GlweKey { inner: GlweSecretKey::from_container(coeffs.clone(), PolynomialSize(poly_size)) }
}

/// Coefficient `t` of the negacyclic product of two ring polynomials
/// of equal length, accumulated over the first `m` coefficients of the
/// left factor: partial products that pass the top degree wrap around
/// with a sign, because X^N = -1 in the ring.
pub open spec fn negacyclic_mul_coeff_to(p: Seq<u64>, q: Seq<u64>, t: int, m: int) -> u64
    recommends
        p.len() == q.len(),
        0 <= t < p.len(),
        0 <= m <= p.len(),
    decreases m,
{
    if m <= 0 {
        0u64
    } else {
        let u = m - 1;
        let acc = negacyclic_mul_coeff_to(p, q, t, m - 1);
        if u <= t {
            wadd(acc, wmul(p[u], q[t - u]))
        } else {
            wsub(acc, wmul(p[u], q[t + p.len() - u]))
        }
    }
}

/// Coefficient `t` of the summed negacyclic products of the first `j`
/// mask polynomials of a GLWE ciphertext with the matching key
/// polynomials.
pub open spec fn glwe_mask_key_coeff_to(g: Seq<u64>, s: Seq<u64>, n: int, t: int, j: int) -> u64
    recommends
        n >= 1,
        0 <= t < n,
        0 <= j,
        j * n <= s.len(),
        j * n <= g.len(),
    decreases j,
{
    if j <= 0 {
        0u64
    } else {
        wadd(
            glwe_mask_key_coeff_to(g, s, n, t, j - 1),
            negacyclic_mul_coeff_to(
                g.subrange((j - 1) * n, j * n),
                s.subrange((j - 1) * n, j * n),
                t,
                n,
            ),
        )
    }
}

/// What a GLWE ciphertext decrypts to under a key: each coefficient of
/// the body polynomial minus the matching coefficient of the summed
/// negacyclic mask-key products, wrapping at the native modulus.
pub open spec fn glwe_decrypt_spec(s: Seq<u64>, g: Seq<u64>, n: int) -> Seq<u64>
    recommends
        n >= 1,
        (s.len() as int) % n == 0,
        g.len() == s.len() + n,
{
    let k = (s.len() as int) / n;
    Seq::new(n as nat, |t: int| wsub(g[k * n + t], glwe_mask_key_coeff_to(g, s, n, t, k)))
}

/// Every element of a noise sequence has magnitude at most
/// 2^bound_log2, read as a wrapping torus value: it lies in the low
/// band up to the bound or in the matching high band below the modulus.
pub open spec fn noise_bounded(e: Seq<u64>, bound_log2: int) -> bool
    recommends
        0 <= bound_log2 <= 62,
{
    forall|i: int|
        0 <= i < e.len() ==> (#[trigger] e[i] <= (1u64 << (bound_log2 as u64))
            || e[i] >= ((0x1_0000_0000_0000_0000 - (((1u64 << (bound_log2 as u64)) as int))) as u64))
}

/// A ciphertext secret-encrypts the given coefficient list: it has the
/// key's dimension at the list's ring degree and the native modulus,
/// and it decrypts under the key to the coefficients plus a wrapping
/// noise sequence bounded by the encryption's distribution.
pub open spec fn encrypts_coeffs(
    ct: GlweCipher,
    key: GlweKey,
    coeffs: Seq<u64>,
    noise_bound_log2: int,
) -> bool {
    &&& glwe_data(ct).len() == glwe_key_data(key).len() + coeffs.len()
    &&& glwe_poly_size(ct) == coeffs.len()
    &&& glwe_modulus_native(ct)
    &&& exists|e: Seq<u64>|
        e.len() == coeffs.len() && #[trigger] noise_bounded(e, noise_bound_log2)
            && glwe_decrypt_spec(glwe_key_data(key), glwe_data(ct), coeffs.len() as int)
            == seq_wadd(coeffs, e)
}

/// Relies on tfhe's encrypt_glwe_ciphertext at the native modulus with
/// a TUniform noise distribution of the given bound, drawn from a
/// freshly seeded generator: the mask is filled uniformly at random,
/// the body becomes the plaintext plus one noise sample of magnitude at
/// most 2^noise_bound_log2 per coefficient plus the negacyclic mask-key
/// products, so decrypting the result under the key returns the
/// plaintext plus that bounded noise, wrapping. The mask and noise are
/// random; the contract states what holds of every outcome.
#[verifier::external_body]
fn glwe_secret_encrypt(sk: &GlweKey, coeffs: &Vec<u64>, noise_bound_log2: u32) -> (r: GlweCipher)
    requires
        glwe_key_poly_size(*sk) >= 1,
        coeffs.len() == glwe_key_poly_size(*sk),
        glwe_key_data(*sk).len() >= 1,
        (glwe_key_data(*sk).len() as int) % glwe_key_poly_size(*sk) == 0,
        noise_bound_log2 <= 62,
    ensures
        encrypts_coeffs(r, *sk, coeffs@, noise_bound_log2 as int),
{
    let n = sk.inner.polynomial_size();
    let size = sk.inner.glwe_dimension().to_glwe_size();
    let mut out = GlweCiphertext::new(0u64, size, n, CiphertextModulus::new_native());
    let pl = PlaintextList::from_container(coeffs.clone());
    let mut boxed_seeder = new_seeder();
    let seeder = boxed_seeder.as_mut();
    let mut generator =
        EncryptionRandomGenerator::<DefaultRandomGenerator>::new(seeder.seed(), seeder);
    encrypt_glwe_ciphertext(&sk.inner, &mut out, &pl, TUniform::new(noise_bound_log2), &mut generator);
    GlweCipher { inner: out }
}

/// The coefficient list of accumulator `acc_idx` for a byte table at
/// the given scale, as a sequence.
pub open spec fn acc_seq_spec(
    table: Seq<u8>,
    acc_idx: int,
    npl: int,
    log_scale: int,
    poly_size: int,
) -> Seq<u64> {
    Seq::new(
        poly_size as nat,
        |i: int| crate::lut::acc_coeff_spec(table, acc_idx, npl, log_scale, i),
    )
}

/// Builds the trivially encrypted accumulators that encode one byte
/// table: the public-table mode of the keyed accumulator generation.
pub fn trivial_lut_accumulators(table: &Vec<u8>, poly_size: usize, glwe_size: usize) -> (r: Vec<
    GlweCipher,
>)
    requires
        table.len() == 256,
        poly_size % 256 == 0,
        256 <= poly_size <= 2048,
        1 <= glwe_size <= 8,
    ensures
        r.len() == crate::lut::num_accumulators_spec(crate::lut::num_par_lut_spec(
            poly_size as int,
        )),
        forall|a: int|
            0 <= a < r.len() ==> glwe_data(#[trigger] r@[a]) == Seq::new(
                ((glwe_size - 1) * poly_size) as nat,
                |i: int| 0u64,
            ) + acc_seq_spec(table@, a, crate::lut::num_par_lut_spec(poly_size as int), 63, poly_size as int),
        forall|a: int| 0 <= a < r.len() ==> glwe_poly_size(#[trigger] r@[a]) == poly_size,
        forall|a: int| 0 <= a < r.len() ==> glwe_modulus_native(#[trigger] r@[a]),
{
    let npl: usize = crate::lut::num_par_lut(poly_size);
    let nacc: usize = crate::lut::num_accumulators(npl);
    proof {
        assert(poly_size == 256 * (poly_size / 256)) by (nonlinear_arith)
            requires
                poly_size % 256 == 0 && poly_size >= 256,
        ;
    }
    let mut r: Vec<GlweCipher> = Vec::new();
    let mut acc_idx: usize = 0;
    while acc_idx < nacc
        invariant
            acc_idx <= nacc,
            r.len() == acc_idx,
            table.len() == 256,
            poly_size == 256 * npl,
            npl >= 1,
            npl <= 8,
            1 <= glwe_size <= 8,
            nacc == crate::lut::num_accumulators_spec(npl as int),
            forall|a: int|
                0 <= a < acc_idx ==> glwe_data(#[trigger] r@[a]) == Seq::new(
                    ((glwe_size - 1) * poly_size) as nat,
                    |i: int| 0u64,
                ) + acc_seq_spec(table@, a, npl as int, 63, poly_size as int),
            forall|a: int| 0 <= a < acc_idx ==> glwe_poly_size(#[trigger] r@[a]) == poly_size,
            forall|a: int| 0 <= a < acc_idx ==> glwe_modulus_native(#[trigger] r@[a]),
        decreases nacc - acc_idx,
    {
        proof {
            crate::lut::lemma_accumulator_index_bound(npl as int, nacc as int, acc_idx as int);
        }
        let coeffs: Vec<u64> = crate::lut::accumulator_coeffs(table, acc_idx, npl, 63, poly_size);
        let g: GlweCipher = glwe_trivial_encrypt(&coeffs, glwe_size);
        proof {
            assert(coeffs@ =~= acc_seq_spec(table@, acc_idx as int, npl as int, 63, poly_size as int));
        }
        r.push(g);
        acc_idx = acc_idx + 1;
    }
    r
}

/// The lookup of the entry round on a whole block of public bytes: for
/// each of the 128 output bits, the matching accumulator is sampled at
/// the packed plane's window shifted by the input byte. No blind
/// rotation is involved because the input is public.
pub fn known_rotate_keyed_lut(
    input_cleartext: &Vec<u8>,
    vec_keyed_lut: &Vec<Vec<GlweCipher>>,
    poly_size: usize,
) -> (r: Vec<LweCipher>)
    requires
        input_cleartext.len() == 16,
        vec_keyed_lut.len() == 16,
        poly_size % 256 == 0,
        256 <= poly_size <= 2048,
        forall|j: int, a: int|
            0 <= j < 16 && 0 <= a < vec_keyed_lut@[j].len() ==> glwe_poly_size(
                #[trigger] vec_keyed_lut@[j]@[a],
            ) == poly_size,
        forall|j: int, a: int|
            0 <= j < 16 && 0 <= a < vec_keyed_lut@[j].len() ==> glwe_modulus_native(
                #[trigger] vec_keyed_lut@[j]@[a],
            ),
        forall|j: int|
            0 <= j < 16 ==> (#[trigger] vec_keyed_lut@[j]).len() * crate::lut::num_par_lut_spec(
                poly_size as int,
            ) >= 8,
    ensures
        r.len() == 128,
        forall|i: int|
            0 <= i < 128 ==> lwe_data(#[trigger] r@[i]) == extract_lwe_spec(
                glwe_data(
                    vec_keyed_lut@[i / 8]@[(i % 8) / crate::lut::num_par_lut_spec(poly_size as int)],
                ),
                poly_size as int,
                ((i % 8) % crate::lut::num_par_lut_spec(poly_size as int)) * 256
                    + input_cleartext@[i / 8] as int,
            ),
        forall|i: int| 0 <= i < 128 ==> lwe_modulus_native(#[trigger] r@[i]),
{
    let npl: usize = crate::lut::num_par_lut(poly_size);
    proof {
        assert(poly_size == 256 * (poly_size / 256)) by (nonlinear_arith)
            requires
                poly_size % 256 == 0 && poly_size >= 256,
        ;
    }
    let mut r: Vec<LweCipher> = Vec::new();
    let mut i: usize = 0;
    while i < 128
        invariant
            i <= 128,
            r.len() == i,
            input_cleartext.len() == 16,
            vec_keyed_lut.len() == 16,
            npl == crate::lut::num_par_lut_spec(poly_size as int),
            npl >= 1,
            poly_size == 256 * npl,
            256 <= poly_size <= 2048,
            forall|j: int, a: int|
                0 <= j < 16 && 0 <= a < vec_keyed_lut@[j].len() ==> glwe_poly_size(
                    #[trigger] vec_keyed_lut@[j]@[a],
                ) == poly_size,
            forall|j: int, a: int|
                0 <= j < 16 && 0 <= a < vec_keyed_lut@[j].len() ==> glwe_modulus_native(
                    #[trigger] vec_keyed_lut@[j]@[a],
                ),
            forall|j: int|
                0 <= j < 16 ==> (#[trigger] vec_keyed_lut@[j]).len() * (npl as int) >= 8,
            forall|k: int|
                0 <= k < i ==> lwe_data(#[trigger] r@[k]) == extract_lwe_spec(
                    glwe_data(vec_keyed_lut@[k / 8]@[(k % 8) / (npl as int)]),
                    poly_size as int,
                    ((k % 8) % (npl as int)) * 256 + input_cleartext@[k / 8] as int,
                ),
            forall|k: int| 0 <= k < i ==> lwe_modulus_native(#[trigger] r@[k]),
        decreases 128 - i,
    {
        let byte_idx: usize = i / 8;
        let bit_idx: usize = i % 8;
        let acc_idx: usize = bit_idx / npl;
        let lut_idx: usize = bit_idx % npl;
        let deg: usize = lut_idx * 256 + (input_cleartext[byte_idx] as usize);
        proof {
            assert(acc_idx < vec_keyed_lut@[byte_idx as int].len()) by (nonlinear_arith)
                requires
                    npl >= 1,
                    bit_idx < 8,
                    acc_idx == bit_idx / npl,
                    vec_keyed_lut@[byte_idx as int].len() * (npl as int) >= 8,
            ;
            assert(lut_idx * 256 + 256 <= poly_size) by (nonlinear_arith)
                requires
                    npl >= 1,
                    lut_idx < npl,
                    poly_size == 256 * npl,
            ;
        }
        let acc: &GlweCipher = &vec_keyed_lut[byte_idx][acc_idx];
        let lwe: LweCipher = extract_lwe_sample(acc, deg);
        r.push(lwe);
        i = i + 1;
    }
    r
}

/// Decryption of one encrypted bit with the rounding decode at the top
/// scale.
pub fn decrypt(lwe_sk: &LweKey, lwe_ctxt: &LweCipher) -> (r: u64)
    requires
        lwe_data(*lwe_ctxt).len() == lwe_key_data(*lwe_sk).len() + 1,
        lwe_modulus_native(*lwe_ctxt),
    ensures
        r == crate::encode::decode_bit_spec(lwe_decrypt_spec(lwe_key_data(*lwe_sk), lwe_data(*lwe_ctxt))),
{
    let raw: u64 = lwe_decrypt_raw(lwe_sk, lwe_ctxt);
    crate::encode::decode_bit(raw)
}

/// Decrypts and decodes a whole list of encrypted bits.
pub fn decrypt_decode_lwe_list(lwe_sk: &LweKey, ciphertext: &Vec<LweCipher>) -> (r: Vec<u64>)
    requires
        forall|i: int|
            0 <= i < ciphertext.len() ==> lwe_data(#[trigger] ciphertext@[i]).len() == lwe_key_data(
                *lwe_sk,
            ).len() + 1,
        forall|i: int| 0 <= i < ciphertext.len() ==> lwe_modulus_native(#[trigger] ciphertext@[i]),
    ensures
        r.len() == ciphertext.len(),
        forall|i: int|
            0 <= i < ciphertext.len() ==> r@[i] == crate::encode::decode_bit_spec(
                lwe_decrypt_spec(lwe_key_data(*lwe_sk), lwe_data(#[trigger] ciphertext@[i])),
            ),
{
    let mut r: Vec<u64> = Vec::new();
    let mut i: usize = 0;
    while i < ciphertext.len()
        invariant
            i <= ciphertext.len(),
            r.len() == i,
            forall|k: int|
                0 <= k < ciphertext.len() ==> lwe_data(#[trigger] ciphertext@[k]).len()
                    == lwe_key_data(*lwe_sk).len() + 1,
            forall|k: int|
                0 <= k < ciphertext.len() ==> lwe_modulus_native(#[trigger] ciphertext@[k]),
            forall|k: int|
                0 <= k < i ==> r@[k] == crate::encode::decode_bit_spec(
                    lwe_decrypt_spec(lwe_key_data(*lwe_sk), lwe_data(#[trigger] ciphertext@[k])),
                ),
        decreases ciphertext.len() - i,
    {
        r.push(decrypt(lwe_sk, &ciphertext[i]));
        i = i + 1;
    }
    r
}

/// What a 128-bit encrypted state decrypts and decodes to under a key,
/// position by position.
pub open spec fn decoded_state_spec(key: LweKey, result: Seq<LweCipher>) -> Seq<u64> {
    Seq::new(result.len(), |k: int| crate::encode::decode_bit_spec(
        lwe_decrypt_spec(lwe_key_data(key), lwe_data(result[k])),
    ))
}

/// Byte `i` of the decrypted, decoded and packed state.
pub open spec fn decoded_byte_spec(key: LweKey, result: Seq<LweCipher>, i: int) -> u8
    recommends
        result.len() == 128,
        0 <= i < 16,
{
    crate::state::byte_from_msb_bits(decoded_state_spec(key, result).subrange(8 * i, 8 * i + 8))
}

fn decode_state_bytes(result: &Vec<LweCipher>, key: &LweKey) -> (bytes: [u8; 16])
    requires
        result.len() == 128,
        forall|i: int|
            0 <= i < 128 ==> lwe_data(#[trigger] result@[i]).len() == lwe_key_data(*key).len() + 1,
        forall|i: int| 0 <= i < 128 ==> lwe_modulus_native(#[trigger] result@[i]),
    ensures
        forall|i: int| 0 <= i < 16 ==> bytes@[i] == #[trigger] decoded_byte_spec(*key, result@, i),
{
    let decoded: Vec<u64> = decrypt_decode_lwe_list(key, result);
    proof {
        assert(decoded@ =~= decoded_state_spec(*key, result@));
    }
    crate::state::post_process(&decoded)
}

/// Whether the transciphered state decrypts, decodes and packs to the
/// expected plaintext block.
pub fn check_transciphering_result(result: &Vec<LweCipher>, key: &LweKey, expected: &[u8; 16]) -> (r:
    bool)
    requires
        result.len() == 128,
        forall|i: int|
            0 <= i < 128 ==> lwe_data(#[trigger] result@[i]).len() == lwe_key_data(*key).len() + 1,
        forall|i: int| 0 <= i < 128 ==> lwe_modulus_native(#[trigger] result@[i]),
    ensures
        r == (forall|i: int|
            0 <= i < 16 ==> expected@[i] == #[trigger] decoded_byte_spec(*key, result@, i)),
{
    let bytes: [u8; 16] = decode_state_bytes(result, key);
    let mut ok: bool = true;
    let mut i: usize = 0;
    while i < 16
        invariant
            i <= 16,
            result.len() == 128,
            forall|k: int|
                0 <= k < 16 ==> bytes@[k] == #[trigger] decoded_byte_spec(*key, result@, k),
            ok == (forall|k: int| 0 <= k < i ==> expected@[k] == #[trigger] bytes@[k]),
        decreases 16 - i,
    {
        ok = ok && expected[i] == bytes[i];
        i = i + 1;
    }
    proof {
        if !ok {
            let k0 = choose|k: int| 0 <= k < 16 && expected@[k] != #[trigger] bytes@[k];
            assert(expected@[k0] != decoded_byte_spec(*key, result@, k0));
        }
    }
    ok
}

/// Whether the state after the chunk XOR-add decrypts to the XOR of
/// the message's two halves in its first eight bytes.
pub fn check_workload_1_result(result: &Vec<LweCipher>, key: &LweKey, message: &[u8; 16]) -> (r:
    bool)
    requires
        result.len() == 128,
        forall|i: int|
            0 <= i < 128 ==> lwe_data(#[trigger] result@[i]).len() == lwe_key_data(*key).len() + 1,
        forall|i: int| 0 <= i < 128 ==> lwe_modulus_native(#[trigger] result@[i]),
    ensures
        r == (forall|i: int|
            0 <= i < 8 ==> (message@[i] ^ message@[i + 8]) == #[trigger] decoded_byte_spec(
                *key,
                result@,
                i,
            )),
{
    let bytes: [u8; 16] = decode_state_bytes(result, key);
    let mut ok: bool = true;
    let mut i: usize = 0;
    while i < 8
        invariant
            i <= 8,
            result.len() == 128,
            forall|k: int|
                0 <= k < 16 ==> bytes@[k] == #[trigger] decoded_byte_spec(*key, result@, k),
            ok == (forall|k: int|
                0 <= k < i ==> (message@[k] ^ message@[k + 8]) == #[trigger] bytes@[k]),
        decreases 8 - i,
    {
        ok = ok && (message[i] ^ message[i + 8]) == bytes[i];
        i = i + 1;
    }
    proof {
        if !ok {
            let k0 = choose|k: int|
                0 <= k < 8 && (message@[k] ^ message@[k + 8]) != #[trigger] bytes@[k];
            assert((message@[k0] ^ message@[k0 + 8]) != decoded_byte_spec(*key, result@, k0));
        }
    }
    ok
}

/// Whether the state after the constant XOR decrypts to the bitwise
/// complement of the message.
pub fn check_workload_2_result(result: &Vec<LweCipher>, key: &LweKey, message: &[u8; 16]) -> (r:
    bool)
    requires
        result.len() == 128,
        forall|i: int|
            0 <= i < 128 ==> lwe_data(#[trigger] result@[i]).len() == lwe_key_data(*key).len() + 1,
        forall|i: int| 0 <= i < 128 ==> lwe_modulus_native(#[trigger] result@[i]),
    ensures
        r == (forall|i: int|
            0 <= i < 16 ==> (message@[i] ^ 0xff) == #[trigger] decoded_byte_spec(
                *key,
                result@,
                i,
            )),
{
    let bytes: [u8; 16] = decode_state_bytes(result, key);
    let mut ok: bool = true;
    let mut i: usize = 0;
    while i < 16
        invariant
            i <= 16,
            result.len() == 128,
            forall|k: int|
                0 <= k < 16 ==> bytes@[k] == #[trigger] decoded_byte_spec(*key, result@, k),
            ok == (forall|k: int| 0 <= k < i ==> (message@[k] ^ 0xff) == #[trigger] bytes@[k]),
        decreases 16 - i,
    {
        ok = ok && (message[i] ^ 0xff) == bytes[i];
        i = i + 1;
    }
    proof {
        if !ok {
            let k0 = choose|k: int| 0 <= k < 16 && (message@[k] ^ 0xff) != #[trigger] bytes@[k];
            assert((message@[k0] ^ 0xff) != decoded_byte_spec(*key, result@, k0));
        }
    }
    ok
}

/// Adds the second half of the encrypted bit list into the first half:
/// XOR of the halves at the message level.
pub fn workload_tiny_1(input: &mut Vec<LweCipher>)
    requires
        forall|i: int, j: int|
            0 <= i < old(input).len() && 0 <= j < old(input).len() ==> lwe_data(
                #[trigger] old(input)@[i],
            ).len() == lwe_data(#[trigger] old(input)@[j]).len(),
        forall|i: int| 0 <= i < old(input).len() ==> lwe_modulus_native(#[trigger] old(input)@[i]),
    ensures
        final(input).len() == old(input).len(),
        forall|i: int|
            0 <= i < old(input).len() / 2 ==> lwe_data(#[trigger] final(input)@[i]) == seq_wadd(
                lwe_data(old(input)@[i]),
                lwe_data(old(input)@[old(input).len() / 2 + i]),
            ),
        forall|i: int|
            old(input).len() / 2 <= i < old(input).len() ==> #[trigger] final(input)@[i] == old(
                input,
            )@[i],
        forall|i: int| 0 <= i < old(input).len() ==> lwe_modulus_native(#[trigger] final(input)@[i]),
{
    let mid: usize = input.len() / 2;
    let mut i: usize = 0;
    while i < mid
        invariant
            i <= mid,
            mid == old(input).len() / 2,
            input.len() == old(input).len(),
            forall|k: int, j: int|
                0 <= k < old(input).len() && 0 <= j < old(input).len() ==> lwe_data(
                    #[trigger] old(input)@[k],
                ).len() == lwe_data(#[trigger] old(input)@[j]).len(),
            forall|k: int|
                0 <= k < old(input).len() ==> lwe_modulus_native(#[trigger] old(input)@[k]),
            forall|k: int| i <= k < input.len() ==> #[trigger] input@[k] == old(input)@[k],
            forall|k: int|
                0 <= k < i ==> lwe_data(#[trigger] input@[k]) == seq_wadd(
                    lwe_data(old(input)@[k]),
                    lwe_data(old(input)@[mid + k]),
                ),
            forall|k: int| 0 <= k < i ==> lwe_modulus_native(#[trigger] input@[k]),
        decreases mid - i,
    {
        let s: LweCipher = lwe_add(&input[i], &input[mid + i]);
        input.set(i, s);
        i = i + 1;
    }
}

/// Adds the encoding of 1 to the body of every encrypted bit, flipping
/// every message bit.
pub fn workload_tiny_2(input: &mut Vec<LweCipher>)
    requires
        forall|i: int| 0 <= i < old(input).len() ==> lwe_data(#[trigger] old(input)@[i]).len() >= 1,
        forall|i: int| 0 <= i < old(input).len() ==> lwe_modulus_native(#[trigger] old(input)@[i]),
    ensures
        final(input).len() == old(input).len(),
        forall|i: int|
            0 <= i < old(input).len() ==> lwe_data(#[trigger] final(input)@[i]) == lwe_data(
                old(input)@[i],
            ).update(
                lwe_data(old(input)@[i]).len() - 1,
                wadd(
                    lwe_data(old(input)@[i])[lwe_data(old(input)@[i]).len() - 1],
                    0x8000_0000_0000_0000u64,
                ),
            ),
        forall|i: int| 0 <= i < old(input).len() ==> lwe_modulus_native(#[trigger] final(input)@[i]),
{
    let mut i: usize = 0;
    while i < input.len()
        invariant
            i <= input.len(),
            input.len() == old(input).len(),
            forall|k: int|
                0 <= k < old(input).len() ==> lwe_data(#[trigger] old(input)@[k]).len() >= 1,
            forall|k: int|
                0 <= k < old(input).len() ==> lwe_modulus_native(#[trigger] old(input)@[k]),
            forall|k: int| i <= k < input.len() ==> #[trigger] input@[k] == old(input)@[k],
            forall|k: int|
                0 <= k < i ==> lwe_data(#[trigger] input@[k]) == lwe_data(old(input)@[k]).update(
                    lwe_data(old(input)@[k]).len() - 1,
                    wadd(
                        lwe_data(old(input)@[k])[lwe_data(old(input)@[k]).len() - 1],
                        0x8000_0000_0000_0000u64,
                    ),
                ),
            forall|k: int| 0 <= k < i ==> lwe_modulus_native(#[trigger] input@[k]),
        decreases input.len() - i,
    {
        let s: LweCipher = lwe_plaintext_add(&input[i], 0x8000_0000_0000_0000u64);
        input.set(i, s);
        i = i + 1;
    }
}


/// A wrapping dot product over a zero prefix is zero.
pub proof fn lemma_wdot_zero_prefix(ct: Seq<u64>, sk: Seq<u64>, m: int)
    requires
        0 <= m <= ct.len(),
        m <= sk.len(),
        forall|i: int| 0 <= i < m ==> ct[i] == 0u64,
    ensures
        wdot_to(ct, sk, m) == 0u64,
    decreases m,
{
    if m > 0 {
        lemma_wdot_zero_prefix(ct, sk, m - 1);
        assert(ct[m - 1] == 0u64);
        assert(wmul(0u64, sk[m - 1]) == 0u64);
        assert(wadd(0u64, 0u64) == 0u64);
    }
}

/// The branch form of the wrapping addition equals addition modulo the
/// native modulus.
proof fn lemma_wadd_mod(x: u64, y: u64)
    ensures
        wadd(x, y) == ((((x as int) + (y as int)) % 0x1_0000_0000_0000_0000int) as u64),
{
    let m = 0x1_0000_0000_0000_0000int;
    let v = (x as int) + (y as int);
    if x + y > u64::MAX {
        vstd::arithmetic::div_mod::lemma_mod_multiples_vanish(1, v - m, m);
        vstd::arithmetic::div_mod::lemma_small_mod((v - m) as nat, m as nat);
    } else {
        vstd::arithmetic::div_mod::lemma_small_mod(v as nat, m as nat);
    }
}

/// The branch form of the wrapping subtraction equals subtraction
/// modulo the native modulus.
proof fn lemma_wsub_mod(x: u64, y: u64)
    ensures
        wsub(x, y) == ((((x as int) - (y as int)) % 0x1_0000_0000_0000_0000int) as u64),
{
    let m = 0x1_0000_0000_0000_0000int;
    let v = (x as int) - (y as int);
    if x - y < 0 {
        vstd::arithmetic::div_mod::lemma_mod_multiples_vanish(-1, v + m, m);
        vstd::arithmetic::div_mod::lemma_small_mod((v + m) as nat, m as nat);
    } else {
        vstd::arithmetic::div_mod::lemma_small_mod(v as nat, m as nat);
    }
}

/// The wrapping multiplication equals multiplication modulo the native
/// modulus.
proof fn lemma_wmul_mod(x: u64, y: u64)
    ensures
        wmul(x, y) == ((((x as int) * (y as int)) % 0x1_0000_0000_0000_0000int) as u64),
{
    assert((x as nat) * (y as nat) == ((x as int) * (y as int)) as nat) by (nonlinear_arith);
}

/// Multiplying a wrapping sum by a scalar distributes over the sum.
proof fn lemma_wadd_wmul_distributes(x: u64, y: u64, s: u64)
    ensures
        wmul(wadd(x, y), s) == wadd(wmul(x, s), wmul(y, s)),
{
    let m = 0x1_0000_0000_0000_0000int;
    let w = wadd(x, y);
    lemma_wadd_mod(x, y);
    lemma_wmul_mod(w, s);
    lemma_wmul_mod(x, s);
    lemma_wmul_mod(y, s);
    lemma_wadd_mod(wmul(x, s), wmul(y, s));
    vstd::arithmetic::div_mod::lemma_mul_mod_noop_left(
        (x as int) + (y as int),
        s as int,
        m,
    );
    assert(((x as int) + (y as int)) * (s as int) == (x as int) * (s as int) + (y as int) * (
    s as int)) by (nonlinear_arith);
    vstd::arithmetic::div_mod::lemma_add_mod_noop(
        (x as int) * (s as int),
        (y as int) * (s as int),
        m,
    );
}

/// Two wrapping sums can be re-bracketed pairwise.
proof fn lemma_wadd4_rearrange(a: u64, b: u64, c: u64, d: u64)
    ensures
        wadd(wadd(a, b), wadd(c, d)) == wadd(wadd(a, c), wadd(b, d)),
{
    let m = 0x1_0000_0000_0000_0000int;
    lemma_wadd_mod(a, b);
    lemma_wadd_mod(c, d);
    lemma_wadd_mod(a, c);
    lemma_wadd_mod(b, d);
    lemma_wadd_mod(wadd(a, b), wadd(c, d));
    lemma_wadd_mod(wadd(a, c), wadd(b, d));
    vstd::arithmetic::div_mod::lemma_add_mod_noop(
        (a as int) + (b as int),
        (c as int) + (d as int),
        m,
    );
    vstd::arithmetic::div_mod::lemma_add_mod_noop(
        (a as int) + (c as int),
        (b as int) + (d as int),
        m,
    );
}

/// Subtracting a wrapping sum from a wrapping sum splits pairwise.
proof fn lemma_wsub_wadd_rearrange(x1: u64, x2: u64, y1: u64, y2: u64)
    ensures
        wsub(wadd(x1, x2), wadd(y1, y2)) == wadd(wsub(x1, y1), wsub(x2, y2)),
{
    let m = 0x1_0000_0000_0000_0000int;
    lemma_wadd_mod(x1, x2);
    lemma_wadd_mod(y1, y2);
    lemma_wsub_mod(x1, y1);
    lemma_wsub_mod(x2, y2);
    lemma_wsub_mod(wadd(x1, x2), wadd(y1, y2));
    lemma_wadd_mod(wsub(x1, y1), wsub(x2, y2));
    vstd::arithmetic::div_mod::lemma_sub_mod_noop(
        (x1 as int) + (x2 as int),
        (y1 as int) + (y2 as int),
        m,
    );
    vstd::arithmetic::div_mod::lemma_add_mod_noop(
        (x1 as int) - (y1 as int),
        (x2 as int) - (y2 as int),
        m,
    );
}

/// The wrapping dot product is linear in its left argument.
pub proof fn lemma_wdot_linear(a: Seq<u64>, b: Seq<u64>, sk: Seq<u64>, m: int)
    requires
        0 <= m <= a.len(),
        a.len() == b.len(),
        m <= sk.len(),
    ensures
        wdot_to(seq_wadd(a, b), sk, m) == wadd(wdot_to(a, sk, m), wdot_to(b, sk, m)),
    decreases m,
{
    if m <= 0 {
        assert(wadd(0u64, 0u64) == 0u64);
    } else {
        lemma_wdot_linear(a, b, sk, m - 1);
        assert(seq_wadd(a, b)[m - 1] == wadd(a[m - 1], b[m - 1]));
        lemma_wadd_wmul_distributes(a[m - 1], b[m - 1], sk[m - 1]);
        lemma_wadd4_rearrange(
            wdot_to(a, sk, m - 1),
            wdot_to(b, sk, m - 1),
            wmul(a[m - 1], sk[m - 1]),
            wmul(b[m - 1], sk[m - 1]),
        );
    }
}

/// Decryption is linear: the decryption of an elementwise wrapping sum
/// of two ciphertexts is the wrapping sum of their decryptions.
pub proof fn lemma_decrypt_linear(sk: Seq<u64>, a: Seq<u64>, b: Seq<u64>)
    requires
        a.len() == b.len(),
        a.len() == sk.len() + 1,
    ensures
        lwe_decrypt_spec(sk, seq_wadd(a, b)) == wadd(
            lwe_decrypt_spec(sk, a),
            lwe_decrypt_spec(sk, b),
        ),
{
    let n = a.len() as int;
    lemma_wdot_linear(a, b, sk, n - 1);
    assert(seq_wadd(a, b)[n - 1] == wadd(a[n - 1], b[n - 1]));
    assert forall|k: int| 0 <= k < n - 1 implies #[trigger] seq_wadd(a, b)[k] == wadd(
        a[k],
        b[k],
    ) by {}
    lemma_wsub_wadd_rearrange(
        a[n - 1],
        b[n - 1],
        wdot_to(a, sk, n - 1),
        wdot_to(b, sk, n - 1),
    );
}

/// The chunk XOR-add is self-inverse at the message level: adding the
/// same ciphertext twice contributes twice its decryption, and a
/// bit-scaled decryption doubled is a full multiple of the modulus. So
/// after a second application of the XOR-add, every position of the
/// left half decrypts to exactly what it decrypted to before the first,
/// under every key of the matching dimension; the right half is never
/// written at all.
pub proof fn lemma_xor_add_twice_decrypts_unchanged(sk: Seq<u64>, a: Seq<u64>, b: Seq<u64>)
    requires
        a.len() == b.len(),
        a.len() == sk.len() + 1,
        lwe_decrypt_spec(sk, b) == 0 || lwe_decrypt_spec(sk, b) == 0x8000_0000_0000_0000,
    ensures
        lwe_decrypt_spec(sk, seq_wadd(seq_wadd(a, b), b)) == lwe_decrypt_spec(sk, a),
{
    lemma_decrypt_linear(sk, a, b);
    lemma_decrypt_linear(sk, seq_wadd(a, b), b);
    let da = lwe_decrypt_spec(sk, a);
    let db = lwe_decrypt_spec(sk, b);
    assert(wadd(wadd(da, db), db) == da) by (bit_vector)
        requires
            db == 0 || db == 0x8000_0000_0000_0000,
    ;
}

/// Decrypting a sample extracted from a trivially encrypted ciphertext
/// returns the chosen body coefficient exactly, under any key of the
/// matching dimension: the zero mask contributes nothing.
pub proof fn lemma_extract_trivial_decrypts(p: Seq<u64>, klen: int, n: int, nth: int, sk: Seq<u64>)
    requires
        n >= 1,
        0 <= nth < n,
        p.len() == n,
        klen >= 0,
        klen % n == 0,
        sk.len() == klen,
    ensures
        lwe_decrypt_spec(
            sk,
            extract_lwe_spec(Seq::new(klen as nat, |i: int| 0u64) + p, n, nth),
        ) == p[nth],
{
    let g = Seq::new(klen as nat, |i: int| 0u64) + p;
    let e = extract_lwe_spec(g, n, nth);
    assert(g.len() == klen + n);
    assert(e.len() == klen + 1);
    assert(e[klen] == g[klen + nth]);
    assert(g[klen + nth] == p[nth]);
    assert forall|i: int| 0 <= i < klen implies e[i] == 0u64 by {
        let j = i / n;
        let t = i % n;
        assert(i == j * n + t && 0 <= t < n && j >= 0) by (nonlinear_arith)
            requires
                n >= 1 && 0 <= i && j == i / n && t == i % n,
        ;
        assert((j + 1) * n <= klen) by (nonlinear_arith)
            requires
                n >= 1 && 0 <= i < klen && klen % n == 0 && i == j * n + t && 0 <= t < n,
        ;
        assert((j + 1) * n == j * n + n) by (nonlinear_arith);
        if t <= nth {
            assert(j * n + (nth - t) < klen);
            assert(g[j * n + (nth - t)] == 0u64);
        } else {
            assert(j * n + (n + nth - t) < klen);
            assert(g[j * n + (n + nth - t)] == 0u64);
            assert(crate::lut::wneg(0u64) == 0u64);
        }
    }
    lemma_wdot_zero_prefix(e, sk, klen);
    assert(lwe_decrypt_spec(sk, e) == wsub(p[nth], 0u64));
}

/// The public-input lookup chain, verified end to end: the byte table is
/// packed into trivially encrypted accumulators, one sample per output
/// bit is extracted and decrypted under a key of the matching dimension,
/// each plane is decoded at its own scale, and the reassembled byte is
/// exactly the table entry.
pub fn trivial_known_rotate_decode(
    table: &Vec<u8>,
    v: u8,
    poly_size: usize,
    glwe_size: usize,
    sk: &LweKey,
) -> (r: u8)
    requires
        table.len() == 256,
        poly_size % 256 == 0,
        256 <= poly_size <= 2048,
        1 <= glwe_size <= 8,
        lwe_key_data(*sk).len() == (glwe_size - 1) * poly_size,
    ensures
        r == table@[v as int],
{
    let accs: Vec<GlweCipher> = trivial_lut_accumulators(table, poly_size, glwe_size);
    let npl: usize = crate::lut::num_par_lut(poly_size);
    let nacc: usize = crate::lut::num_accumulators(npl);
    proof {
        assert(poly_size == 256 * (poly_size / 256)) by (nonlinear_arith)
            requires
                poly_size % 256 == 0 && poly_size >= 256,
        ;
        crate::lut::lemma_accumulators_cover_all_planes(npl as int);
    }
    let mut out: u8 = 0;
    proof {
        let tv = table@[v as int];
        assert((tv & crate::lut::low_mask_u8(0)) == 0) by (bit_vector);
    }
    let mut acc_idx: usize = 0;
    while acc_idx < nacc
        invariant
            acc_idx <= nacc,
            table.len() == 256,
            poly_size == 256 * npl,
            npl >= 1,
            npl <= 8,
            1 <= glwe_size <= 8,
            nacc == crate::lut::num_accumulators_spec(npl as int),
            nacc * npl >= 8,
            accs.len() == nacc,
            lwe_key_data(*sk).len() == (glwe_size - 1) * poly_size,
            forall|a: int|
                0 <= a < nacc ==> glwe_data(#[trigger] accs@[a]) == Seq::new(
                    ((glwe_size - 1) * poly_size) as nat,
                    |i: int| 0u64,
                ) + acc_seq_spec(table@, a, npl as int, 63, poly_size as int),
            forall|a: int| 0 <= a < nacc ==> glwe_poly_size(#[trigger] accs@[a]) == poly_size,
            forall|a: int| 0 <= a < nacc ==> glwe_modulus_native(#[trigger] accs@[a]),
            out == (table@[v as int] & crate::lut::low_mask_u8(
                crate::lut::min8(acc_idx * npl),
            )),
        decreases nacc - acc_idx,
    {
        proof {
            crate::lut::lemma_accumulator_index_bound(npl as int, nacc as int, acc_idx as int);
        }
        let mut p: usize = 0;
        while p < npl && acc_idx * npl + p < 8
            invariant
                p <= npl,
                acc_idx * npl + p <= 8,
                acc_idx * npl < 8,
                acc_idx < nacc,
                table.len() == 256,
                poly_size == 256 * npl,
                npl >= 1,
                npl <= 8,
                1 <= glwe_size <= 8,
                accs.len() == nacc,
                lwe_key_data(*sk).len() == (glwe_size - 1) * poly_size,
                forall|a: int|
                    0 <= a < nacc ==> glwe_data(#[trigger] accs@[a]) == Seq::new(
                        ((glwe_size - 1) * poly_size) as nat,
                        |i: int| 0u64,
                    ) + acc_seq_spec(table@, a, npl as int, 63, poly_size as int),
                forall|a: int| 0 <= a < nacc ==> glwe_poly_size(#[trigger] accs@[a]) == poly_size,
                forall|a: int| 0 <= a < nacc ==> glwe_modulus_native(#[trigger] accs@[a]),
                out == (table@[v as int] & crate::lut::low_mask_u8(
                    crate::lut::min8(acc_idx * npl + p),
                )),
            decreases npl - p,
        {
            let lut_idx: usize = acc_idx * npl + p;
            let deg: usize = p * 256 + (v as usize);
            proof {
                assert(p * 256 + 256 <= poly_size) by (nonlinear_arith)
                    requires
                        p < npl && poly_size == 256 * npl,
                ;
            }
            let lwe: LweCipher = extract_lwe_sample(&accs[acc_idx], deg);
            let sample: u64 = lwe_decrypt_raw(sk, &lwe);
            proof {
                let aseq = acc_seq_spec(table@, acc_idx as int, npl as int, 63, poly_size as int);
                assert((((glwe_size - 1) * poly_size) as int) % (poly_size as int) == 0)
                    by (nonlinear_arith)
                    requires
                        poly_size >= 1 && glwe_size >= 1,
                ;
                lemma_extract_trivial_decrypts(
                    aseq,
                    ((glwe_size - 1) * poly_size) as int,
                    poly_size as int,
                    deg as int,
                    lwe_key_data(*sk),
                );
                assert((deg as int) / 256 == p && (deg as int) % 256 == v as int)
                    by (nonlinear_arith)
                    requires
                        0 <= (v as int) < 256 && p >= 0 && deg == p * 256 + (v as int),
                ;
                assert(aseq[deg as int] == crate::lut::acc_coeff_spec(
                    table@,
                    acc_idx as int,
                    npl as int,
                    63,
                    deg as int,
                ));
            }
            let bit: u64 = (sample >> ((63 - lut_idx) as u64)) & 1;
            let ghost out_before: u8 = out;
            out = out | ((bit as u8) << (lut_idx as u32));
            proof {
                let tv = table@[v as int];
                let li = lut_idx as u64;
                assert(out == (tv & crate::lut::low_mask_u8(li as int + 1))) by (bit_vector)
                    requires
                        li < 8,
                        sample == ((((tv as u64) >> li) & 1) << ((63 - li) as u64)) as u64,
                        out_before == (tv & crate::lut::low_mask_u8(li as int)),
                        out == out_before | ((((sample >> ((63 - li) as u64)) & 1) as u8) << (
                        li as u32)),
                ;
            }
            p = p + 1;
        }
        proof {
            assert(crate::lut::min8((acc_idx + 1) * npl) == crate::lut::min8(acc_idx * npl + p))
                by (nonlinear_arith)
                requires
                    npl >= 1,
                    p <= npl,
                    acc_idx >= 0,
                    p == npl || acc_idx * npl + p == 8,
            ;
        }
        acc_idx = acc_idx + 1;
    }
    proof {
        let tv = table@[v as int];
        assert((tv & crate::lut::low_mask_u8(8)) == tv) by (bit_vector);
    }
    out
}


/// A set of encrypted accumulators, one list per byte position, that
/// encodes the 16 tables of one round for one multiplier.
pub open spec fn accs_encode_tables(
    accs: Seq<Vec<GlweCipher>>,
    tables: Seq<Vec<u8>>,
    poly_size: int,
    glwe_size: int,
) -> bool {
    let npl = crate::lut::num_par_lut_spec(poly_size);
    &&& accs.len() == 16
    &&& forall|j: int|
        0 <= j < 16 ==> (#[trigger] accs[j]).len() == crate::lut::num_accumulators_spec(npl)
    &&& forall|j: int, a: int|
        0 <= j < 16 && 0 <= a < accs[j].len() ==> glwe_data(#[trigger] accs[j]@[a]) == Seq::new(
            ((glwe_size - 1) * poly_size) as nat,
            |i: int| 0u64,
        ) + acc_seq_spec(tables[j]@, a, npl, 63, poly_size)
    &&& forall|j: int, a: int|
        0 <= j < 16 && 0 <= a < accs[j].len() ==> glwe_poly_size(#[trigger] accs[j]@[a])
            == poly_size
    &&& forall|j: int, a: int|
        0 <= j < 16 && 0 <= a < accs[j].len() ==> glwe_modulus_native(#[trigger] accs[j]@[a])
}

/// The public-table mode of the block accumulator builder: one
/// trivially encrypted accumulator list per byte position, with the
/// packed contents stated exactly. Used where the table is public, as
/// for an unkeyed substitution table.
pub fn trivial_lut_accumulator_set(
    tables: &Vec<Vec<u8>>,
    poly_size: usize,
    glwe_size: usize,
) -> (r: Vec<Vec<GlweCipher>>)
    requires
        crate::keys::wf_tables(tables@),
        poly_size % 256 == 0,
        256 <= poly_size <= 2048,
        1 <= glwe_size <= 8,
    ensures
        accs_encode_tables(r@, tables@, poly_size as int, glwe_size as int),
{
    let mut r: Vec<Vec<GlweCipher>> = Vec::new();
    let mut j: usize = 0;
    while j < 16
        invariant
            j <= 16,
            r.len() == j,
            crate::keys::wf_tables(tables@),
            poly_size % 256 == 0,
            256 <= poly_size <= 2048,
            1 <= glwe_size <= 8,
            forall|k: int|
                0 <= k < j ==> (#[trigger] r@[k]).len() == crate::lut::num_accumulators_spec(
                    crate::lut::num_par_lut_spec(poly_size as int),
                ),
            forall|k: int, a: int|
                0 <= k < j && 0 <= a < r@[k].len() ==> glwe_data(#[trigger] r@[k]@[a]) == Seq::new(
                    ((glwe_size - 1) * poly_size) as nat,
                    |i: int| 0u64,
                ) + acc_seq_spec(
                    tables@[k]@,
                    a,
                    crate::lut::num_par_lut_spec(poly_size as int),
                    63,
                    poly_size as int,
                ),
            forall|k: int, a: int|
                0 <= k < j && 0 <= a < r@[k].len() ==> glwe_poly_size(#[trigger] r@[k]@[a])
                    == poly_size,
            forall|k: int, a: int|
                0 <= k < j && 0 <= a < r@[k].len() ==> glwe_modulus_native(#[trigger] r@[k]@[a]),
        decreases 16 - j,
    {
        r.push(trivial_lut_accumulators(&tables[j], poly_size, glwe_size));
        j = j + 1;
    }
    r
}

/// A block's worth of secret-encrypted accumulators: 16 lists of the
/// covering accumulator count, each ciphertext of the key's dimension
/// at the given ring degree and the native modulus. The encrypted
/// contents carry fresh random masks and are therefore not stated.
pub open spec fn accs_secret_shape(accs: Seq<Vec<GlweCipher>>, key_len: int, poly_size: int) -> bool {
    &&& accs.len() == 16
    &&& forall|j: int|
        0 <= j < 16 ==> (#[trigger] accs[j]).len() == crate::lut::num_accumulators_spec(
            crate::lut::num_par_lut_spec(poly_size),
        )
    &&& forall|j: int, a: int|
        0 <= j < 16 && 0 <= a < accs[j].len() ==> glwe_data(#[trigger] accs[j]@[a]).len()
            == key_len + poly_size
    &&& forall|j: int, a: int|
        0 <= j < 16 && 0 <= a < accs[j].len() ==> glwe_poly_size(#[trigger] accs[j]@[a])
            == poly_size
    &&& forall|j: int, a: int|
        0 <= j < 16 && 0 <= a < accs[j].len() ==> glwe_modulus_native(#[trigger] accs[j]@[a])
}

/// A block of secret accumulator lists that encrypt the given byte
/// tables: the shape of `accs_secret_shape`, and every accumulator
/// decrypts under the key to the spec packing of its byte position's
/// table at the given scale, up to bounded noise.
pub open spec fn accs_encrypt_tables(
    accs: Seq<Vec<GlweCipher>>,
    tables: Seq<Vec<u8>>,
    key: GlweKey,
    log_scale: int,
    noise_bound_log2: int,
    poly_size: int,
) -> bool {
    &&& accs_secret_shape(accs, glwe_key_data(key).len() as int, poly_size)
    &&& forall|j: int, a: int|
        0 <= j < 16 && 0 <= a < accs[j].len() ==> #[trigger] encrypts_coeffs(
            accs[j]@[a],
            key,
            acc_seq_spec(
                tables[j]@,
                a,
                crate::lut::num_par_lut_spec(poly_size),
                log_scale,
                poly_size,
            ),
            noise_bound_log2,
        )
}

/// The secret mode of the keyed accumulator builder: for each of the 16
/// byte positions, the table is packed by `accumulator_coeffs` at the
/// given scale and every accumulator is freshly encrypted under the
/// GLWE secret key, so key-dependent tables stay hidden from whoever
/// performs the lookup walk. The encryptions are random; what holds of
/// every outcome is that each returned accumulator decrypts under the
/// key to exactly the `accumulator_coeffs` packing of its table, up to
/// noise bounded by the distribution.
pub fn generate_vec_keyed_lut_accumulator(
    keyed_lut_list: &Vec<Vec<u8>>,
    log_scale: usize,
    glwe_secret_key: &GlweKey,
    noise_bound_log2: u32,
    poly_size: usize,
) -> (r: Vec<Vec<GlweCipher>>)
    requires
        crate::keys::wf_tables(keyed_lut_list@),
        poly_size % 256 == 0,
        256 <= poly_size <= 2048,
        log_scale <= 63,
        crate::lut::num_accumulators_spec(crate::lut::num_par_lut_spec(poly_size as int))
            * crate::lut::num_par_lut_spec(poly_size as int) <= log_scale + 1,
        glwe_key_poly_size(*glwe_secret_key) == poly_size,
        glwe_key_data(*glwe_secret_key).len() >= 1,
        (glwe_key_data(*glwe_secret_key).len() as int) % (poly_size as int) == 0,
        noise_bound_log2 <= 62,
    ensures
        accs_encrypt_tables(
            r@,
            keyed_lut_list@,
            *glwe_secret_key,
            log_scale as int,
            noise_bound_log2 as int,
            poly_size as int,
        ),
{
    let npl: usize = crate::lut::num_par_lut(poly_size);
    let nacc: usize = crate::lut::num_accumulators(npl);
    proof {
        assert(poly_size == 256 * (poly_size / 256)) by (nonlinear_arith)
            requires
                poly_size % 256 == 0 && poly_size >= 256,
        ;
    }
    let mut r: Vec<Vec<GlweCipher>> = Vec::new();
    let mut j: usize = 0;
    while j < 16
        invariant
            j <= 16,
            r.len() == j,
            crate::keys::wf_tables(keyed_lut_list@),
            npl == crate::lut::num_par_lut_spec(poly_size as int),
            npl >= 1,
            poly_size == 256 * npl,
            256 <= poly_size <= 2048,
            log_scale <= 63,
            nacc == crate::lut::num_accumulators_spec(npl as int),
            nacc * npl <= log_scale + 1,
            glwe_key_poly_size(*glwe_secret_key) == poly_size,
            glwe_key_data(*glwe_secret_key).len() >= 1,
            (glwe_key_data(*glwe_secret_key).len() as int) % (poly_size as int) == 0,
            noise_bound_log2 <= 62,
            forall|k: int|
                0 <= k < j ==> (#[trigger] r@[k]).len() == crate::lut::num_accumulators_spec(
                    npl as int,
                ),
            forall|k: int, a: int|
                0 <= k < j && 0 <= a < r@[k].len() ==> glwe_data(#[trigger] r@[k]@[a]).len()
                    == glwe_key_data(*glwe_secret_key).len() + poly_size,
            forall|k: int, a: int|
                0 <= k < j && 0 <= a < r@[k].len() ==> glwe_poly_size(#[trigger] r@[k]@[a])
                    == poly_size,
            forall|k: int, a: int|
                0 <= k < j && 0 <= a < r@[k].len() ==> glwe_modulus_native(#[trigger] r@[k]@[a]),
            forall|k: int, a: int|
                0 <= k < j && 0 <= a < r@[k].len() ==> #[trigger] encrypts_coeffs(
                    r@[k]@[a],
                    *glwe_secret_key,
                    acc_seq_spec(
                        keyed_lut_list@[k]@,
                        a,
                        npl as int,
                        log_scale as int,
                        poly_size as int,
                    ),
                    noise_bound_log2 as int,
                ),
        decreases 16 - j,
    {
        let mut accs: Vec<GlweCipher> = Vec::new();
        let mut acc_idx: usize = 0;
        while acc_idx < nacc
            invariant
                acc_idx <= nacc,
                accs.len() == acc_idx,
                j < 16,
                crate::keys::wf_tables(keyed_lut_list@),
                npl >= 1,
                poly_size == 256 * npl,
                256 <= poly_size <= 2048,
                log_scale <= 63,
                nacc == crate::lut::num_accumulators_spec(npl as int),
                nacc * npl <= log_scale + 1,
                glwe_key_poly_size(*glwe_secret_key) == poly_size,
                glwe_key_data(*glwe_secret_key).len() >= 1,
                (glwe_key_data(*glwe_secret_key).len() as int) % (poly_size as int) == 0,
                noise_bound_log2 <= 62,
                forall|a: int|
                    0 <= a < acc_idx ==> glwe_data(#[trigger] accs@[a]).len() == glwe_key_data(
                        *glwe_secret_key,
                    ).len() + poly_size,
                forall|a: int|
                    0 <= a < acc_idx ==> glwe_poly_size(#[trigger] accs@[a]) == poly_size,
                forall|a: int| 0 <= a < acc_idx ==> glwe_modulus_native(#[trigger] accs@[a]),
                forall|a: int|
                    0 <= a < acc_idx ==> #[trigger] encrypts_coeffs(
                        accs@[a],
                        *glwe_secret_key,
                        acc_seq_spec(
                            keyed_lut_list@[j as int]@,
                            a,
                            npl as int,
                            log_scale as int,
                            poly_size as int,
                        ),
                        noise_bound_log2 as int,
                    ),
            decreases nacc - acc_idx,
        {
            proof {
                assert((acc_idx + 1) * npl <= nacc * npl) by (nonlinear_arith)
                    requires
                        acc_idx < nacc && npl >= 1,
                ;
                assert((acc_idx + 1) * npl == acc_idx * npl + npl) by (nonlinear_arith);
            }
            let coeffs: Vec<u64> = crate::lut::accumulator_coeffs(
                &keyed_lut_list[j],
                acc_idx,
                npl,
                log_scale,
                poly_size,
            );
            let fresh: GlweCipher = glwe_secret_encrypt(glwe_secret_key, &coeffs, noise_bound_log2);
            proof {
                assert(coeffs@ =~= acc_seq_spec(
                    keyed_lut_list@[j as int]@,
                    acc_idx as int,
                    npl as int,
                    log_scale as int,
                    poly_size as int,
                ));
            }
            accs.push(fresh);
            acc_idx = acc_idx + 1;
        }
        r.push(accs);
        j = j + 1;
    }
    r
}

/// The full set of encrypted lookup accumulators for one AES key: the
/// four fused multiplication table sets of the entry round, one
/// quadruple per middle round, and the final substitution tables. All
/// of these tables carry round-key material, so they are built in the
/// secret mode: the packed coefficients are encrypted under the GLWE
/// secret key and stay hidden from whoever performs the walks.
pub struct AllRdKeys {
    pub _10_9_round_key: (
        Vec<Vec<GlweCipher>>,
        Vec<Vec<GlweCipher>>,
        Vec<Vec<GlweCipher>>,
        Vec<Vec<GlweCipher>>,
    ),
    pub _8_to_1_round_key: Vec<
        (
            Vec<Vec<GlweCipher>>,
            Vec<Vec<GlweCipher>>,
            Vec<Vec<GlweCipher>>,
            Vec<Vec<GlweCipher>>,
        ),
    >,
    pub _0_round_key: Vec<Vec<GlweCipher>>,
}

/// Secret-encrypts the entry round's four fused table sets at the top
/// scale, ordered by multiplier 9, 11, 13, 14: every returned
/// accumulator decrypts under the key to the spec packing of its fused
/// table, up to bounded noise.
pub fn get_10_9_round_key(
    tables: &crate::keys::AllRoundTables,
    poly_size: usize,
    glwe_secret_key: &GlweKey,
    noise_bound_log2: u32,
) -> (r: (
    Vec<Vec<GlweCipher>>,
    Vec<Vec<GlweCipher>>,
    Vec<Vec<GlweCipher>>,
    Vec<Vec<GlweCipher>>,
))
    requires
        tables.wf(),
        poly_size % 256 == 0,
        256 <= poly_size <= 2048,
        glwe_key_poly_size(*glwe_secret_key) == poly_size,
        glwe_key_data(*glwe_secret_key).len() >= 1,
        (glwe_key_data(*glwe_secret_key).len() as int) % (poly_size as int) == 0,
        noise_bound_log2 <= 62,
    ensures
        accs_encrypt_tables(
            r.0@,
            tables.initial.t9@,
            *glwe_secret_key,
            63,
            noise_bound_log2 as int,
            poly_size as int,
        ),
        accs_encrypt_tables(
            r.1@,
            tables.initial.t11@,
            *glwe_secret_key,
            63,
            noise_bound_log2 as int,
            poly_size as int,
        ),
        accs_encrypt_tables(
            r.2@,
            tables.initial.t13@,
            *glwe_secret_key,
            63,
            noise_bound_log2 as int,
            poly_size as int,
        ),
        accs_encrypt_tables(
            r.3@,
            tables.initial.t14@,
            *glwe_secret_key,
            63,
            noise_bound_log2 as int,
            poly_size as int,
        ),
{
    proof {
        lemma_top_scale_covers_planes(poly_size as int);
    }
    (
        generate_vec_keyed_lut_accumulator(
            &tables.initial.t9,
            63,
            glwe_secret_key,
            noise_bound_log2,
            poly_size,
        ),
        generate_vec_keyed_lut_accumulator(
            &tables.initial.t11,
            63,
            glwe_secret_key,
            noise_bound_log2,
            poly_size,
        ),
        generate_vec_keyed_lut_accumulator(
            &tables.initial.t13,
            63,
            glwe_secret_key,
            noise_bound_log2,
            poly_size,
        ),
        generate_vec_keyed_lut_accumulator(
            &tables.initial.t14,
            63,
            glwe_secret_key,
            noise_bound_log2,
            poly_size,
        ),
    )
}

/// At the top scale, the covering accumulator count always fits the
/// scale bound of the packing.
proof fn lemma_top_scale_covers_planes(poly_size: int)
    requires
        poly_size % 256 == 0,
        256 <= poly_size <= 2048,
    ensures
        crate::lut::num_accumulators_spec(crate::lut::num_par_lut_spec(poly_size))
            * crate::lut::num_par_lut_spec(poly_size) <= 64,
{
    let npl = crate::lut::num_par_lut_spec(poly_size);
    assert(1 <= npl <= 8) by (nonlinear_arith)
        requires
            npl == poly_size / 256 && 256 <= poly_size <= 2048,
    ;
    crate::lut::lemma_accumulator_index_bound(npl, crate::lut::num_accumulators_spec(npl), 0);
}

/// Secret-encrypts the eight middle rounds' table sets, in round order
/// 1 to 8, multiplier order 9, 11, 13, 14.
pub fn get_8_to_1_round_key(
    tables: &crate::keys::AllRoundTables,
    poly_size: usize,
    glwe_secret_key: &GlweKey,
    noise_bound_log2: u32,
) -> (r: Vec<
    (
        Vec<Vec<GlweCipher>>,
        Vec<Vec<GlweCipher>>,
        Vec<Vec<GlweCipher>>,
        Vec<Vec<GlweCipher>>,
    ),
>)
    requires
        tables.wf(),
        poly_size % 256 == 0,
        256 <= poly_size <= 2048,
        glwe_key_poly_size(*glwe_secret_key) == poly_size,
        glwe_key_data(*glwe_secret_key).len() >= 1,
        (glwe_key_data(*glwe_secret_key).len() as int) % (poly_size as int) == 0,
        noise_bound_log2 <= 62,
    ensures
        r.len() == 8,
        forall|i: int|
            0 <= i < 8 ==> accs_encrypt_tables(
                (#[trigger] r@[i]).0@,
                tables.middle@[i].t9@,
                *glwe_secret_key,
                63,
                noise_bound_log2 as int,
                poly_size as int,
            ) && accs_encrypt_tables(
                r@[i].1@,
                tables.middle@[i].t11@,
                *glwe_secret_key,
                63,
                noise_bound_log2 as int,
                poly_size as int,
            ) && accs_encrypt_tables(
                r@[i].2@,
                tables.middle@[i].t13@,
                *glwe_secret_key,
                63,
                noise_bound_log2 as int,
                poly_size as int,
            ) && accs_encrypt_tables(
                r@[i].3@,
                tables.middle@[i].t14@,
                *glwe_secret_key,
                63,
                noise_bound_log2 as int,
                poly_size as int,
            ),
{
    proof {
        lemma_top_scale_covers_planes(poly_size as int);
    }
    let mut r: Vec<
        (
            Vec<Vec<GlweCipher>>,
            Vec<Vec<GlweCipher>>,
            Vec<Vec<GlweCipher>>,
            Vec<Vec<GlweCipher>>,
        ),
    > = Vec::new();
    let mut i: usize = 0;
    while i < 8
        invariant
            i <= 8,
            r.len() == i,
            tables.wf(),
            poly_size % 256 == 0,
            256 <= poly_size <= 2048,
            glwe_key_poly_size(*glwe_secret_key) == poly_size,
            glwe_key_data(*glwe_secret_key).len() >= 1,
            (glwe_key_data(*glwe_secret_key).len() as int) % (poly_size as int) == 0,
            noise_bound_log2 <= 62,
            crate::lut::num_accumulators_spec(crate::lut::num_par_lut_spec(poly_size as int))
                * crate::lut::num_par_lut_spec(poly_size as int) <= 64,
            forall|k: int|
                0 <= k < i ==> accs_encrypt_tables(
                    (#[trigger] r@[k]).0@,
                    tables.middle@[k].t9@,
                    *glwe_secret_key,
                    63,
                    noise_bound_log2 as int,
                    poly_size as int,
                ) && accs_encrypt_tables(
                    r@[k].1@,
                    tables.middle@[k].t11@,
                    *glwe_secret_key,
                    63,
                    noise_bound_log2 as int,
                    poly_size as int,
                ) && accs_encrypt_tables(
                    r@[k].2@,
                    tables.middle@[k].t13@,
                    *glwe_secret_key,
                    63,
                    noise_bound_log2 as int,
                    poly_size as int,
                ) && accs_encrypt_tables(
                    r@[k].3@,
                    tables.middle@[k].t14@,
                    *glwe_secret_key,
                    63,
                    noise_bound_log2 as int,
                    poly_size as int,
                ),
        decreases 8 - i,
    {
        let q = &tables.middle[i];
        let quad = (
            generate_vec_keyed_lut_accumulator(&q.t9, 63, glwe_secret_key, noise_bound_log2, poly_size),
            generate_vec_keyed_lut_accumulator(&q.t11, 63, glwe_secret_key, noise_bound_log2, poly_size),
            generate_vec_keyed_lut_accumulator(&q.t13, 63, glwe_secret_key, noise_bound_log2, poly_size),
            generate_vec_keyed_lut_accumulator(&q.t14, 63, glwe_secret_key, noise_bound_log2, poly_size),
        );
        r.push(quad);
        i = i + 1;
    }
    r
}

/// Secret-encrypts the final round's substitution tables.
pub fn get_0_round_key(
    tables: &crate::keys::AllRoundTables,
    poly_size: usize,
    glwe_secret_key: &GlweKey,
    noise_bound_log2: u32,
) -> (r: Vec<Vec<GlweCipher>>)
    requires
        tables.wf(),
        poly_size % 256 == 0,
        256 <= poly_size <= 2048,
        glwe_key_poly_size(*glwe_secret_key) == poly_size,
        glwe_key_data(*glwe_secret_key).len() >= 1,
        (glwe_key_data(*glwe_secret_key).len() as int) % (poly_size as int) == 0,
        noise_bound_log2 <= 62,
    ensures
        accs_encrypt_tables(
            r@,
            tables.last@,
            *glwe_secret_key,
            63,
            noise_bound_log2 as int,
            poly_size as int,
        ),
{
    proof {
        lemma_top_scale_covers_planes(poly_size as int);
    }
    generate_vec_keyed_lut_accumulator(&tables.last, 63, glwe_secret_key, noise_bound_log2, poly_size)
}

/// Secret-encrypts the whole round-key bundle for one AES key from its
/// keyed tables.
pub fn gen_transciphering_keys(
    tables: &crate::keys::AllRoundTables,
    poly_size: usize,
    glwe_secret_key: &GlweKey,
    noise_bound_log2: u32,
) -> (r: AllRdKeys)
    requires
        tables.wf(),
        poly_size % 256 == 0,
        256 <= poly_size <= 2048,
        glwe_key_poly_size(*glwe_secret_key) == poly_size,
        glwe_key_data(*glwe_secret_key).len() >= 1,
        (glwe_key_data(*glwe_secret_key).len() as int) % (poly_size as int) == 0,
        noise_bound_log2 <= 62,
    ensures
        accs_encrypt_tables(
            r._10_9_round_key.0@,
            tables.initial.t9@,
            *glwe_secret_key,
            63,
            noise_bound_log2 as int,
            poly_size as int,
        ),
        accs_encrypt_tables(
            r._10_9_round_key.1@,
            tables.initial.t11@,
            *glwe_secret_key,
            63,
            noise_bound_log2 as int,
            poly_size as int,
        ),
        accs_encrypt_tables(
            r._10_9_round_key.2@,
            tables.initial.t13@,
            *glwe_secret_key,
            63,
            noise_bound_log2 as int,
            poly_size as int,
        ),
        accs_encrypt_tables(
            r._10_9_round_key.3@,
            tables.initial.t14@,
            *glwe_secret_key,
            63,
            noise_bound_log2 as int,
            poly_size as int,
        ),
        r._8_to_1_round_key.len() == 8,
        forall|i: int|
            0 <= i < 8 ==> accs_encrypt_tables(
                (#[trigger] r._8_to_1_round_key@[i]).0@,
                tables.middle@[i].t9@,
                *glwe_secret_key,
                63,
                noise_bound_log2 as int,
                poly_size as int,
            ) && accs_encrypt_tables(
                r._8_to_1_round_key@[i].1@,
                tables.middle@[i].t11@,
                *glwe_secret_key,
                63,
                noise_bound_log2 as int,
                poly_size as int,
            ) && accs_encrypt_tables(
                r._8_to_1_round_key@[i].2@,
                tables.middle@[i].t13@,
                *glwe_secret_key,
                63,
                noise_bound_log2 as int,
                poly_size as int,
            ) && accs_encrypt_tables(
                r._8_to_1_round_key@[i].3@,
                tables.middle@[i].t14@,
                *glwe_secret_key,
                63,
                noise_bound_log2 as int,
                poly_size as int,
            ),
        accs_encrypt_tables(
            r._0_round_key@,
            tables.last@,
            *glwe_secret_key,
            63,
            noise_bound_log2 as int,
            poly_size as int,
        ),
{
    AllRdKeys {
        _10_9_round_key: get_10_9_round_key(tables, poly_size, glwe_secret_key, noise_bound_log2),
        _8_to_1_round_key: get_8_to_1_round_key(tables, poly_size, glwe_secret_key, noise_bound_log2),
        _0_round_key: get_0_round_key(tables, poly_size, glwe_secret_key, noise_bound_log2),
    }
}

/// Relies on the container view of tfhe's GlweCiphertext: hands the raw
/// coefficients out unchanged.
#[verifier::external_body]
pub fn glwe_to_coeffs(ct: &GlweCipher) -> (r: Vec<u64>)
    ensures
        r@ == glwe_data(*ct),
{
    ct.inner.as_ref().to_vec()
}

/// Relies on tfhe's GlweCiphertext::from_container at the native
/// modulus: the ciphertext holds exactly the given coefficients at the
/// given ring degree.
#[verifier::external_body]
pub fn glwe_from_coeffs(coeffs: &Vec<u64>, poly_size: usize) -> (r: GlweCipher)
    requires
        poly_size >= 1,
        coeffs.len() >= poly_size,
        coeffs.len() % poly_size == 0,
    ensures
        glwe_data(r) == coeffs@,
        glwe_poly_size(r) == poly_size,
        glwe_modulus_native(r),
{
    GlweCipher {
        inner: GlweCiphertext::from_container(
            coeffs.clone(),
            PolynomialSize(poly_size),
            CiphertextModulus::new_native(),
        ),
    }
}

/// A list of GGSW bit-selectors in the standard domain, carried as raw
/// coefficients with the decomposition parameters they were built with.
pub struct GgswSelectors {
    pub data: Vec<u64>,
    pub glwe_size: usize,
    pub poly_size: usize,
    pub base_log: usize,
    pub level: usize,
    pub count: usize,
}

impl GgswSelectors {
    /// The shape and parameter ranges under which the selector list can
    /// drive an external product.
    pub open spec fn wf(self) -> bool {
        &&& self.data.len() == self.count * self.level * self.glwe_size * self.glwe_size
            * self.poly_size
        &&& 1 <= self.glwe_size <= 8
        &&& (self.poly_size == 256 || self.poly_size == 512 || self.poly_size == 1024
            || self.poly_size == 2048)
        &&& 1 <= self.base_log
        &&& 1 <= self.level
        &&& self.base_log * self.level <= 63
    }
}

/// What the external product accumulation returns: a function of the
/// accumulator, the selector list and index, the decomposition
/// parameters, and the blend operand alone.
pub uninterp spec fn ext_prod_add_of(
    acc: Seq<u64>,
    poly_size: int,
    sel: Seq<u64>,
    idx: int,
    base_log: int,
    level: int,
    buf: Seq<u64>,
) -> Seq<u64>;

/// Relies on tfhe's add_external_product_assign (with its Fourier
/// conversion): the external product of selector `idx` and `buf` is
/// added into the accumulator. The result depends on the ciphertext
/// contents and decomposition parameters alone; it goes through the
/// library's f64 FFT, so the name pins it per execution, while machines
/// with different floating-point code paths may round differently.
#[verifier::external_body]
fn add_external_product(acc: &mut GlweCipher, sel: &GgswSelectors, idx: usize, buf: &GlweCipher)
    requires
        sel.wf(),
        idx < sel.count,
        glwe_data(*old(acc)).len() == sel.glwe_size * sel.poly_size,
        glwe_data(*buf).len() == sel.glwe_size * sel.poly_size,
        glwe_poly_size(*old(acc)) == sel.poly_size,
        glwe_poly_size(*buf) == sel.poly_size,
        glwe_modulus_native(*old(acc)),
        glwe_modulus_native(*buf),
    ensures
        glwe_data(*final(acc)) == ext_prod_add_of(
            glwe_data(*old(acc)),
            sel.poly_size as int,
            sel.data@,
            idx as int,
            sel.base_log as int,
            sel.level as int,
            glwe_data(*buf),
        ),
        glwe_data(*final(acc)).len() == glwe_data(*old(acc)).len(),
        glwe_poly_size(*final(acc)) == glwe_poly_size(*old(acc)),
        glwe_modulus_native(*final(acc)),
{
    let n = PolynomialSize(sel.poly_size);
    let size = GlweSize(sel.glwe_size);
    let base = DecompositionBaseLog(sel.base_log);
    let lev = DecompositionLevelCount(sel.level);
    let list = GgswCiphertextList::from_container(
        sel.data.clone(), size, n, base, lev, CiphertextModulus::new_native());
    let mut fourier = FourierGgswCiphertext::new(size, n, base, lev);
    convert_standard_ggsw_ciphertext_to_fourier(&list.get(idx), &mut fourier);
    let fft = Fft::new(n);
    let fft = fft.as_view();
    let mut buffers = ComputationBuffers::new();
    buffers.resize(
        add_external_product_assign_scratch::<u64>(size, n, fft).unaligned_bytes_required());
    add_external_product_assign(
        acc.inner.as_mut_view(), fourier.as_view(), buf.inner.as_view(), fft, buffers.stack());
}

/// The rotate-and-subtract operand of one blind-rotation step, on raw
/// GLWE coefficients: each polynomial is divided by the step's monomial
/// and the original is subtracted, so that a set selector bit replaces
/// the accumulator with its rotation and a clear bit leaves it alone.
pub open spec fn glwe_rot_sub_spec(g: Seq<u64>, poly_size: int, d: int) -> Seq<u64>
    recommends
        poly_size >= 1,
        0 <= d <= poly_size,
        (g.len() as int) % poly_size == 0,
{
    Seq::new(
        g.len(),
        |i: int|
            wsub(
                monomial_div_spec(
                    g.subrange((i / poly_size) * poly_size, (i / poly_size) * poly_size
                        + poly_size),
                    d,
                )[i % poly_size],
                g[i],
            ),
    )
}

/// Computes the rotate-and-subtract operand of one blind-rotation step.
pub fn glwe_rot_sub_coeffs(coeffs: &Vec<u64>, poly_size: usize, d: usize) -> (r: Vec<u64>)
    requires
        poly_size >= 1,
        poly_size <= 0x1000_0000,
        d <= poly_size,
        coeffs.len() % poly_size == 0,
        coeffs.len() <= 0x1000_0000,
    ensures
        r@ == glwe_rot_sub_spec(coeffs@, poly_size as int, d as int),
{
    let mut r: Vec<u64> = Vec::new();
    let mut j: usize = 0;
    proof {
        assert(coeffs.len() == (coeffs.len() / poly_size) * poly_size) by (nonlinear_arith)
            requires
                poly_size >= 1 && coeffs.len() % poly_size == 0,
        ;
    }
    let polys: usize = coeffs.len() / poly_size;
    while j < polys
        invariant
            j <= polys,
            poly_size >= 1,
            poly_size <= 0x1000_0000,
            d <= poly_size,
            coeffs.len() == polys * poly_size,
            coeffs.len() <= 0x1000_0000,
            r.len() == j * poly_size,
            forall|m: int|
                0 <= m < j * poly_size ==> r@[m] == glwe_rot_sub_spec(
                    coeffs@,
                    poly_size as int,
                    d as int,
                )[m],
        decreases polys - j,
    {
        proof {
            assert((j + 1) * poly_size <= polys * poly_size && (j + 1) * poly_size == j * poly_size
                + poly_size) by (nonlinear_arith)
                requires
                    j < polys && poly_size >= 1,
            ;
        }
        let mut seg: Vec<u64> = Vec::new();
        let mut t: usize = 0;
        while t < poly_size
            invariant
                t <= poly_size,
                seg.len() == t,
                j < polys,
                coeffs.len() == polys * poly_size,
                j * poly_size + poly_size <= coeffs.len(),
                forall|m: int| 0 <= m < t ==> seg@[m] == coeffs@[j * poly_size + m],
            decreases poly_size - t,
        {
            seg.push(coeffs[j * poly_size + t]);
            t = t + 1;
        }
        proof {
            assert(seg@ =~= coeffs@.subrange(
                (j * poly_size) as int,
                (j * poly_size + poly_size) as int,
            ));
        }
        let rot: Vec<u64> = monomial_div(&seg, d);
        let mut t2: usize = 0;
        while t2 < poly_size
            invariant
                t2 <= poly_size,
                j < polys,
                poly_size >= 1,
                d <= poly_size,
                coeffs.len() == polys * poly_size,
                coeffs.len() <= 0x1000_0000,
                j * poly_size + poly_size <= coeffs.len(),
                r.len() == j * poly_size + t2,
                rot.len() == poly_size,
                rot@ == monomial_div_spec(
                    coeffs@.subrange(
                        (j * poly_size) as int,
                        (j * poly_size + poly_size) as int,
                    ),
                    d as int,
                ),
                forall|m: int|
                    0 <= m < j * poly_size + t2 ==> r@[m] == glwe_rot_sub_spec(
                        coeffs@,
                        poly_size as int,
                        d as int,
                    )[m],
        decreases poly_size - t2,
        {
            let v: u64 = rot[t2].wrapping_sub(coeffs[j * poly_size + t2]);
            proof {
                let m = (j * poly_size + t2) as int;
                assert(m / (poly_size as int) == j && m % (poly_size as int) == t2)
                    by (nonlinear_arith)
                    requires
                        poly_size >= 1 && 0 <= t2 < poly_size && j >= 0 && m == j * poly_size + t2,
                ;
            }
            r.push(v);
            t2 = t2 + 1;
        }
        j = j + 1;
    }
    proof {
        assert(r@ =~= glwe_rot_sub_spec(coeffs@, poly_size as int, d as int));
    }
    r
}

/// The accumulator contents after the first `steps` blind-rotation
/// steps: each step adds the external product of one selector with the
/// rotate-and-subtract operand of the current accumulator.
pub open spec fn cbs_walk_spec(
    acc: Seq<u64>,
    poly_size: int,
    sel: Seq<u64>,
    base_log: int,
    level: int,
    steps: int,
) -> Seq<u64>
    decreases steps,
{
    if steps <= 0 {
        acc
    } else {
        let pre = cbs_walk_spec(acc, poly_size, sel, base_log, level, steps - 1);
        ext_prod_add_of(
            pre,
            poly_size,
            sel,
            steps - 1,
            base_log,
            level,
            glwe_rot_sub_spec(pre, poly_size, ((1u64 << ((steps - 1) as u64)) as int)),
        )
    }
}

/// The blind-rotation walk over one byte's eight selectors, applied to
/// every accumulator of a ciphertext table, followed by the extraction
/// of one sample per packed plane: the online evaluation of an
/// encrypted lookup table on an encrypted byte.
pub fn evaluate_8_to_8_cipher_lut(
    selectors: &GgswSelectors,
    cipher_lut: &mut Vec<GlweCipher>,
    poly_size: usize,
) -> (out: Vec<LweCipher>)
    requires
        selectors.wf(),
        selectors.count == 8,
        selectors.poly_size == poly_size,
        old(cipher_lut).len() == crate::lut::num_accumulators_spec(
            crate::lut::num_par_lut_spec(poly_size as int),
        ),
        forall|a: int|
            0 <= a < old(cipher_lut).len() ==> glwe_data(#[trigger] old(cipher_lut)@[a]).len()
                == selectors.glwe_size * poly_size,
        forall|a: int|
            0 <= a < old(cipher_lut).len() ==> glwe_poly_size(#[trigger] old(cipher_lut)@[a])
                == poly_size,
        forall|a: int|
            0 <= a < old(cipher_lut).len() ==> glwe_modulus_native(#[trigger] old(cipher_lut)@[a]),
    ensures
        final(cipher_lut).len() == old(cipher_lut).len(),
        forall|a: int|
            0 <= a < old(cipher_lut).len() ==> glwe_data(#[trigger] final(cipher_lut)@[a])
                == cbs_walk_spec(
                glwe_data(old(cipher_lut)@[a]),
                poly_size as int,
                selectors.data@,
                selectors.base_log as int,
                selectors.level as int,
                8,
            ),
        out.len() == 8,
        forall|g: int|
            0 <= g < 8 ==> lwe_data(#[trigger] out@[g]) == extract_lwe_spec(
                cbs_walk_spec(
                    glwe_data(
                        old(cipher_lut)@[g / crate::lut::num_par_lut_spec(poly_size as int)],
                    ),
                    poly_size as int,
                    selectors.data@,
                    selectors.base_log as int,
                    selectors.level as int,
                    8,
                ),
                poly_size as int,
                (g % crate::lut::num_par_lut_spec(poly_size as int)) * 256,
            ),
        forall|g: int| 0 <= g < 8 ==> lwe_modulus_native(#[trigger] out@[g]),
{
    let npl: usize = crate::lut::num_par_lut(poly_size);
    let nacc: usize = crate::lut::num_accumulators(npl);
    proof {
        crate::lut::lemma_accumulators_cover_all_planes(npl as int);
        assert(poly_size == 256 * npl) by (nonlinear_arith)
            requires
                npl == poly_size / 256 && (poly_size == 256 || poly_size == 512 || poly_size
                    == 1024 || poly_size == 2048),
        ;
    }
    let mut out: Vec<LweCipher> = Vec::new();
    let mut a: usize = 0;
    while a < nacc
        invariant
            a <= nacc,
            npl == crate::lut::num_par_lut_spec(poly_size as int),
            npl >= 1,
            npl <= 8,
            poly_size == 256 * npl,
            nacc == crate::lut::num_accumulators_spec(npl as int),
            nacc * npl >= 8,
            selectors.wf(),
            selectors.count == 8,
            selectors.poly_size == poly_size,
            cipher_lut.len() == nacc,
            old(cipher_lut).len() == nacc,
            forall|k: int|
                0 <= k < nacc ==> glwe_data(#[trigger] old(cipher_lut)@[k]).len()
                    == selectors.glwe_size * poly_size,
            forall|k: int|
                0 <= k < nacc ==> glwe_poly_size(#[trigger] old(cipher_lut)@[k]) == poly_size,
            forall|k: int|
                0 <= k < nacc ==> glwe_modulus_native(#[trigger] old(cipher_lut)@[k]),
            forall|k: int| a <= k < nacc ==> #[trigger] cipher_lut@[k] == old(cipher_lut)@[k],
            forall|k: int|
                0 <= k < a ==> glwe_data(#[trigger] cipher_lut@[k]) == cbs_walk_spec(
                    glwe_data(old(cipher_lut)@[k]),
                    poly_size as int,
                    selectors.data@,
                    selectors.base_log as int,
                    selectors.level as int,
                    8,
                ),
            out.len() == if a * npl < 8 { a * npl } else { 8usize as int },
            forall|g: int|
                0 <= g < out.len() ==> lwe_data(#[trigger] out@[g]) == extract_lwe_spec(
                    cbs_walk_spec(
                        glwe_data(old(cipher_lut)@[g / (npl as int)]),
                        poly_size as int,
                        selectors.data@,
                        selectors.base_log as int,
                        selectors.level as int,
                        8,
                    ),
                    poly_size as int,
                    (g % (npl as int)) * 256,
                ),
            forall|g: int| 0 <= g < out.len() ==> lwe_modulus_native(#[trigger] out@[g]),
        decreases nacc - a,
    {
        proof {
            crate::lut::lemma_accumulator_index_bound(npl as int, nacc as int, a as int);
        }
        let start: Vec<u64> = glwe_to_coeffs(&cipher_lut[a]);
        let mut acc: GlweCipher = glwe_from_coeffs(&start, poly_size);
        let mut i: usize = 0;
        while i < 8
            invariant
                i <= 8,
                a < nacc,
                selectors.wf(),
                selectors.count == 8,
                selectors.poly_size == poly_size,
                start@ == glwe_data(old(cipher_lut)@[a as int]),
                start.len() == selectors.glwe_size * poly_size,
                glwe_data(acc) == cbs_walk_spec(
                    start@,
                    poly_size as int,
                    selectors.data@,
                    selectors.base_log as int,
                    selectors.level as int,
                    i as int,
                ),
                glwe_data(acc).len() == selectors.glwe_size * poly_size,
                glwe_poly_size(acc) == poly_size,
                glwe_modulus_native(acc),
            decreases 8 - i,
        {
            let cur: Vec<u64> = glwe_to_coeffs(&acc);
            proof {
                assert((cur.len() as int) % (poly_size as int) == 0) by (nonlinear_arith)
                    requires
                        poly_size >= 1 && cur.len() == selectors.glwe_size * poly_size
                            && selectors.glwe_size >= 1,
                ;
                assert(cur.len() <= 8 * 2048) by (nonlinear_arith)
                    requires
                        cur.len() == selectors.glwe_size * poly_size && selectors.glwe_size <= 8
                            && poly_size <= 2048,
                ;
                assert((1usize << (i as u32)) <= 128 && (1usize << (i as u32)) == ((1u64 << (
                i as u64)) as int)) by (bit_vector)
                    requires
                        i < 8,
                ;
            }
            let d: usize = 1usize << (i as u32);
            let rs: Vec<u64> = glwe_rot_sub_coeffs(&cur, poly_size, d);
            let buf: GlweCipher = glwe_from_coeffs(&rs, poly_size);
            add_external_product(&mut acc, selectors, i, &buf);
            i = i + 1;
        }
        let mut p: usize = 0;
        while p < npl && a * npl + p < 8
            invariant
                p <= npl,
                a * npl + p <= 8,
                a * npl < 8,
                a < nacc,
                npl >= 1,
                npl <= 8,
                poly_size == 256 * npl,
                selectors.wf(),
                selectors.poly_size == poly_size,
                glwe_data(acc) == cbs_walk_spec(
                    glwe_data(old(cipher_lut)@[a as int]),
                    poly_size as int,
                    selectors.data@,
                    selectors.base_log as int,
                    selectors.level as int,
                    8,
                ),
                glwe_poly_size(acc) == poly_size,
                glwe_modulus_native(acc),
                out.len() == a * npl + p,
                forall|k: int|
                    0 <= k < nacc ==> glwe_data(#[trigger] old(cipher_lut)@[k]).len()
                        == selectors.glwe_size * poly_size,
                forall|g: int|
                    0 <= g < out.len() ==> lwe_data(#[trigger] out@[g]) == extract_lwe_spec(
                        cbs_walk_spec(
                            glwe_data(old(cipher_lut)@[g / (npl as int)]),
                            poly_size as int,
                            selectors.data@,
                            selectors.base_log as int,
                            selectors.level as int,
                            8,
                        ),
                        poly_size as int,
                        (g % (npl as int)) * 256,
                    ),
                forall|g: int| 0 <= g < out.len() ==> lwe_modulus_native(#[trigger] out@[g]),
            decreases npl - p,
        {
            proof {
                assert(p * 256 + 256 <= poly_size) by (nonlinear_arith)
                    requires
                        p < npl && poly_size == 256 * npl,
                ;
                let g = (a * npl + p) as int;
                assert(g / (npl as int) == a && g % (npl as int) == p) by (nonlinear_arith)
                    requires
                        npl >= 1 && 0 <= p < npl && a >= 0 && g == a * npl + p,
                ;
            }
            let lwe: LweCipher = extract_lwe_sample(&acc, p * 256);
            out.push(lwe);
            p = p + 1;
        }
        proof {
            assert(a * npl + p == if (a + 1) * npl < 8 {
                (a + 1) * npl as int
            } else {
                8
            }) by (nonlinear_arith)
                requires
                    npl >= 1,
                    p <= npl,
                    a >= 0,
                    a * npl < 8,
                    a * npl + p <= 8,
                    p == npl || a * npl + p == 8,
            ;
        }
        cipher_lut.set(a, acc);
        a = a + 1;
    }
    out
}


/// Relies on Clone of tfhe's LweCiphertext container: the copy holds the
/// same coefficients at the same modulus.
#[verifier::external_body]
fn lwe_duplicate(ct: &LweCipher) -> (r: LweCipher)
    ensures
        lwe_data(r) == lwe_data(*ct),
        lwe_modulus_native(r) == lwe_modulus_native(*ct),
{
    LweCipher { inner: ct.inner.clone() }
}

/// Inverse ShiftRows on the encrypted state: a pure relabeling of the
/// 128 encrypted bits, eight per state byte.
pub fn he_inv_shift_rows(he_state: &Vec<LweCipher>) -> (r: Vec<LweCipher>)
    requires
        he_state.len() == 128,
    ensures
        r.len() == 128,
        forall|k: int|
            0 <= k < 128 ==> lwe_data(#[trigger] r@[k]) == lwe_data(
                he_state@[8 * crate::state::inv_shift_rows_src(k / 8) + (k % 8)],
            ),
        forall|k: int|
            0 <= k < 128 ==> lwe_modulus_native(#[trigger] r@[k]) == lwe_modulus_native(
                he_state@[8 * crate::state::inv_shift_rows_src(k / 8) + (k % 8)],
            ),
{
    let mut r: Vec<LweCipher> = Vec::new();
    let mut k: usize = 0;
    while k < 128
        invariant
            k <= 128,
            r.len() == k,
            he_state.len() == 128,
            forall|m: int|
                0 <= m < k ==> lwe_data(#[trigger] r@[m]) == lwe_data(
                    he_state@[8 * crate::state::inv_shift_rows_src(m / 8) + (m % 8)],
                ),
            forall|m: int|
                0 <= m < k ==> lwe_modulus_native(#[trigger] r@[m]) == lwe_modulus_native(
                    he_state@[8 * crate::state::inv_shift_rows_src(m / 8) + (m % 8)],
                ),
        decreases 128 - k,
    {
        let j: usize = k / 8;
        let b: usize = k % 8;
        let row: usize = j % 4;
        let col: usize = j / 4;
        let src_byte: usize = 4 * ((col + 4 - row) % 4) + row;
        proof {
            assert(src_byte == crate::state::inv_shift_rows_src(k as int / 8));
        }
        r.push(lwe_duplicate(&he_state[8 * src_byte + b]));
        k = k + 1;
    }
    r
}

/// Precomputed inverse MixColumns on the encrypted state: each output
/// bit is the XOR-add of the four Galois-multiplied copies of the
/// state, taken at the row offsets fixed by the AES specification.
pub fn he_inv_mix_columns_precomp(
    he_state_mult_by_9: &Vec<LweCipher>,
    he_state_mult_by_11: &Vec<LweCipher>,
    he_state_mult_by_13: &Vec<LweCipher>,
    he_state_mult_by_14: &Vec<LweCipher>,
) -> (r: Vec<LweCipher>)
    requires
        he_state_mult_by_9.len() == 128,
        he_state_mult_by_11.len() == 128,
        he_state_mult_by_13.len() == 128,
        he_state_mult_by_14.len() == 128,
        forall|k: int, m: int|
            0 <= k < 128 && 0 <= m < 128 ==> lwe_data(#[trigger] he_state_mult_by_9@[k]).len()
                == lwe_data(#[trigger] he_state_mult_by_9@[m]).len(),
        forall|k: int|
            0 <= k < 128 ==> lwe_data(#[trigger] he_state_mult_by_11@[k]).len() == lwe_data(
                he_state_mult_by_9@[k],
            ).len(),
        forall|k: int|
            0 <= k < 128 ==> lwe_data(#[trigger] he_state_mult_by_13@[k]).len() == lwe_data(
                he_state_mult_by_9@[k],
            ).len(),
        forall|k: int|
            0 <= k < 128 ==> lwe_data(#[trigger] he_state_mult_by_14@[k]).len() == lwe_data(
                he_state_mult_by_9@[k],
            ).len(),
        forall|k: int| 0 <= k < 128 ==> lwe_modulus_native(#[trigger] he_state_mult_by_9@[k]),
        forall|k: int| 0 <= k < 128 ==> lwe_modulus_native(#[trigger] he_state_mult_by_11@[k]),
        forall|k: int| 0 <= k < 128 ==> lwe_modulus_native(#[trigger] he_state_mult_by_13@[k]),
        forall|k: int| 0 <= k < 128 ==> lwe_modulus_native(#[trigger] he_state_mult_by_14@[k]),
    ensures
        r.len() == 128,
        forall|k: int|
            0 <= k < 128 ==> lwe_data(#[trigger] r@[k]) == seq_wadd(
                seq_wadd(
                    seq_wadd(
                        lwe_data(
                            he_state_mult_by_14@[8 * crate::state::byte_index(
                                (k / 8) % 4,
                                (k / 8) / 4,
                            ) + (k % 8)],
                        ),
                        lwe_data(
                            he_state_mult_by_11@[8 * crate::state::byte_index(
                                ((k / 8) % 4 + 1) % 4,
                                (k / 8) / 4,
                            ) + (k % 8)],
                        ),
                    ),
                    lwe_data(
                        he_state_mult_by_13@[8 * crate::state::byte_index(
                            ((k / 8) % 4 + 2) % 4,
                            (k / 8) / 4,
                        ) + (k % 8)],
                    ),
                ),
                lwe_data(
                    he_state_mult_by_9@[8 * crate::state::byte_index(
                        ((k / 8) % 4 + 3) % 4,
                        (k / 8) / 4,
                    ) + (k % 8)],
                ),
            ),
        forall|k: int| 0 <= k < 128 ==> lwe_modulus_native(#[trigger] r@[k]),
{
    let mut r: Vec<LweCipher> = Vec::new();
    let mut k: usize = 0;
    while k < 128
        invariant
            k <= 128,
            r.len() == k,
            he_state_mult_by_9.len() == 128,
            he_state_mult_by_11.len() == 128,
            he_state_mult_by_13.len() == 128,
            he_state_mult_by_14.len() == 128,
            forall|m: int, m2: int|
                0 <= m < 128 && 0 <= m2 < 128 ==> lwe_data(
                    #[trigger] he_state_mult_by_9@[m],
                ).len() == lwe_data(#[trigger] he_state_mult_by_9@[m2]).len(),
            forall|m: int|
                0 <= m < 128 ==> lwe_data(#[trigger] he_state_mult_by_11@[m]).len() == lwe_data(
                    he_state_mult_by_9@[m],
                ).len(),
            forall|m: int|
                0 <= m < 128 ==> lwe_data(#[trigger] he_state_mult_by_13@[m]).len() == lwe_data(
                    he_state_mult_by_9@[m],
                ).len(),
            forall|m: int|
                0 <= m < 128 ==> lwe_data(#[trigger] he_state_mult_by_14@[m]).len() == lwe_data(
                    he_state_mult_by_9@[m],
                ).len(),
            forall|m: int| 0 <= m < 128 ==> lwe_modulus_native(#[trigger] he_state_mult_by_9@[m]),
            forall|m: int| 0 <= m < 128 ==> lwe_modulus_native(#[trigger] he_state_mult_by_11@[m]),
            forall|m: int| 0 <= m < 128 ==> lwe_modulus_native(#[trigger] he_state_mult_by_13@[m]),
            forall|m: int| 0 <= m < 128 ==> lwe_modulus_native(#[trigger] he_state_mult_by_14@[m]),
            forall|m: int|
                0 <= m < k ==> lwe_data(#[trigger] r@[m]) == seq_wadd(
                    seq_wadd(
                        seq_wadd(
                            lwe_data(
                                he_state_mult_by_14@[8 * crate::state::byte_index(
                                    (m / 8) % 4,
                                    (m / 8) / 4,
                                ) + (m % 8)],
                            ),
                            lwe_data(
                                he_state_mult_by_11@[8 * crate::state::byte_index(
                                    ((m / 8) % 4 + 1) % 4,
                                    (m / 8) / 4,
                                ) + (m % 8)],
                            ),
                        ),
                        lwe_data(
                            he_state_mult_by_13@[8 * crate::state::byte_index(
                                ((m / 8) % 4 + 2) % 4,
                                (m / 8) / 4,
                            ) + (m % 8)],
                        ),
                    ),
                    lwe_data(
                        he_state_mult_by_9@[8 * crate::state::byte_index(
                            ((m / 8) % 4 + 3) % 4,
                            (m / 8) / 4,
                        ) + (m % 8)],
                    ),
                ),
            forall|m: int| 0 <= m < k ==> lwe_modulus_native(#[trigger] r@[m]),
        decreases 128 - k,
    {
        let j: usize = k / 8;
        let b: usize = k % 8;
        let row: usize = j % 4;
        let col: usize = j / 4;
        let i14: usize = 8 * (4 * col + row) + b;
        let i11: usize = 8 * (4 * col + (row + 1) % 4) + b;
        let i13: usize = 8 * (4 * col + (row + 2) % 4) + b;
        let i9: usize = 8 * (4 * col + (row + 3) % 4) + b;
        let t1: LweCipher = lwe_add(&he_state_mult_by_14[i14], &he_state_mult_by_11[i11]);
        let t2: LweCipher = lwe_add(&t1, &he_state_mult_by_13[i13]);
        let t3: LweCipher = lwe_add(&t2, &he_state_mult_by_9[i9]);
        r.push(t3);
        k = k + 1;
    }
    r
}


/// Relies on Clone of tfhe's GlweCiphertext container: the copy holds
/// the same coefficients, ring degree and modulus.
#[verifier::external_body]
fn glwe_duplicate(ct: &GlweCipher) -> (r: GlweCipher)
    ensures
        glwe_data(r) == glwe_data(*ct),
        glwe_poly_size(r) == glwe_poly_size(*ct),
        glwe_modulus_native(r) == glwe_modulus_native(*ct),
{
    GlweCipher { inner: ct.inner.clone() }
}

/// The coefficients of output bit `g` of a block-wide keyed lookup: the
/// walk of byte `g / 8`'s selectors over the matching accumulator,
/// sampled at the packed plane's window.
pub open spec fn he_lut_bit_spec(
    accs: Seq<Vec<GlweCipher>>,
    sels: Seq<GgswSelectors>,
    poly_size: int,
    g: int,
) -> Seq<u64>
    recommends
        accs.len() == 16,
        sels.len() == 16,
        0 <= g < 128,
{
    let npl = crate::lut::num_par_lut_spec(poly_size);
    extract_lwe_spec(
        cbs_walk_spec(
            glwe_data(accs[g / 8]@[(g % 8) / npl]),
            poly_size,
            sels[g / 8].data@,
            sels[g / 8].base_log as int,
            sels[g / 8].level as int,
            8,
        ),
        poly_size,
        ((g % 8) % npl) * 256,
    )
}

/// A well-formed accumulator bundle for a block-wide walk: 16 lists of
/// accumulators matching the selector geometry.
pub open spec fn wf_walk_accs(
    accs: Seq<Vec<GlweCipher>>,
    glwe_size: int,
    poly_size: int,
) -> bool {
    &&& accs.len() == 16
    &&& forall|j: int|
        0 <= j < 16 ==> (#[trigger] accs[j]).len() == crate::lut::num_accumulators_spec(
            crate::lut::num_par_lut_spec(poly_size),
        )
    &&& forall|j: int, a: int|
        0 <= j < 16 && 0 <= a < accs[j].len() ==> glwe_data(#[trigger] accs[j]@[a]).len()
            == glwe_size * poly_size
    &&& forall|j: int, a: int|
        0 <= j < 16 && 0 <= a < accs[j].len() ==> glwe_poly_size(#[trigger] accs[j]@[a])
            == poly_size
    &&& forall|j: int, a: int|
        0 <= j < 16 && 0 <= a < accs[j].len() ==> glwe_modulus_native(#[trigger] accs[j]@[a])
}

fn walk_one_table_set(
    selectors: &Vec<GgswSelectors>,
    accs: &Vec<Vec<GlweCipher>>,
    poly_size: usize,
    glwe_size: usize,
) -> (out: Vec<LweCipher>)
    requires
        selectors.len() == 16,
        forall|j: int| 0 <= j < 16 ==> (#[trigger] selectors@[j]).wf(),
        forall|j: int| 0 <= j < 16 ==> (#[trigger] selectors@[j]).count == 8,
        forall|j: int| 0 <= j < 16 ==> (#[trigger] selectors@[j]).poly_size == poly_size,
        forall|j: int| 0 <= j < 16 ==> (#[trigger] selectors@[j]).glwe_size == glwe_size,
        wf_walk_accs(accs@, glwe_size as int, poly_size as int),
    ensures
        out.len() == 128,
        forall|k: int|
            0 <= k < 128 ==> lwe_data(#[trigger] out@[k]) == he_lut_bit_spec(
                accs@,
                selectors@,
                poly_size as int,
                k,
            ),
        forall|k: int| 0 <= k < 128 ==> lwe_modulus_native(#[trigger] out@[k]),
{
    let mut out: Vec<LweCipher> = Vec::new();
    let mut j: usize = 0;
    while j < 16
        invariant
            j <= 16,
            out.len() == 8 * j,
            selectors.len() == 16,
            forall|m: int| 0 <= m < 16 ==> (#[trigger] selectors@[m]).wf(),
            forall|m: int| 0 <= m < 16 ==> (#[trigger] selectors@[m]).count == 8,
            forall|m: int| 0 <= m < 16 ==> (#[trigger] selectors@[m]).poly_size == poly_size,
            forall|m: int| 0 <= m < 16 ==> (#[trigger] selectors@[m]).glwe_size == glwe_size,
            wf_walk_accs(accs@, glwe_size as int, poly_size as int),
            forall|k: int|
                0 <= k < 8 * j ==> lwe_data(#[trigger] out@[k]) == he_lut_bit_spec(
                    accs@,
                    selectors@,
                    poly_size as int,
                    k,
                ),
            forall|k: int| 0 <= k < 8 * j ==> lwe_modulus_native(#[trigger] out@[k]),
        decreases 16 - j,
    {
        let mut local: Vec<GlweCipher> = Vec::new();
        let mut a: usize = 0;
        let nacc: usize = accs[j].len();
        while a < nacc
            invariant
                a <= nacc,
                local.len() == a,
                j < 16,
                accs.len() == 16,
                nacc == accs@[j as int].len(),
                forall|m: int|
                    0 <= m < a ==> glwe_data(#[trigger] local@[m]) == glwe_data(
                        accs@[j as int]@[m],
                    ),
                forall|m: int|
                    0 <= m < a ==> glwe_poly_size(#[trigger] local@[m]) == glwe_poly_size(
                        accs@[j as int]@[m],
                    ),
                forall|m: int|
                    0 <= m < a ==> glwe_modulus_native(#[trigger] local@[m]) == glwe_modulus_native(
                        accs@[j as int]@[m],
                    ),
            decreases nacc - a,
        {
            local.push(glwe_duplicate(&accs[j][a]));
            a = a + 1;
        }
        let ghost local_before: Seq<GlweCipher> = local@;
        let bits: Vec<LweCipher> = evaluate_8_to_8_cipher_lut(&selectors[j], &mut local, poly_size);
        proof {
            let npl = crate::lut::num_par_lut_spec(poly_size as int);
            assert(npl >= 1) by (nonlinear_arith)
                requires
                    npl == (poly_size as int) / 256 && poly_size >= 256,
            ;
            crate::lut::lemma_accumulators_cover_all_planes(npl);
            assert(local_before.len() == crate::lut::num_accumulators_spec(npl));
            assert forall|m: int|
                0 <= m < 8 implies lwe_data(#[trigger] bits@[m]) == he_lut_bit_spec(
                accs@,
                selectors@,
                poly_size as int,
                8 * (j as int) + m,
            ) by {
                let gg = 8 * (j as int) + m;
                assert(gg / 8 == j && gg % 8 == m) by (nonlinear_arith)
                    requires
                        0 <= m < 8 && 0 <= j && gg == 8 * (j as int) + m,
                ;
                assert(0 <= m / npl < local_before.len()) by (nonlinear_arith)
                    requires
                        npl >= 1,
                        0 <= m < 8,
                        local_before.len() * npl >= 8,
                ;
                assert(glwe_data(local_before[m / npl]) == glwe_data(accs@[j as int]@[m / npl]));
            }
        }
        let mut g: usize = 0;
        while g < 8
            invariant
                g <= 8,
                j < 16,
                out.len() == 8 * j + g,
                bits.len() == 8,
                selectors.len() == 16,
                accs.len() == 16,
                forall|m: int|
                    0 <= m < 8 ==> lwe_data(#[trigger] bits@[m]) == he_lut_bit_spec(
                        accs@,
                        selectors@,
                        poly_size as int,
                        8 * (j as int) + m,
                    ),
                forall|m: int| 0 <= m < 8 ==> lwe_modulus_native(#[trigger] bits@[m]),
                forall|k: int|
                    0 <= k < 8 * j + g ==> lwe_data(#[trigger] out@[k]) == he_lut_bit_spec(
                        accs@,
                        selectors@,
                        poly_size as int,
                        k,
                    ),
                forall|k: int| 0 <= k < 8 * j + g ==> lwe_modulus_native(#[trigger] out@[k]),
            decreases 8 - g,
        {
            out.push(lwe_duplicate(&bits[g]));
            g = g + 1;
        }
        j = j + 1;
    }
    out
}

/// The block-wide keyed lookup: the sixteen byte positions' selector
/// sets each walk the four Galois-variant accumulator tables of their
/// position, and the four resulting encrypted states come back in
/// multiplier order 9, 11, 13, 14. The accumulators are cloned per walk
/// because the walk consumes them.
pub fn blind_rotate_keyed_sboxes(
    selectors: &Vec<GgswSelectors>,
    vec_keyed_sbox_9_acc: &Vec<Vec<GlweCipher>>,
    vec_keyed_sbox_11_acc: &Vec<Vec<GlweCipher>>,
    vec_keyed_sbox_13_acc: &Vec<Vec<GlweCipher>>,
    vec_keyed_sbox_14_acc: &Vec<Vec<GlweCipher>>,
    poly_size: usize,
    glwe_size: usize,
) -> (r: (Vec<LweCipher>, Vec<LweCipher>, Vec<LweCipher>, Vec<LweCipher>))
    requires
        selectors.len() == 16,
        forall|j: int| 0 <= j < 16 ==> (#[trigger] selectors@[j]).wf(),
        forall|j: int| 0 <= j < 16 ==> (#[trigger] selectors@[j]).count == 8,
        forall|j: int| 0 <= j < 16 ==> (#[trigger] selectors@[j]).poly_size == poly_size,
        forall|j: int| 0 <= j < 16 ==> (#[trigger] selectors@[j]).glwe_size == glwe_size,
        wf_walk_accs(vec_keyed_sbox_9_acc@, glwe_size as int, poly_size as int),
        wf_walk_accs(vec_keyed_sbox_11_acc@, glwe_size as int, poly_size as int),
        wf_walk_accs(vec_keyed_sbox_13_acc@, glwe_size as int, poly_size as int),
        wf_walk_accs(vec_keyed_sbox_14_acc@, glwe_size as int, poly_size as int),
    ensures
        r.0.len() == 128 && r.1.len() == 128 && r.2.len() == 128 && r.3.len() == 128,
        forall|k: int|
            0 <= k < 128 ==> lwe_data(#[trigger] r.0@[k]) == he_lut_bit_spec(
                vec_keyed_sbox_9_acc@,
                selectors@,
                poly_size as int,
                k,
            ),
        forall|k: int|
            0 <= k < 128 ==> lwe_data(#[trigger] r.1@[k]) == he_lut_bit_spec(
                vec_keyed_sbox_11_acc@,
                selectors@,
                poly_size as int,
                k,
            ),
        forall|k: int|
            0 <= k < 128 ==> lwe_data(#[trigger] r.2@[k]) == he_lut_bit_spec(
                vec_keyed_sbox_13_acc@,
                selectors@,
                poly_size as int,
                k,
            ),
        forall|k: int|
            0 <= k < 128 ==> lwe_data(#[trigger] r.3@[k]) == he_lut_bit_spec(
                vec_keyed_sbox_14_acc@,
                selectors@,
                poly_size as int,
                k,
            ),
        forall|k: int| 0 <= k < 128 ==> lwe_modulus_native(#[trigger] r.0@[k]),
        forall|k: int| 0 <= k < 128 ==> lwe_modulus_native(#[trigger] r.1@[k]),
        forall|k: int| 0 <= k < 128 ==> lwe_modulus_native(#[trigger] r.2@[k]),
        forall|k: int| 0 <= k < 128 ==> lwe_modulus_native(#[trigger] r.3@[k]),
{
    (
        walk_one_table_set(selectors, vec_keyed_sbox_9_acc, poly_size, glwe_size),
        walk_one_table_set(selectors, vec_keyed_sbox_11_acc, poly_size, glwe_size),
        walk_one_table_set(selectors, vec_keyed_sbox_13_acc, poly_size, glwe_size),
        walk_one_table_set(selectors, vec_keyed_sbox_14_acc, poly_size, glwe_size),
    )
}


/// AddRoundKey on the encrypted state: the encrypted round key is
/// XOR-added bit by bit.
pub fn he_add_round_key(he_state: &mut Vec<LweCipher>, he_round_key: &Vec<LweCipher>)
    requires
        old(he_state).len() == he_round_key.len(),
        forall|k: int|
            0 <= k < old(he_state).len() ==> lwe_data(#[trigger] old(he_state)@[k]).len()
                == lwe_data(#[trigger] he_round_key@[k]).len(),
        forall|k: int| 0 <= k < old(he_state).len() ==> lwe_modulus_native(#[trigger] old(he_state)@[k]),
        forall|k: int| 0 <= k < he_round_key.len() ==> lwe_modulus_native(#[trigger] he_round_key@[k]),
    ensures
        final(he_state).len() == old(he_state).len(),
        forall|k: int|
            0 <= k < old(he_state).len() ==> lwe_data(#[trigger] final(he_state)@[k]) == seq_wadd(
                lwe_data(old(he_state)@[k]),
                lwe_data(he_round_key@[k]),
            ),
        forall|k: int| 0 <= k < old(he_state).len() ==> lwe_modulus_native(#[trigger] final(he_state)@[k]),
{
    let mut k: usize = 0;
    while k < he_state.len()
        invariant
            k <= he_state.len(),
            he_state.len() == old(he_state).len(),
            he_state.len() == he_round_key.len(),
            forall|m: int|
                0 <= m < old(he_state).len() ==> lwe_data(#[trigger] old(he_state)@[m]).len()
                    == lwe_data(#[trigger] he_round_key@[m]).len(),
            forall|m: int|
                0 <= m < old(he_state).len() ==> lwe_modulus_native(#[trigger] old(he_state)@[m]),
            forall|m: int|
                0 <= m < he_round_key.len() ==> lwe_modulus_native(#[trigger] he_round_key@[m]),
            forall|m: int| k <= m < he_state.len() ==> #[trigger] he_state@[m] == old(he_state)@[m],
            forall|m: int|
                0 <= m < k ==> lwe_data(#[trigger] he_state@[m]) == seq_wadd(
                    lwe_data(old(he_state)@[m]),
                    lwe_data(he_round_key@[m]),
                ),
            forall|m: int| 0 <= m < k ==> lwe_modulus_native(#[trigger] he_state@[m]),
        decreases he_state.len() - k,
    {
        let s: LweCipher = lwe_add(&he_state[k], &he_round_key[k]);
        he_state.set(k, s);
        k = k + 1;
    }
}

/// Source byte index that forward ShiftRows moves into destination
/// index `j`: row `r` is rotated left by `r` columns.
pub open spec fn shift_rows_src(j: int) -> int
    recommends
        0 <= j < 16,
{
    let row = j % 4;
    let col = j / 4;
    4 * ((col + row) % 4) + row
}

/// Forward ShiftRows on the encrypted state: a pure relabeling of the
/// 128 encrypted bits.
pub fn he_shift_rows(he_state: &Vec<LweCipher>) -> (r: Vec<LweCipher>)
    requires
        he_state.len() == 128,
    ensures
        r.len() == 128,
        forall|k: int|
            0 <= k < 128 ==> lwe_data(#[trigger] r@[k]) == lwe_data(
                he_state@[8 * shift_rows_src(k / 8) + (k % 8)],
            ),
        forall|k: int|
            0 <= k < 128 ==> lwe_modulus_native(#[trigger] r@[k]) == lwe_modulus_native(
                he_state@[8 * shift_rows_src(k / 8) + (k % 8)],
            ),
{
    let mut r: Vec<LweCipher> = Vec::new();
    let mut k: usize = 0;
    while k < 128
        invariant
            k <= 128,
            r.len() == k,
            he_state.len() == 128,
            forall|m: int|
                0 <= m < k ==> lwe_data(#[trigger] r@[m]) == lwe_data(
                    he_state@[8 * shift_rows_src(m / 8) + (m % 8)],
                ),
            forall|m: int|
                0 <= m < k ==> lwe_modulus_native(#[trigger] r@[m]) == lwe_modulus_native(
                    he_state@[8 * shift_rows_src(m / 8) + (m % 8)],
                ),
        decreases 128 - k,
    {
        let j: usize = k / 8;
        let b: usize = k % 8;
        let row: usize = j % 4;
        let col: usize = j / 4;
        let src_byte: usize = 4 * ((col + row) % 4) + row;
        proof {
            assert(src_byte == shift_rows_src(k as int / 8));
        }
        r.push(lwe_duplicate(&he_state[8 * src_byte + b]));
        k = k + 1;
    }
    r
}

/// Doubling in the Galois field on one encrypted byte, bits least
/// significant first as the lookup planes produce them: every bit moves
/// up one place and the old top bit folds back, XOR-added at the
/// positions where the reduction polynomial has its ones and copied
/// into the vacated bottom place.
pub fn he_mult_by_two(he_byte: &Vec<LweCipher>) -> (r: Vec<LweCipher>)
    requires
        he_byte.len() == 8,
        forall|k: int, m: int|
            0 <= k < 8 && 0 <= m < 8 ==> lwe_data(#[trigger] he_byte@[k]).len() == lwe_data(
                #[trigger] he_byte@[m],
            ).len(),
        forall|k: int| 0 <= k < 8 ==> lwe_modulus_native(#[trigger] he_byte@[k]),
    ensures
        r.len() == 8,
        lwe_data(r@[0]) == lwe_data(he_byte@[7]),
        lwe_data(r@[1]) == seq_wadd(lwe_data(he_byte@[0]), lwe_data(he_byte@[7])),
        lwe_data(r@[2]) == lwe_data(he_byte@[1]),
        lwe_data(r@[3]) == seq_wadd(lwe_data(he_byte@[2]), lwe_data(he_byte@[7])),
        lwe_data(r@[4]) == seq_wadd(lwe_data(he_byte@[3]), lwe_data(he_byte@[7])),
        lwe_data(r@[5]) == lwe_data(he_byte@[4]),
        lwe_data(r@[6]) == lwe_data(he_byte@[5]),
        lwe_data(r@[7]) == lwe_data(he_byte@[6]),
        forall|k: int| 0 <= k < 8 ==> lwe_modulus_native(#[trigger] r@[k]),
{
    let mut r: Vec<LweCipher> = Vec::new();
    r.push(lwe_duplicate(&he_byte[7]));
    r.push(lwe_add(&he_byte[0], &he_byte[7]));
    r.push(lwe_duplicate(&he_byte[1]));
    r.push(lwe_add(&he_byte[2], &he_byte[7]));
    r.push(lwe_add(&he_byte[3], &he_byte[7]));
    r.push(lwe_duplicate(&he_byte[4]));
    r.push(lwe_duplicate(&he_byte[5]));
    r.push(lwe_duplicate(&he_byte[6]));
    r
}


/// The layout of an LWE ciphertext embedded as the constant coefficient
/// of a GLWE ciphertext: each mask polynomial keeps its first element
/// and carries the rest reversed and negated, so that sample extraction
/// at degree zero undoes the embedding; the body polynomial holds the
/// LWE body in its constant coefficient.
pub open spec fn lwe_embed_spec(lwe: Seq<u64>, n: int) -> Seq<u64>
    recommends
        n >= 1,
        lwe.len() >= 1,
        ((lwe.len() - 1) as int) % n == 0,
{
    let klen = lwe.len() - 1;
    Seq::new(
        (klen + n) as nat,
        |i: int|
            if i < klen {
                let s = i % n;
                if s == 0 {
                    lwe[(i / n) * n]
                } else {
                    crate::lut::wneg(lwe[(i / n) * n + n - s])
                }
            } else if i == klen {
                lwe[lwe.len() - 1]
            } else {
                0u64
            },
    )
}

/// Embeds an encrypted bit into a GLWE ciphertext as its constant
/// coefficient, so that it can enter a conditional select.
pub fn lwe_to_glwe_const(ct: &LweCipher, poly_size: usize) -> (r: GlweCipher)
    requires
        poly_size >= 1,
        poly_size <= 0x1000_0000,
        lwe_data(*ct).len() >= 2,
        lwe_data(*ct).len() <= 0x1000_0000,
        ((lwe_data(*ct).len() - 1) as int) % (poly_size as int) == 0,
        lwe_modulus_native(*ct),
    ensures
        glwe_data(r) == lwe_embed_spec(lwe_data(*ct), poly_size as int),
        glwe_poly_size(r) == poly_size,
        glwe_modulus_native(r),
{
    let lwe: Vec<u64> = lwe_to_coeffs(ct);
    let klen: usize = lwe.len() - 1;
    let mut coeffs: Vec<u64> = Vec::new();
    let mut i: usize = 0;
    while i < klen
        invariant
            i <= klen,
            coeffs.len() == i,
            klen == lwe.len() - 1,
            lwe.len() >= 2,
            lwe.len() <= 0x1000_0000,
            poly_size >= 1,
            (klen as int) % (poly_size as int) == 0,
            forall|m: int|
                0 <= m < i ==> coeffs@[m] == lwe_embed_spec(lwe@, poly_size as int)[m],
        decreases klen - i,
    {
        let s: usize = i % poly_size;
        proof {
            assert(((i as int) / (poly_size as int)) * (poly_size as int) + ((i as int) % (
            poly_size as int)) == i && ((i as int) / (poly_size as int)) * (poly_size as int) >= 0
                && ((i as int) / (poly_size as int)) * (poly_size as int) + poly_size <= klen)
                by (nonlinear_arith)
                requires
                    poly_size >= 1 && 0 <= i < klen && (klen as int) % (poly_size as int) == 0,
            ;
        }
        if s == 0 {
            coeffs.push(lwe[i]);
        } else {
            coeffs.push((0u64).wrapping_sub(lwe[(i / poly_size) * poly_size + poly_size - s]));
        }
        i = i + 1;
    }
    coeffs.push(lwe[klen]);
    let mut t: usize = 1;
    while t < poly_size
        invariant
            1 <= t <= poly_size,
            coeffs.len() == klen + t,
            klen == lwe.len() - 1,
            lwe.len() >= 2,
            poly_size >= 1,
            forall|m: int|
                0 <= m < klen ==> coeffs@[m] == lwe_embed_spec(lwe@, poly_size as int)[m],
            coeffs@[klen as int] == lwe@[klen as int],
            forall|m: int| klen < m < klen + t ==> coeffs@[m] == 0u64,
        decreases poly_size - t,
    {
        coeffs.push(0u64);
        t = t + 1;
    }
    proof {
        assert(coeffs@ =~= lwe_embed_spec(lwe@, poly_size as int));
        assert(((klen + poly_size) as int) % (poly_size as int) == 0) by (nonlinear_arith)
            requires
                poly_size >= 1 && (klen as int) % (poly_size as int) == 0,
        ;
    }
    glwe_from_coeffs(&coeffs, poly_size)
}

/// What the conditional select returns: a function of the two branch
/// ciphertexts, the selector list and index, and the decomposition
/// parameters alone.
pub uninterp spec fn cmux_of(
    ct0: Seq<u64>,
    ct1: Seq<u64>,
    poly_size: int,
    sel: Seq<u64>,
    idx: int,
    base_log: int,
    level: int,
) -> Seq<u64>;

/// Relies on tfhe's cmux (with its Fourier conversion): the first
/// ciphertext becomes the homomorphic selection between the two, taking
/// the second when the selector encrypts one. The result depends on the
/// ciphertext contents and decomposition parameters alone; it goes
/// through the library's f64 FFT, so the name pins it per execution,
/// while machines with different floating-point code paths may round
/// differently.
#[verifier::external_body]
fn cmux_assign(ct0: &mut GlweCipher, ct1: &GlweCipher, sel: &GgswSelectors, idx: usize)
    requires
        sel.wf(),
        idx < sel.count,
        glwe_data(*old(ct0)).len() == sel.glwe_size * sel.poly_size,
        glwe_data(*ct1).len() == sel.glwe_size * sel.poly_size,
        glwe_poly_size(*old(ct0)) == sel.poly_size,
        glwe_poly_size(*ct1) == sel.poly_size,
        glwe_modulus_native(*old(ct0)),
        glwe_modulus_native(*ct1),
    ensures
        glwe_data(*final(ct0)) == cmux_of(
            glwe_data(*old(ct0)),
            glwe_data(*ct1),
            sel.poly_size as int,
            sel.data@,
            idx as int,
            sel.base_log as int,
            sel.level as int,
        ),
        glwe_data(*final(ct0)).len() == glwe_data(*old(ct0)).len(),
        glwe_poly_size(*final(ct0)) == glwe_poly_size(*old(ct0)),
        glwe_modulus_native(*final(ct0)),
{
    let n = PolynomialSize(sel.poly_size);
    let size = GlweSize(sel.glwe_size);
    let base = DecompositionBaseLog(sel.base_log);
    let lev = DecompositionLevelCount(sel.level);
    let list = GgswCiphertextList::from_container(
        sel.data.clone(), size, n, base, lev, CiphertextModulus::new_native());
    let mut fourier = FourierGgswCiphertext::new(size, n, base, lev);
    convert_standard_ggsw_ciphertext_to_fourier(&list.get(idx), &mut fourier);
    let fft = Fft::new(n);
    let fft = fft.as_view();
    let mut buffers = ComputationBuffers::new();
    buffers.resize(cmux_scratch::<u64>(size, n, fft).unaligned_bytes_required());
    cmux(ct0.inner.as_mut_view(), ct1.inner.clone().as_mut_view(), fourier.as_view(), fft,
        buffers.stack());
}

/// The running selection of the bit-serial comparison after examining
/// the selector bits from index `i` upward: the nested selects of each
/// scanned position folded over the starting value.
pub open spec fn max_walk_spec(
    e: Seq<u64>,
    ak: Seq<u64>,
    bk: Seq<u64>,
    poly_size: int,
    sa: Seq<u64>,
    sb: Seq<u64>,
    base_log: int,
    level: int,
    i: int,
) -> Seq<u64>
    decreases 16 - i,
{
    if i >= 16 {
        e
    } else {
        let pre = max_walk_spec(e, ak, bk, poly_size, sa, sb, base_log, level, i + 1);
        let mid0 = cmux_of(pre, bk, poly_size, sb, i, base_log, level);
        let mid1 = cmux_of(ak, pre, poly_size, sb, i, base_log, level);
        cmux_of(mid0, mid1, poly_size, sa, i, base_log, level)
    }
}

/// The encrypted maximum of two 16-bit chunks: every output bit runs
/// the bit-serial selection over the two chunks' GGSW selectors, with
/// the running value seeded from the first chunk's bit so that equal
/// chunks select the first. Selectors and encrypted bits both carry the
/// chunks most significant bit first.
pub fn max_of_two(
    input_a: &GgswSelectors,
    input_b: &GgswSelectors,
    lwe_a_list: &Vec<LweCipher>,
    lwe_b_list: &Vec<LweCipher>,
    poly_size: usize,
    glwe_size: usize,
) -> (r: Vec<LweCipher>)
    requires
        input_a.wf(),
        input_b.wf(),
        input_a.count == 16,
        input_b.count == 16,
        input_a.poly_size == poly_size,
        input_b.poly_size == poly_size,
        input_a.glwe_size == glwe_size,
        input_b.glwe_size == glwe_size,
        glwe_size >= 2,
        input_a.base_log == input_b.base_log,
        input_a.level == input_b.level,
        lwe_a_list.len() == 16,
        lwe_b_list.len() == 16,
        forall|k: int|
            0 <= k < 16 ==> lwe_data(#[trigger] lwe_a_list@[k]).len() == (glwe_size - 1)
                * poly_size + 1,
        forall|k: int|
            0 <= k < 16 ==> lwe_data(#[trigger] lwe_b_list@[k]).len() == (glwe_size - 1)
                * poly_size + 1,
        forall|k: int| 0 <= k < 16 ==> lwe_modulus_native(#[trigger] lwe_a_list@[k]),
        forall|k: int| 0 <= k < 16 ==> lwe_modulus_native(#[trigger] lwe_b_list@[k]),
    ensures
        r.len() == 16,
        forall|k: int|
            0 <= k < 16 ==> lwe_data(#[trigger] r@[k]) == extract_lwe_spec(
                max_walk_spec(
                    lwe_embed_spec(lwe_data(lwe_a_list@[k]), poly_size as int),
                    lwe_embed_spec(lwe_data(lwe_a_list@[k]), poly_size as int),
                    lwe_embed_spec(lwe_data(lwe_b_list@[k]), poly_size as int),
                    poly_size as int,
                    input_a.data@,
                    input_b.data@,
                    input_a.base_log as int,
                    input_a.level as int,
                    0,
                ),
                poly_size as int,
                0,
            ),
        forall|k: int| 0 <= k < 16 ==> lwe_modulus_native(#[trigger] r@[k]),
{
    let mut r: Vec<LweCipher> = Vec::new();
    let mut k: usize = 0;
    while k < 16
        invariant
            k <= 16,
            r.len() == k,
            input_a.wf(),
            input_b.wf(),
            input_a.count == 16,
            input_b.count == 16,
            input_a.poly_size == poly_size,
            input_b.poly_size == poly_size,
            input_a.glwe_size == glwe_size,
            input_b.glwe_size == glwe_size,
            glwe_size >= 2,
            input_a.base_log == input_b.base_log,
            input_a.level == input_b.level,
            lwe_a_list.len() == 16,
            lwe_b_list.len() == 16,
            forall|m: int|
                0 <= m < 16 ==> lwe_data(#[trigger] lwe_a_list@[m]).len() == (glwe_size - 1)
                    * poly_size + 1,
            forall|m: int|
                0 <= m < 16 ==> lwe_data(#[trigger] lwe_b_list@[m]).len() == (glwe_size - 1)
                    * poly_size + 1,
            forall|m: int| 0 <= m < 16 ==> lwe_modulus_native(#[trigger] lwe_a_list@[m]),
            forall|m: int| 0 <= m < 16 ==> lwe_modulus_native(#[trigger] lwe_b_list@[m]),
            forall|m: int|
                0 <= m < k ==> lwe_data(#[trigger] r@[m]) == extract_lwe_spec(
                    max_walk_spec(
                        lwe_embed_spec(lwe_data(lwe_a_list@[m]), poly_size as int),
                        lwe_embed_spec(lwe_data(lwe_a_list@[m]), poly_size as int),
                        lwe_embed_spec(lwe_data(lwe_b_list@[m]), poly_size as int),
                        poly_size as int,
                        input_a.data@,
                        input_b.data@,
                        input_a.base_log as int,
                        input_a.level as int,
                        0,
                    ),
                    poly_size as int,
                    0,
                ),
            forall|m: int| 0 <= m < k ==> lwe_modulus_native(#[trigger] r@[m]),
        decreases 16 - k,
    {
        proof {
            assert(((glwe_size - 1) * poly_size + 1 - 1) as int % (poly_size as int) == 0
                && (glwe_size - 1) * poly_size + 1 <= 8 * 2048 + 1 && (glwe_size - 1) * poly_size
                + 1 >= poly_size + 1) by (nonlinear_arith)
                requires
                    poly_size >= 1 && 2 <= glwe_size <= 8 && poly_size <= 2048,
            ;
        }
        let glwe_ak: GlweCipher = lwe_to_glwe_const(&lwe_a_list[k], poly_size);
        let glwe_bk: GlweCipher = lwe_to_glwe_const(&lwe_b_list[k], poly_size);
        let mut e: GlweCipher = glwe_duplicate(&glwe_ak);
        let mut i: usize = 16;
        while i > 0
            invariant
                0 <= i <= 16,
                input_a.wf(),
                input_b.wf(),
                input_a.count == 16,
                input_b.count == 16,
                input_a.poly_size == poly_size,
                input_b.poly_size == poly_size,
                input_a.glwe_size == glwe_size,
                input_b.glwe_size == glwe_size,
                input_a.base_log == input_b.base_log,
                input_a.level == input_b.level,
                glwe_data(glwe_ak).len() == glwe_size * poly_size,
                glwe_data(glwe_bk).len() == glwe_size * poly_size,
                glwe_poly_size(glwe_ak) == poly_size,
                glwe_poly_size(glwe_bk) == poly_size,
                glwe_modulus_native(glwe_ak),
                glwe_modulus_native(glwe_bk),
                glwe_data(e) == max_walk_spec(
                    glwe_data(glwe_ak),
                    glwe_data(glwe_ak),
                    glwe_data(glwe_bk),
                    poly_size as int,
                    input_a.data@,
                    input_b.data@,
                    input_a.base_log as int,
                    input_a.level as int,
                    i as int,
                ),
                glwe_data(e).len() == glwe_size * poly_size,
                glwe_poly_size(e) == poly_size,
                glwe_modulus_native(e),
            decreases i,
        {
            i = i - 1;
            let mut mid0: GlweCipher = glwe_duplicate(&e);
            cmux_assign(&mut mid0, &glwe_bk, input_b, i);
            let mut mid1: GlweCipher = glwe_duplicate(&glwe_ak);
            cmux_assign(&mut mid1, &e, input_b, i);
            let mut e_next: GlweCipher = mid0;
            cmux_assign(&mut e_next, &mid1, input_a, i);
            e = e_next;
        }
        let lwe: LweCipher = extract_lwe_sample(&e, 0);
        r.push(lwe);
        k = k + 1;
    }
    r
}

} // verus!
