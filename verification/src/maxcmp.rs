use vstd::prelude::*;

verus! {

/// Powers of two for bit weights.
pub open spec fn pow2_int(n: int) -> int
    decreases n,
{
    if n <= 0 {
        1
    } else {
        2 * pow2_int(n - 1)
    }
}

/// Every element is a single bit.
pub open spec fn is_bits(s: Seq<u8>) -> bool {
    forall|i: int| 0 <= i < s.len() ==> #[trigger] s[i] <= 1
}

/// Numeric value of the bit suffix starting at `i`, most significant
/// bit first.
pub open spec fn val_from(s: Seq<u8>, i: int) -> int
    recommends
        0 <= i <= s.len(),
    decreases s.len() - i,
{
    if i >= s.len() {
        0
    } else {
        (s[i] as int) * pow2_int(s.len() - 1 - i) + val_from(s, i + 1)
    }
}

/// Numeric value of a whole bit chunk, most significant bit first.
pub open spec fn chunk_val(s: Seq<u8>) -> int {
    val_from(s, 0)
}

/// The winning chunk of a comparison: the one with the larger decoded
/// value, the first argument on a tie.
pub open spec fn max_chunk_spec(a: Seq<u8>, b: Seq<u8>) -> Seq<u8> {
    if chunk_val(a) >= chunk_val(b) {
        a
    } else {
        b
    }
}

/// A bit suffix is bounded by its width's power of two.
pub proof fn lemma_val_from_bound(s: Seq<u8>, i: int)
    requires
        is_bits(s),
        0 <= i <= s.len(),
    ensures
        0 <= val_from(s, i) < pow2_int(s.len() - i),
    decreases s.len() - i,
{
    if i < s.len() {
        lemma_val_from_bound(s, i + 1);
        assert(s[i] <= 1);
        assert(pow2_int(s.len() - i) == 2 * pow2_int(s.len() - 1 - i));
    }
}

/// Bit chunks with equal values are equal bit for bit.
pub proof fn lemma_val_from_injective(a: Seq<u8>, b: Seq<u8>, i: int)
    requires
        is_bits(a),
        is_bits(b),
        a.len() == b.len(),
        0 <= i <= a.len(),
        val_from(a, i) == val_from(b, i),
    ensures
        forall|k: int| i <= k < a.len() ==> a[k] == b[k],
    decreases a.len() - i,
{
    if i < a.len() {
        let p = pow2_int(a.len() - 1 - i);
        lemma_val_from_bound(a, i + 1);
        lemma_val_from_bound(b, i + 1);
        assert(a[i] == b[i]);
        lemma_val_from_injective(a, b, i + 1);
    }
}

/// One output bit of the bit-serial comparison: the running bit starts
/// as the first chunk's bit and is overwritten, scanning from the least
/// significant selector upward, by the three nested conditional selects,
/// so the most significant differing selector decides last.
fn select_winning_bit(a: &Vec<u8>, b: &Vec<u8>, ak: u8, bk: u8) -> (e: u8)
    requires
        a.len() == 16,
        b.len() == 16,
        is_bits(a@),
        is_bits(b@),
    ensures
        e == (if chunk_val(b@) > chunk_val(a@) {
            bk
        } else {
            ak
        }),
{
    let mut e: u8 = ak;
    let mut i: usize = 16;
    while i > 0
        invariant
            0 <= i <= 16,
            a.len() == 16,
            b.len() == 16,
            is_bits(a@),
            is_bits(b@),
            e == (if val_from(b@, i as int) > val_from(a@, i as int) {
                bk
            } else {
                ak
            }),
        decreases i,
    {
        i = i - 1;
        let ai: u8 = a[i];
        let bi: u8 = b[i];
        let mid0: u8 = if bi == 1 {
            bk
        } else {
            e
        };
        let mid1: u8 = if bi == 1 {
            e
        } else {
            ak
        };
        let e_next: u8 = if ai == 1 {
            mid1
        } else {
            mid0
        };
        proof {
            let ii = i as int;
            let p = pow2_int(15 - ii);
            let ra = val_from(a@, ii + 1);
            let rb = val_from(b@, ii + 1);
            lemma_val_from_bound(a@, ii + 1);
            lemma_val_from_bound(b@, ii + 1);
            assert(val_from(a@, ii) == (a@[ii] as int) * p + ra);
            assert(val_from(b@, ii) == (b@[ii] as int) * p + rb);
            assert(ai <= 1 && bi <= 1);
            if ai == 1 && bi == 0 {
                assert((a@[ii] as int) * p == p) by (nonlinear_arith)
                    requires
                        a@[ii] == 1,
                ;
                assert((b@[ii] as int) * p == 0) by (nonlinear_arith)
                    requires
                        b@[ii] == 0,
                ;
                assert(val_from(a@, ii) == p + ra);
                assert(val_from(b@, ii) == rb);
                assert(rb < p);
                assert(!(val_from(b@, ii) > val_from(a@, ii)));
            } else if ai == 0 && bi == 1 {
                assert((a@[ii] as int) * p == 0) by (nonlinear_arith)
                    requires
                        a@[ii] == 0,
                ;
                assert((b@[ii] as int) * p == p) by (nonlinear_arith)
                    requires
                        b@[ii] == 1,
                ;
                assert(val_from(a@, ii) == ra);
                assert(val_from(b@, ii) == p + rb);
                assert(ra < p);
                assert(val_from(b@, ii) > val_from(a@, ii));
            } else {
                assert(ai == bi);
                assert((val_from(b@, ii) > val_from(a@, ii)) == (rb > ra));
            }
        }
        e = e_next;
    }
    e
}

/// The bit-serial maximum of two 16-bit chunks: the nested
/// conditional-select scan applied to every output bit position. The
/// result is the chunk with the larger decoded value; on equal values
/// the first argument wins bit for bit.
pub fn max_of_two(a: &Vec<u8>, b: &Vec<u8>) -> (r: Vec<u8>)
    requires
        a.len() == 16,
        b.len() == 16,
        is_bits(a@),
        is_bits(b@),
    ensures
        r@ == max_chunk_spec(a@, b@),
        r.len() == 16,
        is_bits(r@),
{
    let mut r: Vec<u8> = Vec::new();
    let mut k: usize = 0;
    while k < 16
        invariant
            k <= 16,
            r.len() == k,
            a.len() == 16,
            b.len() == 16,
            is_bits(a@),
            is_bits(b@),
            forall|j: int|
                0 <= j < k ==> r@[j] == (if chunk_val(b@) > chunk_val(a@) {
                    b@[j]
                } else {
                    a@[j]
                }),
        decreases 16 - k,
    {
        r.push(select_winning_bit(a, b, a[k], b[k]));
        k = k + 1;
    }
    proof {
        if chunk_val(b@) > chunk_val(a@) {
            assert(r@ =~= b@);
        } else {
            assert(r@ =~= a@);
        }
    }
    r
}

/// The maximum of a chunk and itself is that chunk.
pub proof fn lemma_max_idempotent(a: Seq<u8>)
    ensures
        max_chunk_spec(a, a) == a,
{
}

/// The maximum does not depend on the order of its arguments.
pub proof fn lemma_max_commutative(a: Seq<u8>, b: Seq<u8>)
    requires
        a.len() == 16,
        b.len() == 16,
        is_bits(a),
        is_bits(b),
    ensures
        max_chunk_spec(a, b) == max_chunk_spec(b, a),
{
    if chunk_val(a) == chunk_val(b) {
        lemma_val_from_injective(a, b, 0);
        assert(a =~= b);
    }
}

/// The pairwise reduction over a list of chunks: the running maximum is
/// compared against each further chunk in turn. The result is one of
/// the chunks and no chunk decodes to a larger value.
pub fn max_of_chunks(chunks: &Vec<Vec<u8>>) -> (r: Vec<u8>)
    requires
        chunks.len() >= 1,
        forall|i: int| 0 <= i < chunks.len() ==> (#[trigger] chunks@[i]).len() == 16,
        forall|i: int| 0 <= i < chunks.len() ==> is_bits(#[trigger] chunks@[i]@),
    ensures
        r.len() == 16,
        is_bits(r@),
        exists|i: int| 0 <= i < chunks.len() && r@ == #[trigger] chunks@[i]@,
        forall|i: int| 0 <= i < chunks.len() ==> chunk_val(#[trigger] chunks@[i]@) <= chunk_val(r@),
{
    let mut r: Vec<u8> = Vec::new();
    let mut j: usize = 0;
    while j < 16
        invariant
            j <= 16,
            r.len() == j,
            chunks.len() >= 1,
            forall|i: int| 0 <= i < chunks.len() ==> (#[trigger] chunks@[i]).len() == 16,
            forall|k: int| 0 <= k < j ==> r@[k] == chunks@[0]@[k],
        decreases 16 - j,
    {
        r.push(chunks[0][j]);
        j = j + 1;
    }
    proof {
        assert(r@ =~= chunks@[0]@);
    }
    let mut i: usize = 1;
    while i < chunks.len()
        invariant
            1 <= i <= chunks.len(),
            r.len() == 16,
            is_bits(r@),
            forall|k: int| 0 <= k < chunks.len() ==> (#[trigger] chunks@[k]).len() == 16,
            forall|k: int| 0 <= k < chunks.len() ==> is_bits(#[trigger] chunks@[k]@),
            exists|k: int| 0 <= k < i && r@ == #[trigger] chunks@[k]@,
            forall|k: int| 0 <= k < i ==> chunk_val(#[trigger] chunks@[k]@) <= chunk_val(r@),
        decreases chunks.len() - i,
    {
        r = max_of_two(&r, &chunks[i]);
        i = i + 1;
    }
    r
}

} // verus!
