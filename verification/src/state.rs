use vstd::prelude::*;

verus! {

/// Bits per state byte.
pub const BYTESIZE: usize = 8;

/// Bytes per AES block.
pub const BLOCKSIZE_IN_BYTE: usize = 16;

/// Bits per AES block.
pub const BLOCKSIZE_IN_BIT: usize = 128;

/// Rows of the 4x4 state matrix.
pub const NUM_ROWS: usize = 4;

/// Columns of the 4x4 state matrix.
pub const NUM_COLUMNS: usize = 4;

/// Index of the state byte at a given row and column: the block is laid
/// out column-major, so byte index = 4*col + row.
pub open spec fn byte_index(row: int, col: int) -> int {
    4 * col + row
}

/// Source byte index that inverse ShiftRows moves into destination index
/// `j`: row `r` is rotated right by `r` columns.
pub open spec fn inv_shift_rows_src(j: int) -> int
    recommends
        0 <= j < 16,
{
    let row = j % 4;
    let col = j / 4;
    4 * ((col + 4 - row) % 4) + row
}

/// Inverse ShiftRows as a pure relabeling of the 16 state bytes.
pub fn inv_shift_rows(state: &Vec<u8>) -> (r: Vec<u8>)
    requires
        state.len() == 16,
    ensures
        r.len() == 16,
        forall|j: int| 0 <= j < 16 ==> r@[j] == state@[#[trigger] inv_shift_rows_src(j)],
{
    let mut r: Vec<u8> = Vec::new();
    let mut j: usize = 0;
    while j < 16
        invariant
            j <= 16,
            r.len() == j,
            state.len() == 16,
            forall|k: int| 0 <= k < j ==> r@[k] == state@[#[trigger] inv_shift_rows_src(k)],
        decreases 16 - j,
    {
        let row: usize = j % 4;
        let col: usize = j / 4;
        let src: usize = 4 * ((col + 4 - row) % 4) + row;
        assert(src == inv_shift_rows_src(j as int));
        r.push(state[src]);
        j = j + 1;
    }
    r
}

/// One output byte of the precomputed inverse MixColumns combination:
/// the four Galois multiples of the column's bytes, XORed together with
/// the row offsets 0..3 fixed by the AES specification.
pub open spec fn inv_mix_byte(
    s14: Seq<u8>,
    s11: Seq<u8>,
    s13: Seq<u8>,
    s9: Seq<u8>,
    j: int,
) -> u8
    recommends
        0 <= j < 16,
        s14.len() == 16,
        s11.len() == 16,
        s13.len() == 16,
        s9.len() == 16,
{
    let row = j % 4;
    let col = j / 4;
    (s14[byte_index(row, col)] ^ s11[byte_index((row + 1) % 4, col)] ^ s13[byte_index(
        (row + 2) % 4,
        col,
    )] ^ s9[byte_index((row + 3) % 4, col)]) as u8
}

/// Precomputed inverse MixColumns: combines the four multiplied copies of
/// the state into one state, byte by byte.
pub fn inv_mix_columns_precomp(
    s14: &Vec<u8>,
    s11: &Vec<u8>,
    s13: &Vec<u8>,
    s9: &Vec<u8>,
) -> (r: Vec<u8>)
    requires
        s14.len() == 16,
        s11.len() == 16,
        s13.len() == 16,
        s9.len() == 16,
    ensures
        r.len() == 16,
        forall|j: int| 0 <= j < 16 ==> r@[j] == inv_mix_byte(s14@, s11@, s13@, s9@, j),
{
    let mut r: Vec<u8> = Vec::new();
    let mut j: usize = 0;
    while j < 16
        invariant
            j <= 16,
            r.len() == j,
            s14.len() == 16,
            s11.len() == 16,
            s13.len() == 16,
            s9.len() == 16,
            forall|k: int| 0 <= k < j ==> r@[k] == inv_mix_byte(s14@, s11@, s13@, s9@, k),
        decreases 16 - j,
    {
        let row: usize = j % 4;
        let col: usize = j / 4;
        let b: u8 = s14[4 * col + row] ^ s11[4 * col + (row + 1) % 4] ^ s13[4 * col + (row + 2)
            % 4] ^ s9[4 * col + (row + 3) % 4];
        assert(b == inv_mix_byte(s14@, s11@, s13@, s9@, j as int));
        r.push(b);
        j = j + 1;
    }
    r
}

/// Bit `i` of `v`, counting from the least significant bit.
pub open spec fn bit_of(v: u8, i: int) -> u8
    recommends
        0 <= i < 8,
{
    ((v >> (i as u8)) & 1) as u8
}

/// Reassembles a byte from eight decoded bit values, most significant
/// first, exactly as the 128-bit output is packed into 16 plaintext bytes.
pub open spec fn byte_from_msb_bits(bits: Seq<u64>) -> u8
    recommends
        bits.len() == 8,
{
    ((((bits[0] & 1) as u8) << 7) | (((bits[1] & 1) as u8) << 6) | (((bits[2] & 1) as u8) << 5) | ((
    (bits[3] & 1) as u8) << 4) | (((bits[4] & 1) as u8) << 3) | (((bits[5] & 1) as u8) << 2) | (((
    bits[6] & 1) as u8) << 1) | ((bits[7] & 1) as u8)) as u8
}

/// Packs a list of 128 decoded bit values into 16 bytes, taking the bits
/// of each byte most significant first.
pub fn post_process(data: &[u64]) -> (r: [u8; 16])
    requires
        data@.len() == 128,
    ensures
        forall|i: int|
            0 <= i < 16 ==> r@[i] == byte_from_msb_bits(data@.subrange(8 * i, 8 * i + 8)),
{
    let mut r: Vec<u8> = Vec::new();
    let mut i: usize = 0;
    while i < 16
        invariant
            i <= 16,
            r.len() == i,
            data@.len() == 128,
            forall|k: int|
                0 <= k < i ==> r@[k] == byte_from_msb_bits(data@.subrange(8 * k, 8 * k + 8)),
        decreases 16 - i,
    {
        let byte: u8 = (((data[8 * i] & 1) as u8) << 7) | (((data[8 * i + 1] & 1) as u8) << 6) | ((
        (data[8 * i + 2] & 1) as u8) << 5) | (((data[8 * i + 3] & 1) as u8) << 4) | (((data[8 * i
            + 4] & 1) as u8) << 3) | (((data[8 * i + 5] & 1) as u8) << 2) | (((data[8 * i + 6]
            & 1) as u8) << 1) | ((data[8 * i + 7] & 1) as u8);
        proof {
            let bits = data@.subrange(8 * i as int, 8 * i as int + 8);
            assert(bits[0] == data@[8 * i as int]);
            assert(bits[1] == data@[8 * i as int + 1]);
            assert(bits[2] == data@[8 * i as int + 2]);
            assert(bits[3] == data@[8 * i as int + 3]);
            assert(bits[4] == data@[8 * i as int + 4]);
            assert(bits[5] == data@[8 * i as int + 5]);
            assert(bits[6] == data@[8 * i as int + 6]);
            assert(bits[7] == data@[8 * i as int + 7]);
        }
        r.push(byte);
        i = i + 1;
    }
    let out: [u8; 16] = [r[0], r[1], r[2], r[3], r[4], r[5], r[6], r[7], r[8], r[9], r[10], r[11], r[12], r[13], r[14], r[15]];
    proof {
        assert(out@ =~= r@);
    }
    out
}

} // verus!
