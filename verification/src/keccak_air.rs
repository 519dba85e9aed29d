//! The Keccak-f AIR: one row per round, bits and 16-bit limbs in separate
//! columns.

use crate::air::{asserts, read_array, Air, AirShape, RowBuilder};
use crate::bits::pack_of;
use crate::field::{andn_of, bool_check_of, bool_elem, double_of, xor3_of, xor_of, Ring, RingModel};
use core::marker::PhantomData;
use vstd::prelude::*;

verus! {

/// Total number of Keccak-f rounds.
pub const NUM_ROUNDS: usize = 24;

/// Number of Keccak-f rounds minus one.
pub const NUM_ROUNDS_MIN_1: usize = NUM_ROUNDS - 1;

/// Number of bits in each limb used to represent 64-bit words.
pub const BITS_PER_LIMB: usize = 16;

/// Number of limbs needed to represent a 64-bit word.
pub const U64_LIMBS: usize = 64 / BITS_PER_LIMB;

/// Number of rate bits in Keccak-f[1600] used for absorbing and squeezing.
pub const RATE_BITS: usize = 1088;

/// Number of limbs needed to represent the rate portion of the state.
pub const RATE_LIMBS: usize = RATE_BITS / BITS_PER_LIMB;

/// Rotation offsets, `R[x][y]`.
pub const R: [[u8; 5]; 5] = [
    [0, 36, 3, 41, 18],
    [1, 44, 10, 45, 2],
    [62, 6, 43, 15, 61],
    [28, 55, 25, 21, 56],
    [27, 20, 39, 8, 14],
];

/// Round constants.
pub const RC: [u64; 24] = [
    0x0000000000000001,
    0x0000000000008082,
    0x800000000000808A,
    0x8000000080008000,
    0x000000000000808B,
    0x0000000080000001,
    0x8000000080008081,
    0x8000000000008009,
    0x000000000000008A,
    0x0000000000000088,
    0x0000000080008009,
    0x000000008000000A,
    0x000000008000808B,
    0x800000000000008B,
    0x8000000000008089,
    0x8000000000008003,
    0x8000000000008002,
    0x8000000000000080,
    0x000000000000800A,
    0x800000008000000A,
    0x8000000080008081,
    0x8000000000008080,
    0x0000000080000001,
    0x8000000080008008,
];

/// First column of each register group.
pub const COL_EXPORT: usize = 24;
pub const COL_PREIMAGE: usize = 25;
pub const COL_A: usize = 125;
pub const COL_C: usize = 225;
pub const COL_C_PRIME: usize = 545;
pub const COL_A_PRIME: usize = 865;
pub const COL_A_PRIME_PRIME: usize = 2465;
pub const COL_A_PRIME_PRIME_0_0_BITS: usize = 2565;
pub const COL_A_PRIME_PRIME_PRIME_0_0_LIMBS: usize = 2629;

/// Number of columns of a row.
pub const NUM_KECCAK_COLS: usize = 2633;

/// Number of next-row values that the optimized AIR reads.
pub const NUM_KECCAK_DOWN_COLS: usize = 224;

/// Bit `bit_index` of the constant of `round`.
pub open spec fn rc_bit(round: int, bit_index: int) -> bool {
    (RC@[round] >> (bit_index as u64)) & 1 == 1
}

/// Bit `bit_index` of the constant of `round`, as zero or one.
pub fn rc_value_bit(round: usize, bit_index: usize) -> (r: u8)
    requires
        round < 24,
        bit_index < 64,
    ensures
        r == (if rc_bit(round as int, bit_index as int) { 1u8 } else { 0u8 }),
{
    let word: u64 = RC[round];
    let shift: u64 = bit_index as u64;
    let bit: u64 = (word >> shift) & 1;
    assert(bit == 0 || bit == 1) by (bit_vector)
        requires
            bit == (word >> shift) & 1,
    ;
    bit as u8
}

/// Columns of a row, in order: a row is the concatenation of the fields, with
/// the last index of each array varying fastest.
///
/// The Keccak spec uses `s[w(5y + x) + z] = a[x][y][z]`, so lanes are stored in
/// `y, x, z` order.
#[derive(Debug)]
pub struct KeccakCols<T> {
    /// The `i`th value is set to 1 if we are in the `i`th round, otherwise 0.
    pub step_flags: [T; NUM_ROUNDS],
    /// Export flag: only enabled on final-step rows.
    pub export: T,
    /// Permutation inputs, stored in y-major order.
    pub preimage: [[[T; U64_LIMBS]; 5]; 5],
    /// Round input limbs.
    pub a: [[[T; U64_LIMBS]; 5]; 5],
    /// C[x, z] bits.
    pub c: [[T; 64]; 5],
    /// C'[x, z] bits.
    pub c_prime: [[T; 64]; 5],
    /// A'[y, x, z] bits.
    pub a_prime: [[[T; 64]; 5]; 5],
    /// A''[y, x] limbs.
    pub a_prime_prime: [[[T; U64_LIMBS]; 5]; 5],
    /// The bits of `A''[0, 0]`.
    pub a_prime_prime_0_0_bits: [T; 64],
    /// Limbs of `A'''[0, 0] = A''[0, 0] XOR RC`.
    pub a_prime_prime_prime_0_0_limbs: [T; U64_LIMBS],
}

/// Entry `k` of 25 lanes of four limbs, laid out in order.
pub open spec fn limb_cell<T>(lanes: [[[T; U64_LIMBS]; 5]; 5], k: int) -> T {
    lanes@[k / 20]@[(k / 4) % 5]@[k % 4]
}

impl<T> KeccakCols<T> {
    /// The value of column `i`.
    pub open spec fn cell(self, i: int) -> T {
        if i < COL_EXPORT {
            self.step_flags@[i]
        } else if i == COL_EXPORT {
            self.export
        } else if i < COL_A {
            limb_cell(self.preimage, i - COL_PREIMAGE)
        } else if i < COL_C {
            limb_cell(self.a, i - COL_A)
        } else if i < COL_C_PRIME {
            self.c@[(i - COL_C) / 64]@[(i - COL_C) % 64]
        } else if i < COL_A_PRIME {
            self.c_prime@[(i - COL_C_PRIME) / 64]@[(i - COL_C_PRIME) % 64]
        } else if i < COL_A_PRIME_PRIME {
            self.a_prime@[(i - COL_A_PRIME) / 320]@[((i - COL_A_PRIME) / 64) % 5]@[(i - COL_A_PRIME)
                % 64]
        } else if i < COL_A_PRIME_PRIME_0_0_BITS {
            limb_cell(self.a_prime_prime, i - COL_A_PRIME_PRIME)
        } else if i < COL_A_PRIME_PRIME_PRIME_0_0_LIMBS {
            self.a_prime_prime_0_0_bits@[i - COL_A_PRIME_PRIME_0_0_BITS]
        } else {
            self.a_prime_prime_prime_0_0_limbs@[i - COL_A_PRIME_PRIME_PRIME_0_0_LIMBS]
        }
    }

    /// The columns in order.
    pub open spec fn row(self) -> Seq<T> {
        Seq::new(NUM_KECCAK_COLS as nat, |i: int| self.cell(i))
    }
}

/// Where the registers of A' hold bit `z` of `B[x, y]`.
pub open spec fn b_source(x: int, y: int, z: int) -> (int, int, int) {
    (x, (x + 3 * y) % 5, (z + 64 - R@[(x + 3 * y) % 5]@[x]) % 64)
}

impl<T> KeccakCols<T> {
    /// The register `A'[y, x, z]`.
    pub open spec fn a_prime_cell(self, at: (int, int, int)) -> T {
        self.a_prime@[at.0]@[at.1]@[at.2]
    }

    /// Bit `z` of `B[x, y]`.
    pub open spec fn b_cell(self, x: int, y: int, z: int) -> T {
        self.a_prime_cell(b_source(x, y, z))
    }
}

impl<T: Clone> KeccakCols<T> {
    /// Bit `z` of `B[x, y]`.
    ///
    /// B is a rotation of A': `B[x, y] = ROT(A'[(x + 3y) % 5, x], R[(x + 3y) % 5][x])`.
    pub fn b(&self, x: usize, y: usize, z: usize) -> (r: T)
        requires
            x < 5,
            y < 5,
            z < 64,
        ensures
            cloned(self.b_cell(x as int, y as int, z as int), r),
    {
        let a: usize = (x + 3 * y) % 5;
        let b: usize = x;
        let rot: usize = R[a][b] as usize;
        proof {
            lemma_rotation_range();
        }
        self.a_prime[b][a][(z + 64 - rot) % 64].clone()
    }

    /// Limb `limb` of `A'''[y, x]`.
    pub fn a_prime_prime_prime(&self, y: usize, x: usize, limb: usize) -> (r: T)
        requires
            y < 5,
            x < 5,
            limb < U64_LIMBS,
        ensures
            cloned(
                if y == 0 && x == 0 {
                    self.a_prime_prime_prime_0_0_limbs@[limb as int]
                } else {
                    self.a_prime_prime@[y as int]@[x as int]@[limb as int]
                },
                r,
            ),
    {
        if y == 0 && x == 0 {
            self.a_prime_prime_prime_0_0_limbs[limb].clone()
        } else {
            self.a_prime_prime[y][x][limb].clone()
        }
    }
}

/// The 100 values from `at` on, as 25 lanes of four limbs.
fn read_limbs<T: Copy>(row: &[T], at: usize) -> (r: [[[T; U64_LIMBS]; 5]; 5])
    requires
        at + 100 <= row.len(),
    ensures
        forall|k: int| 0 <= k < 100 ==> #[trigger] limb_cell(r, k) == row@[at + k],
{
    let mut r = [[[row[at]; U64_LIMBS]; 5]; 5];
    let mut k: usize = 0;
    while k < 100
        invariant
            k <= 100,
            at + 100 <= row.len(),
            forall|j: int| 0 <= j < k ==> #[trigger] limb_cell(r, j) == row@[at + j],
        decreases 100 - k,
    {
        let ghost before = r;
        r[k / 20][(k / 4) % 5][k % 4] = row[at + k];
        assert forall|j: int| 0 <= j < k + 1 implies #[trigger] limb_cell(r, j) == row@[at + j] by {
            if j < k {
                assert(limb_cell(before, j) == row@[at + j]);
                assert(j / 20 != k / 20 || (j / 4) % 5 != (k / 4) % 5 || j % 4 != k % 4);
            }
        }
        k = k + 1;
    }
    r
}

/// The 320 values from `at` on, as five lanes of 64 bits.
fn read_sheet<T: Copy>(row: &[T], at: usize) -> (r: [[T; 64]; 5])
    requires
        at + 320 <= row.len(),
    ensures
        forall|k: int| 0 <= k < 320 ==> #[trigger] r@[k / 64]@[k % 64] == row@[at + k],
{
    let mut r = [[row[at]; 64]; 5];
    let mut k: usize = 0;
    while k < 320
        invariant
            k <= 320,
            at + 320 <= row.len(),
            forall|j: int| 0 <= j < k ==> #[trigger] r@[j / 64]@[j % 64] == row@[at + j],
        decreases 320 - k,
    {
        let ghost before = r;
        r[k / 64][k % 64] = row[at + k];
        assert forall|j: int| 0 <= j < k + 1 implies #[trigger] r@[j / 64]@[j % 64] == row@[at
            + j] by {
            if j < k {
                assert(before@[j / 64]@[j % 64] == row@[at + j]);
                assert(j / 64 != k / 64 || j % 64 != k % 64);
            }
        }
        k = k + 1;
    }
    r
}

impl<T: Copy> KeccakCols<T> {
    /// The columns of a flat row.
    pub fn from_row(row: &[T]) -> (r: Self)
        requires
            row@.len() == NUM_KECCAK_COLS,
        ensures
            r.row() == row@,
    {
        let sheet = read_sheet(row, COL_A_PRIME);
        let mut a_prime = [sheet; 5];
        let mut y: usize = 1;
        while y < 5
            invariant
                1 <= y <= 5,
                row@.len() == NUM_KECCAK_COLS,
                forall|i: int, k: int|
                    0 <= i < y && 0 <= k < 320 ==> #[trigger] a_prime@[i]@[k / 64]@[k % 64]
                        == row@[COL_A_PRIME + 320 * i + k],
            decreases 5 - y,
        {
            a_prime[y] = read_sheet(row, COL_A_PRIME + 320 * y);
            y = y + 1;
        }
        let r = KeccakCols {
            step_flags: read_array::<T, NUM_ROUNDS>(row, 0),
            export: row[COL_EXPORT],
            preimage: read_limbs(row, COL_PREIMAGE),
            a: read_limbs(row, COL_A),
            c: read_sheet(row, COL_C),
            c_prime: read_sheet(row, COL_C_PRIME),
            a_prime,
            a_prime_prime: read_limbs(row, COL_A_PRIME_PRIME),
            a_prime_prime_0_0_bits: read_array::<T, 64>(row, COL_A_PRIME_PRIME_0_0_BITS),
            a_prime_prime_prime_0_0_limbs: read_array::<T, U64_LIMBS>(
                row,
                COL_A_PRIME_PRIME_PRIME_0_0_LIMBS,
            ),
        };
        proof {
            assert forall|i: int| 0 <= i < NUM_KECCAK_COLS implies r.cell(i) == row@[i] by {
                if COL_A_PRIME <= i < COL_A_PRIME_PRIME {
                    let j = i - COL_A_PRIME;
                    let k = j % 320;
                    assert(r.a_prime@[j / 320]@[k / 64]@[k % 64] == row@[COL_A_PRIME + 320 * (j
                        / 320) + k]);
                    assert(k / 64 == (j / 64) % 5 && k % 64 == j % 64);
                }
            }
            assert(r.row() =~= row@);
        }
        r
    }

    /// Write the columns over a flat row.
    pub fn write_row(&self, row: &mut Vec<T>)
        requires
            old(row)@.len() == NUM_KECCAK_COLS,
        ensures
            final(row)@ == self.row(),
    {
        let mut i: usize = 0;
        while i < NUM_KECCAK_COLS
            invariant
                i <= NUM_KECCAK_COLS,
                row@.len() == NUM_KECCAK_COLS,
                forall|j: int| 0 <= j < i ==> row@[j] == #[trigger] self.cell(j),
            decreases NUM_KECCAK_COLS - i,
        {
            row[i] = self.column(i);
            i = i + 1;
        }
        assert(row@ =~= self.row());
    }

    /// The value of column `i`.
    pub fn column(&self, i: usize) -> (r: T)
        requires
            i < NUM_KECCAK_COLS,
        ensures
            r == self.cell(i as int),
    {
        if i < COL_EXPORT {
            self.step_flags[i]
        } else if i == COL_EXPORT {
            self.export
        } else if i < COL_A {
            let k: usize = i - COL_PREIMAGE;
            self.preimage[k / 20][(k / 4) % 5][k % 4]
        } else if i < COL_C {
            let k: usize = i - COL_A;
            self.a[k / 20][(k / 4) % 5][k % 4]
        } else if i < COL_C_PRIME {
            let k: usize = i - COL_C;
            self.c[k / 64][k % 64]
        } else if i < COL_A_PRIME {
            let k: usize = i - COL_C_PRIME;
            self.c_prime[k / 64][k % 64]
        } else if i < COL_A_PRIME_PRIME {
            let k: usize = i - COL_A_PRIME;
            self.a_prime[k / 320][(k / 64) % 5][k % 64]
        } else if i < COL_A_PRIME_PRIME_0_0_BITS {
            let k: usize = i - COL_A_PRIME_PRIME;
            self.a_prime_prime[k / 20][(k / 4) % 5][k % 4]
        } else if i < COL_A_PRIME_PRIME_PRIME_0_0_LIMBS {
            self.a_prime_prime_0_0_bits[i - COL_A_PRIME_PRIME_0_0_BITS]
        } else {
            self.a_prime_prime_prime_0_0_limbs[i - COL_A_PRIME_PRIME_PRIME_0_0_LIMBS]
        }
    }
}

/// Lanes of limbs are told apart by their limbs.
proof fn lemma_limb_cells<T>(a: [[[T; U64_LIMBS]; 5]; 5], b: [[[T; U64_LIMBS]; 5]; 5])
    requires
        forall|k: int| 0 <= k < 100 ==> #[trigger] limb_cell(a, k) == limb_cell(b, k),
    ensures
        a == b,
{
    assert forall|y: int| 0 <= y < 5 implies a@[y] == b@[y] by {
        assert forall|x: int| 0 <= x < 5 implies a@[y]@[x] == b@[y]@[x] by {
            assert forall|l: int| 0 <= l < 4 implies a@[y]@[x]@[l] == b@[y]@[x]@[l] by {
                let k = 20 * y + 4 * x + l;
                assert(k / 20 == y && (k / 4) % 5 == x && k % 4 == l);
                assert(limb_cell(a, k) == limb_cell(b, k));
            }
            assert(a@[y]@[x] =~= b@[y]@[x]);
        }
        assert(a@[y] =~= b@[y]);
    }
    assert(a =~= b);
}

/// Lanes of bits are told apart by their bits.
proof fn lemma_sheet_cells<T>(a: [[T; 64]; 5], b: [[T; 64]; 5])
    requires
        forall|k: int| 0 <= k < 320 ==> #[trigger] a@[k / 64]@[k % 64] == b@[k / 64]@[k % 64],
    ensures
        a == b,
{
    assert forall|x: int| 0 <= x < 5 implies a@[x] == b@[x] by {
        assert forall|z: int| 0 <= z < 64 implies a@[x]@[z] == b@[x]@[z] by {
            let k = 64 * x + z;
            assert(k / 64 == x && k % 64 == z);
            assert(a@[k / 64]@[k % 64] == b@[k / 64]@[k % 64]);
        }
        assert(a@[x] =~= b@[x]);
    }
    assert(a =~= b);
}

/// A bit of a state of twenty-five lanes.
pub open spec fn bit_index(at: (int, int, int)) -> bool {
    0 <= at.0 < 5 && 0 <= at.1 < 5 && 0 <= at.2 < 64
}

/// B is a permutation of the registers of A': every register is a bit of B, and
/// of one bit only.
pub proof fn b_permutes_a_prime(at: (int, int, int))
    requires
        bit_index(at),
    ensures
        exists|x: int, y: int, z: int|
            bit_index((x, y, z)) && #[trigger] b_source(x, y, z) == at,
        forall|x: int, y: int, z: int, x2: int, y2: int, z2: int|
            bit_index((x, y, z)) && bit_index((x2, y2, z2)) && #[trigger] b_source(x, y, z) == at
                && #[trigger] b_source(x2, y2, z2) == at ==> x == x2 && y == y2 && z == z2,
        forall|x: int, y: int, z: int|
            bit_index((x, y, z)) ==> bit_index(#[trigger] b_source(x, y, z)),
{
    lemma_rotation_range();
    let (u, v, w) = at;
    let y = (2 * (v + 5 - u)) % 5;
    let z = (w + R@[v]@[u]) % 64;
    assert((u + 3 * y) % 5 == v);
    assert(b_source(u, y, z) == at);
    assert forall|x: int, y: int, z: int, x2: int, y2: int, z2: int|
        bit_index((x, y, z)) && bit_index((x2, y2, z2)) && #[trigger] b_source(x, y, z) == at
            && #[trigger] b_source(x2, y2, z2) == at implies x == x2 && y == y2 && z == z2 by {
        assert(y == y2);
        let r = R@[(x + 3 * y) % 5]@[x] as int;
        assert((z + 64 - r) % 64 == (z2 + 64 - r) % 64);
    }
}

/// Where the registers of A' are pairwise different, so are the bits of B.
pub proof fn b_keeps_registers_apart<T>(
    cols: KeccakCols<T>,
    at: (int, int, int),
    other: (int, int, int),
)
    requires
        forall|i: (int, int, int), j: (int, int, int)|
            bit_index(i) && bit_index(j) && #[trigger] cols.a_prime_cell(i)
                == #[trigger] cols.a_prime_cell(j) ==> i == j,
        bit_index(at),
        bit_index(other),
    ensures
        cols.b_cell(at.0, at.1, at.2) == cols.b_cell(other.0, other.1, other.2) <==> at == other,
{
    let i = b_source(at.0, at.1, at.2);
    let j = b_source(other.0, other.1, other.2);
    b_permutes_a_prime(at);
    assert(bit_index((at.0, at.1, at.2)) && bit_index((other.0, other.1, other.2)));
    assert(bit_index(i) && bit_index(j));
    b_permutes_a_prime(i);
}

/// A flat row holds one set of columns only: what is read from the row that was
/// written is what was written.
pub proof fn row_determines_columns<T>(a: KeccakCols<T>, b: KeccakCols<T>)
    requires
        a.row() == b.row(),
    ensures
        a == b,
{
    assert forall|i: int| 0 <= i < NUM_KECCAK_COLS implies #[trigger] a.cell(i) == b.cell(i) by {
        assert(a.row()[i] == a.cell(i));
        assert(b.row()[i] == b.cell(i));
    }
    assert forall|k: int| 0 <= k < 24 implies a.step_flags@[k] == b.step_flags@[k] by {
        assert(a.cell(k) == b.cell(k));
    }
    assert(a.step_flags =~= b.step_flags);
    assert(a.cell(COL_EXPORT as int) == b.cell(COL_EXPORT as int));
    assert forall|k: int| 0 <= k < 100 implies #[trigger] limb_cell(a.preimage, k) == limb_cell(
        b.preimage,
        k,
    ) by {
        assert(a.cell(COL_PREIMAGE + k) == b.cell(COL_PREIMAGE + k));
    }
    lemma_limb_cells(a.preimage, b.preimage);
    assert forall|k: int| 0 <= k < 100 implies #[trigger] limb_cell(a.a, k) == limb_cell(
        b.a,
        k,
    ) by {
        assert(a.cell(COL_A + k) == b.cell(COL_A + k));
    }
    lemma_limb_cells(a.a, b.a);
    assert forall|k: int| 0 <= k < 320 implies #[trigger] a.c@[k / 64]@[k % 64] == b.c@[k / 64]@[k
        % 64] by {
        assert(a.cell(COL_C + k) == b.cell(COL_C + k));
    }
    lemma_sheet_cells(a.c, b.c);
    assert forall|k: int| 0 <= k < 320 implies #[trigger] a.c_prime@[k / 64]@[k % 64]
        == b.c_prime@[k / 64]@[k % 64] by {
        assert(a.cell(COL_C_PRIME + k) == b.cell(COL_C_PRIME + k));
    }
    lemma_sheet_cells(a.c_prime, b.c_prime);
    assert forall|y: int| 0 <= y < 5 implies a.a_prime@[y] == b.a_prime@[y] by {
        let (p, q) = (a.a_prime@[y], b.a_prime@[y]);
        assert forall|k: int| 0 <= k < 320 implies #[trigger] p@[k / 64]@[k % 64] == q@[k / 64]@[k
            % 64] by {
            let j = 320 * y + k;
            assert(j / 320 == y && (j / 64) % 5 == k / 64 && j % 64 == k % 64);
            assert(a.cell(COL_A_PRIME + j) == b.cell(COL_A_PRIME + j));
        }
        lemma_sheet_cells(p, q);
    }
    assert(a.a_prime =~= b.a_prime);
    assert forall|k: int| 0 <= k < 100 implies #[trigger] limb_cell(a.a_prime_prime, k)
        == limb_cell(b.a_prime_prime, k) by {
        assert(a.cell(COL_A_PRIME_PRIME + k) == b.cell(COL_A_PRIME_PRIME + k));
    }
    lemma_limb_cells(a.a_prime_prime, b.a_prime_prime);
    assert forall|z: int| 0 <= z < 64 implies a.a_prime_prime_0_0_bits@[z]
        == b.a_prime_prime_0_0_bits@[z] by {
        assert(a.cell(COL_A_PRIME_PRIME_0_0_BITS + z) == b.cell(COL_A_PRIME_PRIME_0_0_BITS + z));
    }
    assert(a.a_prime_prime_0_0_bits =~= b.a_prime_prime_0_0_bits);
    assert forall|l: int| 0 <= l < 4 implies a.a_prime_prime_prime_0_0_limbs@[l]
        == b.a_prime_prime_prime_0_0_limbs@[l] by {
        assert(a.cell(COL_A_PRIME_PRIME_PRIME_0_0_LIMBS + l) == b.cell(
            COL_A_PRIME_PRIME_PRIME_0_0_LIMBS + l,
        ));
    }
    assert(a.a_prime_prime_prime_0_0_limbs =~= b.a_prime_prime_prime_0_0_limbs);
}

/// `p3_util::indices_arr`: the array `[0, 1, .., N - 1]`.
#[verifier::external_body]
fn column_indices() -> (r: [usize; NUM_KECCAK_COLS])
    ensures
        forall|i: int| 0 <= i < NUM_KECCAK_COLS ==> #[trigger] r@[i] == i,
{
    p3_util::indices_arr::<NUM_KECCAK_COLS>()
}

/// The index of every column, by register.
pub fn make_col_map() -> (r: KeccakCols<usize>)
    ensures
        r.row() == Seq::new(NUM_KECCAK_COLS as nat, |i: int| i as usize),
{
    let indices = column_indices();
    let r = KeccakCols::from_row(&indices);
    assert(r.row() =~= Seq::new(NUM_KECCAK_COLS as nat, |i: int| i as usize));
    r
}

/// Every rotation offset is below the lane width.
pub proof fn lemma_rotation_range()
    ensures
        forall|x: int, y: int| 0 <= x < 5 && 0 <= y < 5 ==> 0 <= #[trigger] R@[x]@[y] < 64,
{
    assert forall|x: int, y: int| 0 <= x < 5 && 0 <= y < 5 implies 0 <= #[trigger] R@[x]@[y]
        < 64 by {
        assert(x == 0 || x == 1 || x == 2 || x == 3 || x == 4);
        assert(y == 0 || y == 1 || y == 2 || y == 3 || y == 4);
    }
}

/// One on every row but those of the last round.
pub open spec fn not_final_of<T: RingModel>(up: Seq<T>) -> T {
    T::diff_of(T::elem(1), up[NUM_ROUNDS_MIN_1 as int])
}

/// The sum of the first `n` step flags.
pub open spec fn flag_sum<T: RingModel>(up: Seq<T>, n: int) -> T
    decreases n,
{
    if n <= 0 {
        T::elem(0)
    } else {
        T::sum_of(flag_sum(up, n - 1), up[n - 1])
    }
}

/// Bit `C[x, z]`.
pub open spec fn c_at<T>(up: Seq<T>, x: int, z: int) -> T {
    up[COL_C + 64 * x + z]
}

/// Bit `C'[x, z]`.
pub open spec fn c_prime_at<T>(up: Seq<T>, x: int, z: int) -> T {
    up[COL_C_PRIME + 64 * x + z]
}

/// Bit `A'[y, x, z]`.
pub open spec fn a_prime_at<T>(up: Seq<T>, y: int, x: int, z: int) -> T {
    up[COL_A_PRIME + 320 * y + 64 * x + z]
}

/// Bit `B[x, y, z]`, a rotation of A'.
pub open spec fn b_at<T>(up: Seq<T>, x: int, y: int, z: int) -> T {
    a_prime_at(up, x, (x + 3 * y) % 5, (z + 64 - R@[(x + 3 * y) % 5]@[x]) % 64)
}

/// Each step flag is a bit.
pub open spec fn flag_constraints<T: RingModel>(up: Seq<T>) -> Seq<T> {
    Seq::new(24, |i: int| bool_check_of(up[i]))
}

/// Exactly one step flag is set.
pub open spec fn one_hot_constraint<T: RingModel>(up: Seq<T>) -> Seq<T> {
    seq![T::diff_of(flag_sum(up, 24), T::elem(1))]
}

/// The flag of a round is the flag of the following round on the next row.
pub open spec fn rotation_constraints<T: RingModel>(up: Seq<T>, down: Seq<T>) -> Seq<T> {
    Seq::new(24, |i: int| T::diff_of(up[i], down[(i + 1) % 24]))
}

/// The export flag is a bit, and off unless on the final step.
pub open spec fn export_constraints<T: RingModel>(up: Seq<T>) -> Seq<T> {
    seq![
        bool_check_of(up[COL_EXPORT as int]),
        T::prod_of(not_final_of(up), up[COL_EXPORT as int]),
    ]
}

/// On the first step, the round input is the preimage.
pub open spec fn preimage_constraints<T: RingModel>(up: Seq<T>) -> Seq<T> {
    Seq::new(
        100,
        |k: int| T::prod_of(up[0], T::diff_of(up[COL_PREIMAGE + k], up[COL_A + k])),
    )
}

/// Unless on the final step, the next row has the same preimage.
pub open spec fn preimage_next_constraints<T: RingModel>(
    up: Seq<T>,
    down: Seq<T>,
    pre_at: int,
) -> Seq<T> {
    Seq::new(
        100,
        |k: int| T::prod_of(not_final_of(up), T::diff_of(up[COL_PREIMAGE + k], down[pre_at + k])),
    )
}

/// Constraint `k` on C and C': for each `x`, 64 bit checks of C and then 64
/// definitions of C'.
pub open spec fn c_constraint<T: RingModel>(up: Seq<T>, k: int) -> T {
    let x = k / 128;
    let z = k % 64;
    if k % 128 < 64 {
        bool_check_of(c_at(up, x, z))
    } else {
        T::diff_of(
            c_prime_at(up, x, z),
            xor3_of(c_at(up, x, z), c_at(up, (x + 4) % 5, z), c_at(up, (x + 1) % 5, (z + 63) % 64)),
        )
    }
}

/// The definition of C' from the bits of C.
pub open spec fn c_constraints<T: RingModel>(up: Seq<T>) -> Seq<T> {
    Seq::new(640, |k: int| c_constraint(up, k))
}

/// The bits of limb `limb` of A in lane `5y + x`, as A', C and C' give them.
pub open spec fn a_limb_bits<T: RingModel>(up: Seq<T>, lane: int, limb: int) -> Seq<T> {
    Seq::new(
        16,
        |i: int|
            xor3_of(
                a_prime_at(up, lane / 5, lane % 5, 16 * limb + i),
                c_at(up, lane % 5, 16 * limb + i),
                c_prime_at(up, lane % 5, 16 * limb + i),
            ),
    )
}

/// Constraint `k` on A and A': for each lane, 64 bit checks of A' and then the
/// four limbs of A.
pub open spec fn a_constraint<T: RingModel>(up: Seq<T>, k: int) -> T {
    let lane = k / 68;
    let j = k % 68;
    if j < 64 {
        bool_check_of(a_prime_at(up, lane / 5, lane % 5, j))
    } else {
        T::diff_of(pack_of(a_limb_bits(up, lane, j - 64)), up[COL_A + 4 * lane + (j - 64)])
    }
}

/// The limbs of A agree with A', C and C'.
pub open spec fn a_constraints<T: RingModel>(up: Seq<T>) -> Seq<T> {
    Seq::new(1700, |k: int| a_constraint(up, k))
}

/// The sum of `A'[y, x, z]` over the first `n` values of `y`.
pub open spec fn column_sum<T: RingModel>(up: Seq<T>, x: int, z: int, n: int) -> T
    decreases n,
{
    if n <= 0 {
        T::elem(0)
    } else {
        T::sum_of(column_sum(up, x, z, n - 1), a_prime_at(up, n - 1, x, z))
    }
}

/// `d (d - 2) (d - 4)` for the column sum minus C': the column has the parity
/// of C'.
pub open spec fn parity_constraint<T: RingModel>(up: Seq<T>, k: int) -> T {
    let d = T::diff_of(column_sum(up, k / 64, k % 64, 5), c_prime_at(up, k / 64, k % 64));
    T::prod_of(
        T::prod_of(d, T::diff_of(d, T::elem(2))),
        T::diff_of(d, double_of(T::elem(2))),
    )
}

/// The parity of every column of A' is C'.
pub open spec fn parity_constraints<T: RingModel>(up: Seq<T>) -> Seq<T> {
    Seq::new(320, |k: int| parity_constraint(up, k))
}

/// Bit `z` of `A''[y, x]`, as B gives it.
pub open spec fn chi_bit<T: RingModel>(up: Seq<T>, x: int, y: int, z: int) -> T {
    xor_of(
        andn_of(b_at(up, (x + 1) % 5, y, z), b_at(up, (x + 2) % 5, y, z)),
        b_at(up, x, y, z),
    )
}

/// The bits of limb `limb` of A'' in lane `5y + x`, as B gives them.
pub open spec fn chi_limb_bits<T: RingModel>(up: Seq<T>, lane: int, limb: int) -> Seq<T> {
    Seq::new(16, |i: int| chi_bit(up, lane % 5, lane / 5, 16 * limb + i))
}

/// The limbs of A'' are those that B gives.
pub open spec fn chi_constraints<T: RingModel>(up: Seq<T>) -> Seq<T> {
    Seq::new(
        100,
        |k: int| T::diff_of(pack_of(chi_limb_bits(up, k / 4, k % 4)), up[COL_A_PRIME_PRIME + k]),
    )
}

/// The bits of `A''[0, 0]` are bits.
pub open spec fn bits_constraints<T: RingModel>(up: Seq<T>) -> Seq<T> {
    Seq::new(64, |z: int| bool_check_of(up[COL_A_PRIME_PRIME_0_0_BITS + z]))
}

/// The bits of limb `limb` of `A''[0, 0]`.
pub open spec fn first_limb_bits<T: RingModel>(up: Seq<T>, limb: int) -> Seq<T> {
    Seq::new(16, |i: int| up[COL_A_PRIME_PRIME_0_0_BITS + 16 * limb + i])
}

/// The limbs of `A''[0, 0]` agree with its bits.
pub open spec fn first_lane_constraints<T: RingModel>(up: Seq<T>) -> Seq<T> {
    Seq::new(
        4,
        |limb: int| T::diff_of(pack_of(first_limb_bits(up, limb)), up[COL_A_PRIME_PRIME + limb]),
    )
}

/// Bit `z` of the constant of the current round, summed over the first `n`
/// rounds.
pub open spec fn rc_sum<T: RingModel>(up: Seq<T>, z: int, n: int) -> T
    decreases n,
{
    if n <= 0 {
        T::elem(0)
    } else {
        T::sum_of(
            rc_sum(up, z, n - 1),
            T::prod_of(up[n - 1], bool_elem::<T>(rc_bit(n - 1, z))),
        )
    }
}

/// The bits of limb `limb` of `A'''[0, 0]`, as the round constant gives them.
pub open spec fn iota_limb_bits<T: RingModel>(up: Seq<T>, limb: int) -> Seq<T> {
    Seq::new(
        16,
        |i: int|
            xor_of(
                rc_sum(up, 16 * limb + i, 24),
                up[COL_A_PRIME_PRIME_0_0_BITS + 16 * limb + i],
            ),
    )
}

/// The limbs of `A'''[0, 0]` are those of `A''[0, 0] XOR RC`.
pub open spec fn iota_constraints<T: RingModel>(up: Seq<T>) -> Seq<T> {
    Seq::new(
        4,
        |limb: int|
            T::diff_of(
                pack_of(iota_limb_bits(up, limb)),
                up[COL_A_PRIME_PRIME_PRIME_0_0_LIMBS + limb],
            ),
    )
}

/// Limb `k` of the round output.
pub open spec fn output_at<T>(up: Seq<T>, k: int) -> T {
    if k < 4 {
        up[COL_A_PRIME_PRIME_PRIME_0_0_LIMBS + k]
    } else {
        up[COL_A_PRIME_PRIME + k]
    }
}

/// Unless on the final step, the output of this round is the next input.
pub open spec fn output_constraints<T: RingModel>(up: Seq<T>, down: Seq<T>, a_at: int) -> Seq<T> {
    Seq::new(
        100,
        |k: int| T::prod_of(not_final_of(up), T::diff_of(output_at(up, k), down[a_at + k])),
    )
}

/// The constraints that schedule the rounds and carry the preimage along.
pub open spec fn schedule_constraints<T: RingModel>(
    up: Seq<T>,
    down: Seq<T>,
    pre_at: int,
) -> Seq<T> {
    flag_constraints(up) + one_hot_constraint(up) + rotation_constraints(up, down)
        + export_constraints(up) + preimage_constraints(up) + preimage_next_constraints(
        up,
        down,
        pre_at,
    )
}

/// The constraints of one Keccak-f round.
pub open spec fn round_constraints<T: RingModel>(up: Seq<T>) -> Seq<T> {
    c_constraints(up) + a_constraints(up) + parity_constraints(up) + chi_constraints(up)
        + bits_constraints(up) + first_lane_constraints(up) + iota_constraints(up)
}

/// Everything that the AIR asserts of a row `up`, in order. The next row gives
/// its step flags from index 0 on, its preimage from `pre_at` on, and its round
/// input from `a_at` on.
pub open spec fn keccak_constraints<T: RingModel>(
    up: Seq<T>,
    down: Seq<T>,
    pre_at: int,
    a_at: int,
) -> Seq<T> {
    schedule_constraints(up, down, pre_at) + round_constraints(up) + output_constraints(
        up,
        down,
        a_at,
    )
}

/// Each step flag is a bit.
fn eval_flags<T: Ring>(b: &mut RowBuilder<T>)
    requires
        old(b).up@.len() >= NUM_KECCAK_COLS,
    ensures
        asserts(*old(b), *final(b), flag_constraints(old(b).up@)),
{
    let ghost start = *b;
    let ghost claims = flag_constraints(b.up@);
    let mut k: usize = 0;
    while k < 24
        invariant
            k <= 24,
            start.up@.len() >= NUM_KECCAK_COLS,
            claims == flag_constraints(start.up@),
            asserts(start, *b, claims.take(k as int)),
        decreases 24 - k,
    {
        let value = b.up[k].bool_check();
        assert(value == claims[k as int]);
        assert(start.asserted@ + claims.take(k + 1) =~= (start.asserted@ + claims.take(
            k as int,
        )).push(value));
        b.assert_zero(value);
        k = k + 1;
    }
    assert(claims.take(24) =~= claims);
}

/// Exactly one step flag is set.
fn eval_one_hot<T: Ring>(b: &mut RowBuilder<T>)
    requires
        old(b).up@.len() >= NUM_KECCAK_COLS,
    ensures
        asserts(*old(b), *final(b), one_hot_constraint(old(b).up@)),
{
    let mut sum = T::zero();
    let mut i: usize = 0;
    while i < NUM_ROUNDS
        invariant
            i <= 24,
            b.up@.len() >= NUM_KECCAK_COLS,
            sum == flag_sum(b.up@, i as int),
            *b == *old(b),
        decreases 24 - i,
    {
        sum = sum.plus(&b.up[i]);
        i = i + 1;
    }
    b.assert_zero(sum.minus(&T::one()));
    assert(b.asserted@ =~= old(b).asserted@ + one_hot_constraint(old(b).up@));
}

/// The flags rotate from row to row.
fn eval_rotation<T: Ring>(b: &mut RowBuilder<T>)
    requires
        old(b).up@.len() >= NUM_KECCAK_COLS,
        old(b).down@.len() >= 24,
    ensures
        asserts(*old(b), *final(b), rotation_constraints(old(b).up@, old(b).down@)),
{
    let ghost start = *b;
    let ghost claims = rotation_constraints(b.up@, b.down@);
    let mut k: usize = 0;
    while k < 24
        invariant
            k <= 24,
            start.up@.len() >= NUM_KECCAK_COLS,
            claims == rotation_constraints(start.up@, start.down@),
            asserts(start, *b, claims.take(k as int)),
            start.down@.len() >= 24,
        decreases 24 - k,
    {
        let value = b.up[k].minus(&b.down[(k + 1) % NUM_ROUNDS]);
        assert(value == claims[k as int]);
        assert(start.asserted@ + claims.take(k + 1) =~= (start.asserted@ + claims.take(
            k as int,
        )).push(value));
        b.assert_zero(value);
        k = k + 1;
    }
    assert(claims.take(24) =~= claims);
}

/// The export flag is a bit, and off unless on the final step.
fn eval_export<T: Ring>(b: &mut RowBuilder<T>)
    requires
        old(b).up@.len() >= NUM_KECCAK_COLS,
    ensures
        asserts(*old(b), *final(b), export_constraints(old(b).up@)),
{
    let not_final = T::one().minus(&b.up[NUM_ROUNDS_MIN_1]);
    let export = b.up[COL_EXPORT].dup();
    b.assert_zero(export.bool_check());
    b.assert_zero(not_final.times(&export));
    assert(b.asserted@ =~= old(b).asserted@ + export_constraints(old(b).up@));
}

/// On the first step, the round input is the preimage.
fn eval_preimage<T: Ring>(b: &mut RowBuilder<T>)
    requires
        old(b).up@.len() >= NUM_KECCAK_COLS,
    ensures
        asserts(*old(b), *final(b), preimage_constraints(old(b).up@)),
{
    let ghost start = *b;
    let ghost claims = preimage_constraints(b.up@);
    let mut k: usize = 0;
    while k < 100
        invariant
            k <= 100,
            start.up@.len() >= NUM_KECCAK_COLS,
            claims == preimage_constraints(start.up@),
            asserts(start, *b, claims.take(k as int)),
        decreases 100 - k,
    {
        let gap = b.up[COL_PREIMAGE + k].minus(&b.up[COL_A + k]);
        let value = b.up[0].times(&gap);
        assert(value == claims[k as int]);
        assert(start.asserted@ + claims.take(k + 1) =~= (start.asserted@ + claims.take(
            k as int,
        )).push(value));
        b.assert_zero(value);
        k = k + 1;
    }
    assert(claims.take(100) =~= claims);
}

/// The preimage is carried to the next row.
fn eval_preimage_next<T: Ring>(b: &mut RowBuilder<T>, pre_at: usize)
    requires
        old(b).up@.len() >= NUM_KECCAK_COLS,
        old(b).down.len() >= pre_at + 100,
    ensures
        asserts(*old(b), *final(b), preimage_next_constraints(old(b).up@, old(b).down@, pre_at as int)),
{
    let ghost start = *b;
    let ghost claims = preimage_next_constraints(b.up@, b.down@, pre_at as int);
    let not_final = T::one().minus(&b.up[NUM_ROUNDS_MIN_1]);
    let mut k: usize = 0;
    while k < 100
        invariant
            k <= 100,
            start.up@.len() >= NUM_KECCAK_COLS,
            claims == preimage_next_constraints(start.up@, start.down@, pre_at as int),
            asserts(start, *b, claims.take(k as int)),
            not_final == not_final_of(start.up@),
            start.down.len() >= pre_at + 100,
        decreases 100 - k,
    {
        let gap = b.up[COL_PREIMAGE + k].minus(&b.down[pre_at + k]);
        let value = not_final.times(&gap);
        assert(value == claims[k as int]);
        assert(start.asserted@ + claims.take(k + 1) =~= (start.asserted@ + claims.take(
            k as int,
        )).push(value));
        b.assert_zero(value);
        k = k + 1;
    }
    assert(claims.take(100) =~= claims);
}

/// C holds bits, and C' is what the theta step makes of them.
fn eval_c<T: Ring>(b: &mut RowBuilder<T>)
    requires
        old(b).up@.len() >= NUM_KECCAK_COLS,
    ensures
        asserts(*old(b), *final(b), c_constraints(old(b).up@)),
{
    let ghost start = *b;
    let ghost claims = c_constraints(b.up@);
    let mut k: usize = 0;
    while k < 640
        invariant
            k <= 640,
            start.up@.len() >= NUM_KECCAK_COLS,
            claims == c_constraints(start.up@),
            asserts(start, *b, claims.take(k as int)),
        decreases 640 - k,
    {
        let x: usize = k / 128;
        let z: usize = k % 64;
        let value = if k % 128 < 64 {
            b.up[COL_C + 64 * x + z].bool_check()
        } else {
            let xor = b.up[COL_C + 64 * x + z].xor3(
                &b.up[COL_C + 64 * ((x + 4) % 5) + z],
                &b.up[COL_C + 64 * ((x + 1) % 5) + (z + 63) % 64],
            );
            b.up[COL_C_PRIME + 64 * x + z].minus(&xor)
        };
        assert(value == c_constraint(start.up@, k as int));
        assert(value == claims[k as int]);
        assert(start.asserted@ + claims.take(k + 1) =~= (start.asserted@ + claims.take(
            k as int,
        )).push(value));
        b.assert_zero(value);
        k = k + 1;
    }
    assert(claims.take(640) =~= claims);
}

/// Limb `limb` of A in lane `lane`, from A', C and C'.
fn a_limb<T: Ring>(up: &Vec<T>, lane: usize, limb: usize) -> (r: T)
    requires
        up@.len() >= NUM_KECCAK_COLS,
        lane < 25,
        limb < 4,
    ensures
        r == pack_of(a_limb_bits(up@, lane as int, limb as int)),
{
    let ghost bits = a_limb_bits(up@, lane as int, limb as int);
    let mut acc = T::zero();
    let mut i: usize = BITS_PER_LIMB;
    while i > 0
        invariant
            i <= 16,
            up@.len() >= NUM_KECCAK_COLS,
            lane < 25,
        limb < 4,
            bits == a_limb_bits(up@, lane as int, limb as int),
            acc == pack_of(bits.skip(i as int)),
        decreases i,
    {
        i = i - 1;
        let z: usize = BITS_PER_LIMB * limb + i;
        let y: usize = lane / 5;
        let x: usize = lane % 5;
        let bit = up[COL_A_PRIME + 320 * y + 64 * x + z].xor3(
            &up[COL_C + 64 * x + z],
            &up[COL_C_PRIME + 64 * x + z],
        );
        assert(bit == bits[i as int]);
        assert(bits.skip(i as int).drop_first() =~= bits.skip(i + 1));
        acc = acc.double().plus(&bit);
    }
    assert(bits.skip(0) =~= bits);
    acc
}

/// A' holds bits, and the limbs of A agree with them.
fn eval_a<T: Ring>(b: &mut RowBuilder<T>)
    requires
        old(b).up@.len() >= NUM_KECCAK_COLS,
    ensures
        asserts(*old(b), *final(b), a_constraints(old(b).up@)),
{
    let ghost start = *b;
    let ghost claims = a_constraints(b.up@);
    let mut k: usize = 0;
    while k < 1700
        invariant
            k <= 1700,
            start.up@.len() >= NUM_KECCAK_COLS,
            claims == a_constraints(start.up@),
            asserts(start, *b, claims.take(k as int)),
        decreases 1700 - k,
    {
        let lane: usize = k / 68;
        let j: usize = k % 68;
        let value = if j < 64 {
            b.up[COL_A_PRIME + 64 * lane + j].bool_check()
        } else {
            let limb: usize = j - 64;
            a_limb(&b.up, lane, limb).minus(&b.up[COL_A + 4 * lane + limb])
        };
        assert(320 * (lane / 5) + 64 * (lane % 5) == 64 * lane);
        assert(value == a_constraint(start.up@, k as int));
        assert(value == claims[k as int]);
        assert(start.asserted@ + claims.take(k + 1) =~= (start.asserted@ + claims.take(
            k as int,
        )).push(value));
        b.assert_zero(value);
        k = k + 1;
    }
    assert(claims.take(1700) =~= claims);
}

/// The sum of column `x, z` of A'.
fn sum_column<T: Ring>(up: &Vec<T>, x: usize, z: usize) -> (r: T)
    requires
        up@.len() >= NUM_KECCAK_COLS,
        x < 5,
        z < 64,
    ensures
        r == column_sum(up@, x as int, z as int, 5),
{
    let mut sum = T::zero();
    let mut y: usize = 0;
    while y < 5
        invariant
            y <= 5,
            x < 5,
            z < 64,
            up@.len() >= NUM_KECCAK_COLS,
            sum == column_sum(up@, x as int, z as int, y as int),
        decreases 5 - y,
    {
        sum = sum.plus(&up[COL_A_PRIME + 320 * y + 64 * x + z]);
        y = y + 1;
    }
    sum
}

/// The parity of every column of A' is C'.
fn eval_parity<T: Ring>(b: &mut RowBuilder<T>)
    requires
        old(b).up@.len() >= NUM_KECCAK_COLS,
    ensures
        asserts(*old(b), *final(b), parity_constraints(old(b).up@)),
{
    let ghost start = *b;
    let ghost claims = parity_constraints(b.up@);
    let mut k: usize = 0;
    while k < 320
        invariant
            k <= 320,
            start.up@.len() >= NUM_KECCAK_COLS,
            claims == parity_constraints(start.up@),
            asserts(start, *b, claims.take(k as int)),
        decreases 320 - k,
    {
        let x: usize = k / 64;
        let z: usize = k % 64;
        let diff = sum_column(&b.up, x, z).minus(&b.up[COL_C_PRIME + 64 * x + z]);
        let four = T::two().double();
        let value = diff.times(&diff.minus(&T::two())).times(&diff.minus(&four));
        assert(value == parity_constraint(start.up@, k as int));
        assert(value == claims[k as int]);
        assert(start.asserted@ + claims.take(k + 1) =~= (start.asserted@ + claims.take(
            k as int,
        )).push(value));
        b.assert_zero(value);
        k = k + 1;
    }
    assert(claims.take(320) =~= claims);
}

/// Bit `z` of `B[x, y]`.
fn b_bit<T: Ring>(up: &Vec<T>, x: usize, y: usize, z: usize) -> (r: T)
    requires
        up@.len() >= NUM_KECCAK_COLS,
        x < 5,
        y < 5,
        z < 64,
    ensures
        r == b_at(up@, x as int, y as int, z as int),
{
    let a: usize = (x + 3 * y) % 5;
    let rot: usize = R[a][x] as usize;
    proof {
        lemma_rotation_range();
    }
    up[COL_A_PRIME + 320 * x + 64 * a + (z + 64 - rot) % 64].dup()
}

/// Limb `limb` of A'' in lane `lane`, from B.
fn chi_limb<T: Ring>(up: &Vec<T>, lane: usize, limb: usize) -> (r: T)
    requires
        up@.len() >= NUM_KECCAK_COLS,
        lane < 25,
        limb < 4,
    ensures
        r == pack_of(chi_limb_bits(up@, lane as int, limb as int)),
{
    let ghost bits = chi_limb_bits(up@, lane as int, limb as int);
    let mut acc = T::zero();
    let mut i: usize = BITS_PER_LIMB;
    while i > 0
        invariant
            i <= 16,
            up@.len() >= NUM_KECCAK_COLS,
            lane < 25,
        limb < 4,
            bits == chi_limb_bits(up@, lane as int, limb as int),
            acc == pack_of(bits.skip(i as int)),
        decreases i,
    {
        i = i - 1;
        let z: usize = BITS_PER_LIMB * limb + i;
        let y: usize = lane / 5;
        let x: usize = lane % 5;
        let b0 = b_bit(up, x, y, z);
        let b1 = b_bit(up, (x + 1) % 5, y, z);
        let b2 = b_bit(up, (x + 2) % 5, y, z);
        let bit = b1.andn(&b2).xor(&b0);
        assert(bit == bits[i as int]);
        assert(bits.skip(i as int).drop_first() =~= bits.skip(i + 1));
        acc = acc.double().plus(&bit);
    }
    assert(bits.skip(0) =~= bits);
    acc
}

/// The limbs of A'' are those that B gives.
fn eval_chi<T: Ring>(b: &mut RowBuilder<T>)
    requires
        old(b).up@.len() >= NUM_KECCAK_COLS,
    ensures
        asserts(*old(b), *final(b), chi_constraints(old(b).up@)),
{
    let ghost start = *b;
    let ghost claims = chi_constraints(b.up@);
    let mut k: usize = 0;
    while k < 100
        invariant
            k <= 100,
            start.up@.len() >= NUM_KECCAK_COLS,
            claims == chi_constraints(start.up@),
            asserts(start, *b, claims.take(k as int)),
        decreases 100 - k,
    {
        let value = chi_limb(&b.up, k / 4, k % 4).minus(&b.up[COL_A_PRIME_PRIME + k]);
        assert(value == claims[k as int]);
        assert(start.asserted@ + claims.take(k + 1) =~= (start.asserted@ + claims.take(
            k as int,
        )).push(value));
        b.assert_zero(value);
        k = k + 1;
    }
    assert(claims.take(100) =~= claims);
}

/// The bits of `A''[0, 0]` are bits.
fn eval_bits<T: Ring>(b: &mut RowBuilder<T>)
    requires
        old(b).up@.len() >= NUM_KECCAK_COLS,
    ensures
        asserts(*old(b), *final(b), bits_constraints(old(b).up@)),
{
    let ghost start = *b;
    let ghost claims = bits_constraints(b.up@);
    let mut k: usize = 0;
    while k < 64
        invariant
            k <= 64,
            start.up@.len() >= NUM_KECCAK_COLS,
            claims == bits_constraints(start.up@),
            asserts(start, *b, claims.take(k as int)),
        decreases 64 - k,
    {
        let value = b.up[COL_A_PRIME_PRIME_0_0_BITS + k].bool_check();
        assert(value == claims[k as int]);
        assert(start.asserted@ + claims.take(k + 1) =~= (start.asserted@ + claims.take(
            k as int,
        )).push(value));
        b.assert_zero(value);
        k = k + 1;
    }
    assert(claims.take(64) =~= claims);
}

/// Limb `limb` of `A''[0, 0]`, from its bits.
fn first_limb<T: Ring>(up: &Vec<T>, limb: usize) -> (r: T)
    requires
        up@.len() >= NUM_KECCAK_COLS,
        limb < 4,
    ensures
        r == pack_of(first_limb_bits(up@, limb as int)),
{
    let ghost bits = first_limb_bits(up@, limb as int);
    let mut acc = T::zero();
    let mut i: usize = BITS_PER_LIMB;
    while i > 0
        invariant
            i <= 16,
            up@.len() >= NUM_KECCAK_COLS,
            limb < 4,
            bits == first_limb_bits(up@, limb as int),
            acc == pack_of(bits.skip(i as int)),
        decreases i,
    {
        i = i - 1;
        let z: usize = BITS_PER_LIMB * limb + i;
        let bit = up[COL_A_PRIME_PRIME_0_0_BITS + z].dup();
        assert(bit == bits[i as int]);
        assert(bits.skip(i as int).drop_first() =~= bits.skip(i + 1));
        acc = acc.double().plus(&bit);
    }
    assert(bits.skip(0) =~= bits);
    acc
}

/// The limbs of `A''[0, 0]` agree with its bits.
fn eval_first_lane<T: Ring>(b: &mut RowBuilder<T>)
    requires
        old(b).up@.len() >= NUM_KECCAK_COLS,
    ensures
        asserts(*old(b), *final(b), first_lane_constraints(old(b).up@)),
{
    let ghost start = *b;
    let ghost claims = first_lane_constraints(b.up@);
    let mut k: usize = 0;
    while k < 4
        invariant
            k <= 4,
            start.up@.len() >= NUM_KECCAK_COLS,
            claims == first_lane_constraints(start.up@),
            asserts(start, *b, claims.take(k as int)),
        decreases 4 - k,
    {
        let value = first_limb(&b.up, k).minus(&b.up[COL_A_PRIME_PRIME + k]);
        assert(value == claims[k as int]);
        assert(start.asserted@ + claims.take(k + 1) =~= (start.asserted@ + claims.take(
            k as int,
        )).push(value));
        b.assert_zero(value);
        k = k + 1;
    }
    assert(claims.take(4) =~= claims);
}

/// Bit `z` of the constant of the current round.
fn rc_value<T: Ring>(up: &Vec<T>, z: usize) -> (r: T)
    requires
        up@.len() >= NUM_KECCAK_COLS,
        z < 64,
    ensures
        r == rc_sum(up@, z as int, 24),
{
    let mut sum = T::zero();
    let mut round: usize = 0;
    while round < NUM_ROUNDS
        invariant
            round <= 24,
            z < 64,
            up@.len() >= NUM_KECCAK_COLS,
            sum == rc_sum(up@, z as int, round as int),
        decreases 24 - round,
    {
        let constant = T::from_bool(rc_value_bit(round, z) != 0);
        sum = sum.plus(&up[round].times(&constant));
        round = round + 1;
    }
    sum
}

/// Limb `limb` of `A'''[0, 0]`, from the bits of `A''[0, 0]` and the round
/// constant.
fn iota_limb<T: Ring>(up: &Vec<T>, limb: usize) -> (r: T)
    requires
        up@.len() >= NUM_KECCAK_COLS,
        limb < 4,
    ensures
        r == pack_of(iota_limb_bits(up@, limb as int)),
{
    let ghost bits = iota_limb_bits(up@, limb as int);
    let mut acc = T::zero();
    let mut i: usize = BITS_PER_LIMB;
    while i > 0
        invariant
            i <= 16,
            up@.len() >= NUM_KECCAK_COLS,
            limb < 4,
            bits == iota_limb_bits(up@, limb as int),
            acc == pack_of(bits.skip(i as int)),
        decreases i,
    {
        i = i - 1;
        let z: usize = BITS_PER_LIMB * limb + i;
        let bit = rc_value(up, z).xor(&up[COL_A_PRIME_PRIME_0_0_BITS + z]);
        assert(bit == bits[i as int]);
        assert(bits.skip(i as int).drop_first() =~= bits.skip(i + 1));
        acc = acc.double().plus(&bit);
    }
    assert(bits.skip(0) =~= bits);
    acc
}

/// The limbs of `A'''[0, 0]` are those of `A''[0, 0] XOR RC`.
fn eval_iota<T: Ring>(b: &mut RowBuilder<T>)
    requires
        old(b).up@.len() >= NUM_KECCAK_COLS,
    ensures
        asserts(*old(b), *final(b), iota_constraints(old(b).up@)),
{
    let ghost start = *b;
    let ghost claims = iota_constraints(b.up@);
    let mut k: usize = 0;
    while k < 4
        invariant
            k <= 4,
            start.up@.len() >= NUM_KECCAK_COLS,
            claims == iota_constraints(start.up@),
            asserts(start, *b, claims.take(k as int)),
        decreases 4 - k,
    {
        let value = iota_limb(&b.up, k).minus(&b.up[COL_A_PRIME_PRIME_PRIME_0_0_LIMBS + k]);
        assert(value == claims[k as int]);
        assert(start.asserted@ + claims.take(k + 1) =~= (start.asserted@ + claims.take(
            k as int,
        )).push(value));
        b.assert_zero(value);
        k = k + 1;
    }
    assert(claims.take(4) =~= claims);
}

/// The output of a round is the input of the next.
fn eval_output<T: Ring>(b: &mut RowBuilder<T>, a_at: usize)
    requires
        old(b).up@.len() >= NUM_KECCAK_COLS,
        old(b).down.len() >= a_at + 100,
    ensures
        asserts(*old(b), *final(b), output_constraints(old(b).up@, old(b).down@, a_at as int)),
{
    let ghost start = *b;
    let ghost claims = output_constraints(b.up@, b.down@, a_at as int);
    let not_final = T::one().minus(&b.up[NUM_ROUNDS_MIN_1]);
    let mut k: usize = 0;
    while k < 100
        invariant
            k <= 100,
            start.up@.len() >= NUM_KECCAK_COLS,
            claims == output_constraints(start.up@, start.down@, a_at as int),
            asserts(start, *b, claims.take(k as int)),
            not_final == not_final_of(start.up@),
            start.down.len() >= a_at + 100,
        decreases 100 - k,
    {
        let output_col: usize = if k < 4 {
            COL_A_PRIME_PRIME_PRIME_0_0_LIMBS + k
        } else {
            COL_A_PRIME_PRIME + k
        };
        let gap = b.up[output_col].minus(&b.down[a_at + k]);
        let value = not_final.times(&gap);
        assert(value == claims[k as int]);
        assert(start.asserted@ + claims.take(k + 1) =~= (start.asserted@ + claims.take(
            k as int,
        )).push(value));
        b.assert_zero(value);
        k = k + 1;
    }
    assert(claims.take(100) =~= claims);
}

/// Evaluate every constraint on a row, reading the next row's preimage from
/// `pre_at` on and its round input from `a_at` on.
fn eval_row<T: Ring>(b: &mut RowBuilder<T>, pre_at: usize, a_at: usize)
    requires
        old(b).up@.len() >= NUM_KECCAK_COLS,
        old(b).down.len() >= 24,
        old(b).down.len() >= pre_at + 100,
        old(b).down.len() >= a_at + 100,
    ensures
        asserts(
            *old(b),
            *final(b),
            keccak_constraints(old(b).up@, old(b).down@, pre_at as int, a_at as int),
        ),
{
    eval_flags(b);
    eval_one_hot(b);
    eval_rotation(b);
    eval_export(b);
    eval_preimage(b);
    eval_preimage_next(b, pre_at);
    assert(b.asserted@ =~= old(b).asserted@ + schedule_constraints(
        old(b).up@,
        old(b).down@,
        pre_at as int,
    ));
    let ghost mid = b.asserted@;
    eval_c(b);
    eval_a(b);
    eval_parity(b);
    eval_chi(b);
    eval_bits(b);
    eval_first_lane(b);
    eval_iota(b);
    assert(b.asserted@ =~= mid + round_constraints(old(b).up@));
    eval_output(b, a_at);
    assert(b.asserted@ =~= old(b).asserted@ + keccak_constraints(
        old(b).up@,
        old(b).down@,
        pre_at as int,
        a_at as int,
    ));
}

/// The column of limb `i` of the preimage.
pub open spec fn input_column(i: int) -> int {
    COL_PREIMAGE + i
}

/// The column of limb `i` of the round output: the first lane is where the round
/// constant was added.
pub open spec fn output_column(i: int) -> int {
    if i < U64_LIMBS {
        COL_A_PRIME_PRIME_PRIME_0_0_LIMBS + i
    } else {
        COL_A_PRIME_PRIME + i
    }
}

/// The column of limb `i` of the rate part of the permutation input.
pub fn input_limb(i: usize) -> (r: usize)
    requires
        i < RATE_LIMBS,
    ensures
        r == input_column(i as int),
{
    let i_u64: usize = i / U64_LIMBS;
    let limb_index: usize = i % U64_LIMBS;
    let y: usize = i_u64 / 5;
    let x: usize = i_u64 % 5;
    let map = make_col_map();
    assert(map.row()[COL_PREIMAGE + i] == COL_PREIMAGE + i);
    map.preimage[y][x][limb_index]
}

/// The column of limb `i` of the rate part of the round output.
pub fn output_limb(i: usize) -> (r: usize)
    requires
        i < RATE_LIMBS,
    ensures
        r == output_column(i as int),
{
    let i_u64: usize = i / U64_LIMBS;
    let limb_index: usize = i % U64_LIMBS;
    let y: usize = i_u64 / 5;
    let x: usize = i_u64 % 5;
    let map = make_col_map();
    assert(i < 4 ==> map.row()[COL_A_PRIME_PRIME_PRIME_0_0_LIMBS + i]
        == COL_A_PRIME_PRIME_PRIME_0_0_LIMBS + i);
    assert(map.row()[COL_A_PRIME_PRIME + i] == COL_A_PRIME_PRIME + i);
    map.a_prime_prime_prime(y, x, limb_index)
}

/// An AIR for the Keccak-f permutation. Assumes field size is at least 16 bits.
#[derive(Debug)]
pub struct KeccakAir<EF> {
    _phantom: PhantomData<EF>,
}

impl<EF> Clone for KeccakAir<EF> {
    fn clone(&self) -> (r: Self)
        ensures
            r == *self,
    {
        *self
    }
}

impl<EF> Copy for KeccakAir<EF> {

}

impl<EF> Default for KeccakAir<EF> {
    fn default() -> (r: Self)
        ensures
            r == Self::instance(),
    {
        Self::new()
    }
}

impl<EF> KeccakAir<EF> {
    /// The only value of the type.
    pub closed spec fn instance() -> Self {
        KeccakAir { _phantom: PhantomData }
    }

    pub fn new() -> (r: Self)
        ensures
            r == Self::instance(),
    {
        Self { _phantom: PhantomData }
    }

    /// Assert every constraint of a row, reading the next row column by column.
    pub fn eval<T: Ring>(&self, builder: &mut RowBuilder<T>)
        requires
            old(builder).up@.len() >= NUM_KECCAK_COLS,
            old(builder).down@.len() >= COL_C,
        ensures
            asserts(
                *old(builder),
                *final(builder),
                keccak_constraints(
                    old(builder).up@,
                    old(builder).down@,
                    COL_PREIMAGE as int,
                    COL_A as int,
                ),
            ),
    {
        eval_row(builder, COL_PREIMAGE, COL_A);
    }
}

impl<EF> Air for KeccakAir<EF> {
    open spec fn shape(&self) -> AirShape {
        AirShape {
            n_columns_f: NUM_KECCAK_COLS,
            n_columns_ef: 0,
            degree: 4,
            n_constraints: 3183,
            down_f: Seq::new(NUM_KECCAK_COLS as nat, |i: int| i as usize),
            down_ef: Seq::empty(),
        }
    }

    fn n_columns_f_air(&self) -> usize {
        NUM_KECCAK_COLS
    }

    fn n_columns_ef_air(&self) -> usize {
        0
    }

    fn degree(&self) -> usize {
        4
    }

    fn n_constraints(&self) -> usize {
        3183
    }

    /// Every column, so that the next row is indexed like the current one.
    fn down_column_indexes_f(&self) -> (r: Vec<usize>) {
        let mut r: Vec<usize> = Vec::new();
        let mut i: usize = 0;
        while i < NUM_KECCAK_COLS
            invariant
                i <= NUM_KECCAK_COLS,
                r@ =~= Seq::new(i as nat, |j: int| j as usize),
            decreases NUM_KECCAK_COLS - i,
        {
            r.push(i);
            i = i + 1;
        }
        r
    }

    fn down_column_indexes_ef(&self) -> (r: Vec<usize>) {
        Vec::new()
    }
}

/// The next-row values that the optimized AIR reads, in order.
#[derive(Debug)]
pub struct KeccakDownCols<T> {
    pub step_flags: [T; NUM_ROUNDS],
    pub preimage: [[[T; U64_LIMBS]; 5]; 5],
    pub a: [[[T; U64_LIMBS]; 5]; 5],
}

impl<T> KeccakDownCols<T> {
    /// The values in order.
    pub open spec fn row(self) -> Seq<T> {
        Seq::new(
            NUM_KECCAK_DOWN_COLS as nat,
            |i: int|
                if i < 24 {
                    self.step_flags@[i]
                } else if i < 124 {
                    limb_cell(self.preimage, i - 24)
                } else {
                    limb_cell(self.a, i - 124)
                },
        )
    }
}

impl<T: Copy> KeccakDownCols<T> {
    /// The registers of a flat row of next-row values.
    pub fn from_row(row: &[T]) -> (r: Self)
        requires
            row@.len() == NUM_KECCAK_DOWN_COLS,
        ensures
            r.row() == row@,
    {
        let r = KeccakDownCols {
            step_flags: read_array::<T, NUM_ROUNDS>(row, 0),
            preimage: read_limbs(row, 24),
            a: read_limbs(row, 124),
        };
        assert(r.row() =~= row@);
        r
    }
}

/// The column that next-row value `i` of the optimized AIR comes from.
pub open spec fn down_index(i: int) -> int {
    if i < 24 {
        i
    } else {
        i + 1
    }
}

/// The Keccak-f AIR that asks only for the next-row columns that its constraints
/// read, instead of shifting every column.
#[derive(Debug)]
pub struct KeccakAirOptimizedDown<EF> {
    _phantom: PhantomData<EF>,
}

impl<EF> Clone for KeccakAirOptimizedDown<EF> {
    fn clone(&self) -> (r: Self)
        ensures
            r == *self,
    {
        *self
    }
}

impl<EF> Copy for KeccakAirOptimizedDown<EF> {

}

impl<EF> Default for KeccakAirOptimizedDown<EF> {
    fn default() -> (r: Self)
        ensures
            r == Self::instance(),
    {
        Self::new()
    }
}

impl<EF> KeccakAirOptimizedDown<EF> {
    /// The only value of the type.
    pub closed spec fn instance() -> Self {
        KeccakAirOptimizedDown { _phantom: PhantomData }
    }

    pub fn new() -> (r: Self)
        ensures
            r == Self::instance(),
    {
        Self { _phantom: PhantomData }
    }

    /// The next-row columns, in the order of `KeccakDownCols`.
    pub fn down_indices() -> (r: Vec<usize>)
        ensures
            r@ == Seq::new(NUM_KECCAK_DOWN_COLS as nat, |i: int| down_index(i) as usize),
    {
        let map = make_col_map();
        let mut r: Vec<usize> = Vec::with_capacity(NUM_KECCAK_DOWN_COLS);
        let mut i: usize = 0;
        while i < NUM_ROUNDS
            invariant
                i <= 24,
                map.row() == Seq::new(NUM_KECCAK_COLS as nat, |j: int| j as usize),
                r@ =~= Seq::new(i as nat, |j: int| down_index(j) as usize),
            decreases 24 - i,
        {
            assert(map.row()[i as int] == i);
            r.push(map.step_flags[i]);
            i = i + 1;
        }
        let mut k: usize = 0;
        while k < 100
            invariant
                k <= 100,
                map.row() == Seq::new(NUM_KECCAK_COLS as nat, |j: int| j as usize),
                r@ =~= Seq::new((24 + k) as nat, |j: int| down_index(j) as usize),
            decreases 100 - k,
        {
            assert(map.row()[COL_PREIMAGE + k] == COL_PREIMAGE + k);
            r.push(map.preimage[k / 20][(k / 4) % 5][k % 4]);
            k = k + 1;
        }
        k = 0;
        while k < 100
            invariant
                k <= 100,
                map.row() == Seq::new(NUM_KECCAK_COLS as nat, |j: int| j as usize),
                r@ =~= Seq::new((124 + k) as nat, |j: int| down_index(j) as usize),
            decreases 100 - k,
        {
            assert(map.row()[COL_A + k] == COL_A + k);
            r.push(map.a[k / 20][(k / 4) % 5][k % 4]);
            k = k + 1;
        }
        r
    }

    /// Assert every constraint of a row, reading the next row in the order of
    /// `KeccakDownCols`.
    pub fn eval<T: Ring>(&self, builder: &mut RowBuilder<T>)
        requires
            old(builder).up@.len() >= NUM_KECCAK_COLS,
            old(builder).down@.len() == NUM_KECCAK_DOWN_COLS,
        ensures
            asserts(
                *old(builder),
                *final(builder),
                keccak_constraints(old(builder).up@, old(builder).down@, 24, 124),
            ),
    {
        eval_row(builder, 24, 124);
    }
}

impl<EF> Air for KeccakAirOptimizedDown<EF> {
    open spec fn shape(&self) -> AirShape {
        AirShape {
            n_columns_f: NUM_KECCAK_COLS,
            n_columns_ef: 0,
            degree: 4,
            n_constraints: 3183,
            down_f: Seq::new(NUM_KECCAK_DOWN_COLS as nat, |i: int| down_index(i) as usize),
            down_ef: Seq::empty(),
        }
    }

    fn n_columns_f_air(&self) -> usize {
        NUM_KECCAK_COLS
    }

    fn n_columns_ef_air(&self) -> usize {
        0
    }

    fn degree(&self) -> usize {
        4
    }

    fn n_constraints(&self) -> usize {
        3183
    }

    fn down_column_indexes_f(&self) -> (r: Vec<usize>) {
        KeccakAirOptimizedDown::<EF>::down_indices()
    }

    fn down_column_indexes_ef(&self) -> (r: Vec<usize>) {
        Vec::new()
    }
}

} // verus!
