//! The BLAKE3 table: one row per hash of a 64-byte block. Words that are added
//! stand in two limbs, words that are combined bitwise in thirty-two bits.

use crate::air::read_array;
use crate::bits::pack_of;
use crate::blake3::{
    first_state, schedule, FULL_ROUNDS, INPUT_LIMBS, INPUT_WORDS, OUTPUT_LIMBS, U32_LIMBS,
};
use crate::field::{bool_check_of, bool_elem, double_of, xor_of, RingModel};
use vstd::prelude::*;

verus! {

/// The values that hold one state: rows 0 and 2 as limbs, rows 1 and 3 as bits.
#[derive(Debug, Clone, Copy)]
pub struct Blake3State<T> {
    pub row0: [[T; U32_LIMBS]; 4],
    pub row1: [[T; 32]; 4],
    pub row2: [[T; U32_LIMBS]; 4],
    pub row3: [[T; 32]; 4],
}

/// The states that a round passes through.
#[derive(Debug, Clone, Copy)]
pub struct FullRound<T> {
    /// After the first half of G on the columns.
    pub state_prime: Blake3State<T>,
    /// After G on the columns.
    pub state_middle: Blake3State<T>,
    /// After the first half of G on the diagonals.
    pub state_middle_prime: Blake3State<T>,
    /// After G on the diagonals.
    pub state_output: Blake3State<T>,
}

/// The columns of one hash.
#[derive(Debug, Clone, Copy)]
pub struct Blake3Cols<T> {
    pub inputs: [[T; 32]; INPUT_WORDS],
    pub full_rounds: [FullRound<T>; FULL_ROUNDS],
    pub final_round_helpers: [[T; 32]; 4],
    pub outputs: [[[T; 32]; 4]; 2],
}

/// Number of values in a `Blake3State`.
pub const STATE_CELLS: usize = 272;

/// Number of values in a `FullRound`.
pub const ROUND_CELLS: usize = 1088;

/// Number of values in a `Blake3Cols`.
pub const CORE_CELLS: usize = 8512;

/// Where the parts of a `Blake3State` start.
pub const ROW1_AT: usize = 8;

pub const ROW2_AT: usize = 136;

pub const ROW3_AT: usize = 144;

/// Where the parts of a `Blake3Cols` start.
pub const ROUNDS_AT: usize = 512;

pub const HELPERS_AT: usize = 8128;

pub const OUTPUTS_AT: usize = 8256;

impl<T> Blake3State<T> {
    /// Value `k`, in the order of the fields.
    pub open spec fn cell(self, k: int) -> T {
        if k < ROW1_AT {
            self.row0@[k / 2]@[k % 2]
        } else if k < ROW2_AT {
            self.row1@[(k - ROW1_AT) / 32]@[(k - ROW1_AT) % 32]
        } else if k < ROW3_AT {
            self.row2@[(k - ROW2_AT) / 2]@[(k - ROW2_AT) % 2]
        } else {
            self.row3@[(k - ROW3_AT) / 32]@[(k - ROW3_AT) % 32]
        }
    }

    /// The values in order.
    pub open spec fn row(self) -> Seq<T> {
        Seq::new(STATE_CELLS as nat, |k: int| self.cell(k))
    }
}

impl<T> FullRound<T> {
    /// Value `k`, in the order of the fields.
    pub open spec fn cell(self, k: int) -> T {
        if k < STATE_CELLS {
            self.state_prime.cell(k)
        } else if k < 2 * STATE_CELLS {
            self.state_middle.cell(k - STATE_CELLS)
        } else if k < 3 * STATE_CELLS {
            self.state_middle_prime.cell(k - 2 * STATE_CELLS)
        } else {
            self.state_output.cell(k - 3 * STATE_CELLS)
        }
    }

    /// The values in order.
    pub open spec fn row(self) -> Seq<T> {
        Seq::new(ROUND_CELLS as nat, |k: int| self.cell(k))
    }
}

impl<T> Blake3Cols<T> {
    /// Value `k`, in the order of the fields.
    pub open spec fn cell(self, k: int) -> T {
        if k < ROUNDS_AT {
            self.inputs@[k / 32]@[k % 32]
        } else if k < HELPERS_AT {
            self.full_rounds@[(k - ROUNDS_AT) / 1088].cell((k - ROUNDS_AT) % 1088)
        } else if k < OUTPUTS_AT {
            self.final_round_helpers@[(k - HELPERS_AT) / 32]@[(k - HELPERS_AT) % 32]
        } else {
            self.outputs@[(k - OUTPUTS_AT) / 128]@[((k - OUTPUTS_AT) / 32) % 4]@[(k - OUTPUTS_AT)
                % 32]
        }
    }

    /// The values in order.
    pub open spec fn row(self) -> Seq<T> {
        Seq::new(CORE_CELLS as nat, |k: int| self.cell(k))
    }
}

/// The values from `at` on, as four groups of `N`.
fn read_grid<T: Copy, const N: usize>(row: &[T], at: usize) -> (r: [[T; N]; 4])
    requires
        0 < N <= 32,
        at + 4 * N <= row.len(),
    ensures
        forall|j: int| 0 <= j < N ==> #[trigger] r@[0]@[j] == row@[at + j],
        forall|j: int| 0 <= j < N ==> #[trigger] r@[1]@[j] == row@[at + N + j],
        forall|j: int| 0 <= j < N ==> #[trigger] r@[2]@[j] == row@[at + 2 * N + j],
        forall|j: int| 0 <= j < N ==> #[trigger] r@[3]@[j] == row@[at + 3 * N + j],
{
    [
        read_array::<T, N>(row, at),
        read_array::<T, N>(row, at + N),
        read_array::<T, N>(row, at + 2 * N),
        read_array::<T, N>(row, at + 3 * N),
    ]
}

impl<T: Copy> Blake3State<T> {
    /// The state that starts at `at`.
    pub fn read(row: &[T], at: usize) -> (r: Self)
        requires
            at + STATE_CELLS <= row.len(),
        ensures
            forall|k: int| 0 <= k < STATE_CELLS ==> #[trigger] r.cell(k) == row@[at + k],
    {
        let r = Blake3State {
            row0: read_grid::<T, U32_LIMBS>(row, at),
            row1: read_grid::<T, 32>(row, at + ROW1_AT),
            row2: read_grid::<T, U32_LIMBS>(row, at + ROW2_AT),
            row3: read_grid::<T, 32>(row, at + ROW3_AT),
        };
        assert forall|k: int| 0 <= k < STATE_CELLS implies #[trigger] r.cell(k) == row@[at + k] by {
            if k < ROW1_AT {
                assert(k / 2 == 0 || k / 2 == 1 || k / 2 == 2 || k / 2 == 3);
            } else if k < ROW2_AT {
                let i = (k - ROW1_AT) / 32;
                assert(i == 0 || i == 1 || i == 2 || i == 3);
            } else if k < ROW3_AT {
                let i = (k - ROW2_AT) / 2;
                assert(i == 0 || i == 1 || i == 2 || i == 3);
            } else {
                let i = (k - ROW3_AT) / 32;
                assert(i == 0 || i == 1 || i == 2 || i == 3);
            }
        }
        r
    }

    /// Value `k`.
    pub fn value(&self, k: usize) -> (r: T)
        requires
            k < STATE_CELLS,
        ensures
            r == self.cell(k as int),
    {
        if k < ROW1_AT {
            self.row0[k / 2][k % 2]
        } else if k < ROW2_AT {
            self.row1[(k - ROW1_AT) / 32][(k - ROW1_AT) % 32]
        } else if k < ROW3_AT {
            self.row2[(k - ROW2_AT) / 2][(k - ROW2_AT) % 2]
        } else {
            self.row3[(k - ROW3_AT) / 32][(k - ROW3_AT) % 32]
        }
    }
}

impl<T: Copy> FullRound<T> {
    /// The round that starts at `at`.
    pub fn read(row: &[T], at: usize) -> (r: Self)
        requires
            at + ROUND_CELLS <= row.len(),
        ensures
            forall|k: int| 0 <= k < ROUND_CELLS ==> #[trigger] r.cell(k) == row@[at + k],
    {
        FullRound {
            state_prime: Blake3State::read(row, at),
            state_middle: Blake3State::read(row, at + STATE_CELLS),
            state_middle_prime: Blake3State::read(row, at + 2 * STATE_CELLS),
            state_output: Blake3State::read(row, at + 3 * STATE_CELLS),
        }
    }

    /// Value `k`.
    pub fn value(&self, k: usize) -> (r: T)
        requires
            k < ROUND_CELLS,
        ensures
            r == self.cell(k as int),
    {
        if k < STATE_CELLS {
            self.state_prime.value(k)
        } else if k < 2 * STATE_CELLS {
            self.state_middle.value(k - STATE_CELLS)
        } else if k < 3 * STATE_CELLS {
            self.state_middle_prime.value(k - 2 * STATE_CELLS)
        } else {
            self.state_output.value(k - 3 * STATE_CELLS)
        }
    }
}

impl<T: Copy> Blake3Cols<T> {
    /// The columns that start at `at`.
    pub fn read(row: &[T], at: usize) -> (r: Self)
        requires
            at + CORE_CELLS <= row.len(),
        ensures
            r.row() == row@.subrange(at as int, at + CORE_CELLS),
    {
        let mut inputs = [read_array::<T, 32>(row, at); INPUT_WORDS];
        let mut w: usize = 1;
        while w < INPUT_WORDS
            invariant
                1 <= w <= 16,
                at + CORE_CELLS <= row.len(),
                forall|i: int, j: int|
                    0 <= i < w && 0 <= j < 32 ==> #[trigger] inputs@[i]@[j] == row@[at + 32 * i
                        + j],
            decreases 16 - w,
        {
            inputs[w] = read_array::<T, 32>(row, at + 32 * w);
            w = w + 1;
        }
        let mut full_rounds = [FullRound::read(row, at + ROUNDS_AT); FULL_ROUNDS];
        let mut n: usize = 1;
        while n < FULL_ROUNDS
            invariant
                1 <= n <= 7,
                at + CORE_CELLS <= row.len(),
                forall|i: int, k: int|
                    0 <= i < n && 0 <= k < ROUND_CELLS ==> #[trigger] full_rounds@[i].cell(k)
                        == row@[at + ROUNDS_AT + 1088 * i + k],
            decreases 7 - n,
        {
            full_rounds[n] = FullRound::read(row, at + ROUNDS_AT + ROUND_CELLS * n);
            n = n + 1;
        }
        let r = Blake3Cols {
            inputs,
            full_rounds,
            final_round_helpers: read_grid::<T, 32>(row, at + HELPERS_AT),
            outputs: [
                read_grid::<T, 32>(row, at + OUTPUTS_AT),
                read_grid::<T, 32>(row, at + OUTPUTS_AT + 128),
            ],
        };
        assert forall|k: int| 0 <= k < CORE_CELLS implies #[trigger] r.cell(k) == row@[at + k] by {
            if k < ROUNDS_AT {
                assert(r.inputs@[k / 32]@[k % 32] == row@[at + 32 * (k / 32) + k % 32]);
            } else if k < HELPERS_AT {
                let i = (k - ROUNDS_AT) / 1088;
                let j = (k - ROUNDS_AT) % 1088;
                assert(r.full_rounds@[i].cell(j) == row@[at + ROUNDS_AT + 1088 * i + j]);
            } else if k < OUTPUTS_AT {
                let i = (k - HELPERS_AT) / 32;
                assert(i == 0 || i == 1 || i == 2 || i == 3);
            } else {
                let h = (k - OUTPUTS_AT) / 128;
                let i = ((k - OUTPUTS_AT) / 32) % 4;
                assert(h == 0 || h == 1);
                assert(i == 0 || i == 1 || i == 2 || i == 3);
            }
        }
        assert(r.row() =~= row@.subrange(at as int, at + CORE_CELLS));
        r
    }

    /// Value `k`.
    pub fn value(&self, k: usize) -> (r: T)
        requires
            k < CORE_CELLS,
        ensures
            r == self.row()[k as int],
    {
        if k < ROUNDS_AT {
            self.inputs[k / 32][k % 32]
        } else if k < HELPERS_AT {
            self.full_rounds[(k - ROUNDS_AT) / 1088].value((k - ROUNDS_AT) % 1088)
        } else if k < OUTPUTS_AT {
            self.final_round_helpers[(k - HELPERS_AT) / 32][(k - HELPERS_AT) % 32]
        } else {
            self.outputs[(k - OUTPUTS_AT) / 128][((k - OUTPUTS_AT) / 32) % 4][(k - OUTPUTS_AT) % 32]
        }
    }
}

/// A value that must be zero where the multiplicity is one.
#[verifier::opaque]
pub open spec fn gate<T: RingModel>(g: T, x: T) -> T {
    T::prod_of(g, x)
}

/// `x` and `y` are equal where the multiplicity is one.
pub open spec fn eq_gate<T: RingModel>(g: T, x: T, y: T) -> T {
    gate(g, T::diff_of(x, y))
}

/// Every value is a bit.
pub open spec fn bits_claims<T: RingModel>(g: T, bits: Seq<T>) -> Seq<T> {
    Seq::new(bits.len(), |i: int| gate(g, bool_check_of(bits[i])))
}

/// The two limbs that thirty-two bits pack into.
pub open spec fn packed<T: RingModel>(bits: Seq<T>) -> Seq<T> {
    seq![pack_of(bits.subrange(0, 16)), pack_of(bits.subrange(16, 32))]
}

/// The limbs `x` are the limbs `y`.
pub open spec fn limbs_claims<T: RingModel>(g: T, x: Seq<T>, y: Seq<T>) -> Seq<T> {
    seq![eq_gate(g, x[0], y[0]), eq_gate(g, x[1], y[1])]
}

/// `low + 2^16 high`.
#[verifier::opaque]
pub open spec fn join_of<T: RingModel>(low: T, high: T) -> T {
    T::sum_of(low, T::prod_of(T::elem(0x1_0000), high))
}

/// `2^32` in the ring.
#[verifier::opaque]
pub open spec fn two_32<T: RingModel>() -> T {
    T::prod_of(T::elem(0x1_0000), T::elem(0x1_0000))
}

/// `x (x + n) (x + 2n)`: `x` is zero, `-n` or `-2n`.
#[verifier::opaque]
pub open spec fn carry3<T: RingModel>(x: T, n: T) -> T {
    T::prod_of(T::prod_of(x, T::sum_of(x, n)), T::sum_of(x, double_of(n)))
}

/// `x (x + n)`: `x` is zero or `-n`.
#[verifier::opaque]
pub open spec fn carry2<T: RingModel>(x: T, n: T) -> T {
    T::prod_of(x, T::sum_of(x, n))
}

/// `a = b + c + d` modulo `2^32`, on limbs.
pub open spec fn add3_claims<T: RingModel>(
    g: T,
    a: Seq<T>,
    b: Seq<T>,
    c: Seq<T>,
    d: Seq<T>,
) -> Seq<T> {
    let acc_16 = T::diff_of(T::diff_of(T::diff_of(a[0], b[0]), c[0]), d[0]);
    let acc_32 = T::diff_of(T::diff_of(T::diff_of(a[1], b[1]), c[1]), d[1]);
    seq![
        gate(g, carry3(join_of(acc_16, acc_32), two_32::<T>())),
        gate(g, carry3(acc_16, T::elem(0x1_0000))),
    ]
}

/// `a = b + c` modulo `2^32`, on limbs.
pub open spec fn add2_claims<T: RingModel>(g: T, a: Seq<T>, b: Seq<T>, c: Seq<T>) -> Seq<T> {
    let acc_16 = T::diff_of(T::diff_of(a[0], b[0]), c[0]);
    let acc_32 = T::diff_of(T::diff_of(a[1], b[1]), c[1]);
    seq![
        gate(g, carry2(join_of(acc_16, acc_32), two_32::<T>())),
        gate(g, carry2(acc_16, T::elem(0x1_0000))),
    ]
}

/// `b` combined with `c` rotated to the left.
pub open spec fn xored<T: RingModel>(b: Seq<T>, c: Seq<T>, shift: int) -> Seq<T> {
    Seq::new(32, |i: int| xor_of(b[i], c[(i + 32 - shift) % 32]))
}

/// The bits of `c` are bits, and `a` is `b XOR (c <<< shift)`.
pub open spec fn xor_shift_claims<T: RingModel>(
    g: T,
    a: Seq<T>,
    b: Seq<T>,
    c: Seq<T>,
    shift: int,
) -> Seq<T> {
    bits_claims(g, c) + limbs_claims(g, a, packed(xored(b, c, shift)))
}

/// Half of G takes `a, b, c, d` with message word `m` to `a2, b2, c2, d2`.
#[verifier::opaque]
pub open spec fn half_claims<T: RingModel>(
    g: T,
    from: (Seq<T>, Seq<T>, Seq<T>, Seq<T>),
    m: Seq<T>,
    to: (Seq<T>, Seq<T>, Seq<T>, Seq<T>),
    second: bool,
) -> Seq<T> {
    let (a, b, c, d) = from;
    let (a2, b2, c2, d2) = to;
    let (rot_1, rot_2) = if second {
        (8int, 7int)
    } else {
        (16int, 12int)
    };
    add3_claims(g, a2, a, packed(b), m) + xor_shift_claims(g, a2, d, d2, rot_1) + add2_claims(
        g,
        c2,
        c,
        packed(d2),
    ) + xor_shift_claims(g, c2, b, b2, rot_2)
}

/// The two limbs of word `i` of the row that starts at `at`.
pub open spec fn pair_at<T>(cells: Seq<T>, at: int, i: int) -> Seq<T> {
    cells.subrange(at + 2 * i, at + 2 * i + 2)
}

/// The bits of word `i` of the row that starts at `at`.
pub open spec fn bits_at<T>(cells: Seq<T>, at: int, i: int) -> Seq<T> {
    cells.subrange(at + 32 * i, at + 32 * i + 32)
}

/// Column `i` of a state.
pub open spec fn column_at<T>(st: Seq<T>, i: int) -> (Seq<T>, Seq<T>, Seq<T>, Seq<T>) {
    (
        pair_at(st, 0, i),
        bits_at(st, ROW1_AT as int, i),
        pair_at(st, ROW2_AT as int, i),
        bits_at(st, ROW3_AT as int, i),
    )
}

/// Diagonal `i` of a state.
pub open spec fn diagonal_at<T>(st: Seq<T>, i: int) -> (Seq<T>, Seq<T>, Seq<T>, Seq<T>) {
    (
        pair_at(st, 0, i),
        bits_at(st, ROW1_AT as int, (i + 1) % 4),
        pair_at(st, ROW2_AT as int, (i + 2) % 4),
        bits_at(st, ROW3_AT as int, (i + 3) % 4),
    )
}

/// State `k` of the four states of a round.
pub open spec fn round_state<T>(round: Seq<T>, k: int) -> Seq<T> {
    round.subrange(272 * k, 272 * k + 272)
}

/// G on column `i`.
#[verifier::opaque]
pub open spec fn column_claims<T: RingModel>(
    g: T,
    input: Seq<T>,
    round: Seq<T>,
    m: Seq<Seq<T>>,
    i: int,
) -> Seq<T> {
    half_claims(
        g,
        column_at(input, i),
        m[2 * i],
        column_at(round_state(round, 0), i),
        false,
    ) + half_claims(
        g,
        column_at(round_state(round, 0), i),
        m[2 * i + 1],
        column_at(round_state(round, 1), i),
        true,
    )
}

/// G on diagonal `i`.
#[verifier::opaque]
pub open spec fn diagonal_claims<T: RingModel>(
    g: T,
    round: Seq<T>,
    m: Seq<Seq<T>>,
    i: int,
) -> Seq<T> {
    half_claims(
        g,
        diagonal_at(round_state(round, 1), i),
        m[8 + 2 * i],
        diagonal_at(round_state(round, 2), i),
        false,
    ) + half_claims(
        g,
        diagonal_at(round_state(round, 2), i),
        m[9 + 2 * i],
        diagonal_at(round_state(round, 3), i),
        true,
    )
}

/// G on the first `n` columns.
pub open spec fn columns_claims<T: RingModel>(
    g: T,
    input: Seq<T>,
    round: Seq<T>,
    m: Seq<Seq<T>>,
    n: int,
) -> Seq<T>
    decreases n,
{
    if n <= 0 {
        Seq::empty()
    } else {
        columns_claims(g, input, round, m, n - 1) + column_claims(g, input, round, m, n - 1)
    }
}

/// G on the first `n` diagonals.
pub open spec fn diagonals_claims<T: RingModel>(
    g: T,
    round: Seq<T>,
    m: Seq<Seq<T>>,
    n: int,
) -> Seq<T>
    decreases n,
{
    if n <= 0 {
        Seq::empty()
    } else {
        diagonals_claims(g, round, m, n - 1) + diagonal_claims(g, round, m, n - 1)
    }
}

/// One round, from the state `input` with the message limbs `m`.
#[verifier::opaque]
pub open spec fn round_claims<T: RingModel>(
    g: T,
    input: Seq<T>,
    round: Seq<T>,
    m: Seq<Seq<T>>,
) -> Seq<T> {
    columns_claims(g, input, round, m, 4) + diagonals_claims(g, round, m, 4)
}

/// The limbs of a constant.
pub open spec fn const_limbs<T: RingModel>(w: u32) -> Seq<T> {
    seq![T::elem((w % 0x1_0000) as nat), T::elem((w / 0x1_0000) as nat)]
}

/// Bit `j` of a word.
pub open spec fn word_bit(w: u32, j: int) -> bool {
    (w >> (j as u32)) & 1 == 1
}

/// The bits of a constant.
pub open spec fn const_bits<T: RingModel>(w: u32) -> Seq<T> {
    Seq::new(32, |j: int| bool_elem::<T>(word_bit(w, j)))
}

/// The values that hold a state of known words.
#[verifier::opaque]
pub open spec fn state_cells<T: RingModel>(v: Seq<u32>) -> Seq<T> {
    Seq::new(
        STATE_CELLS as nat,
        |k: int|
            if k < ROW1_AT {
                const_limbs::<T>(v[k / 2])[k % 2]
            } else if k < ROW2_AT {
                const_bits::<T>(v[4 + (k - ROW1_AT) / 32])[(k - ROW1_AT) % 32]
            } else if k < ROW3_AT {
                const_limbs::<T>(v[8 + (k - ROW2_AT) / 2])[(k - ROW2_AT) % 2]
            } else {
                const_bits::<T>(v[12 + (k - ROW3_AT) / 32])[(k - ROW3_AT) % 32]
            },
    )
}

/// The limbs of the message words.
pub open spec fn message<T: RingModel>(core: Seq<T>) -> Seq<Seq<T>> {
    Seq::new(16, |w: int| packed(bits_at(core, 0, w)))
}

/// The values of round `n`.
pub open spec fn round_at<T>(core: Seq<T>, n: int) -> Seq<T> {
    core.subrange(ROUNDS_AT + 1088 * n, ROUNDS_AT + 1088 * n + 1088)
}

/// The state that round `n` starts from.
pub open spec fn state_before<T: RingModel>(core: Seq<T>, n: int) -> Seq<T> {
    if n <= 0 {
        state_cells::<T>(first_state())
    } else {
        round_state(round_at(core, n - 1), 3)
    }
}

/// The first `n` rounds.
pub open spec fn rounds_claims<T: RingModel>(g: T, core: Seq<T>, n: int) -> Seq<T>
    decreases n,
{
    if n <= 0 {
        Seq::empty()
    } else {
        rounds_claims(g, core, n - 1) + round_claims(
            g,
            state_before(core, n - 1),
            round_at(core, n - 1),
            schedule(message(core), n - 1),
        )
    }
}

/// The bits of row 2 of the last state agree with its limbs, for the first `n`
/// words.
pub open spec fn helpers_claims<T: RingModel>(g: T, core: Seq<T>, n: int) -> Seq<T>
    decreases n,
{
    if n <= 0 {
        Seq::empty()
    } else {
        helpers_claims(g, core, n - 1) + (bits_claims(g, bits_at(core, HELPERS_AT as int, n - 1))
            + limbs_claims(
            g,
            packed(bits_at(core, HELPERS_AT as int, n - 1)),
            pair_at(state_before(core, 7), ROW2_AT as int, n - 1),
        ))
    }
}

/// The first `n` words of the output are row 0 combined with row 2.
pub open spec fn first_outputs_claims<T: RingModel>(g: T, core: Seq<T>, n: int) -> Seq<T>
    decreases n,
{
    if n <= 0 {
        Seq::empty()
    } else {
        first_outputs_claims(g, core, n - 1) + (bits_claims(
            g,
            bits_at(core, OUTPUTS_AT as int, n - 1),
        ) + xor_shift_claims(
            g,
            pair_at(state_before(core, 7), 0, n - 1),
            bits_at(core, OUTPUTS_AT as int, n - 1),
            bits_at(core, HELPERS_AT as int, n - 1),
            0,
        ))
    }
}

/// Output word `4 + i` is row 1 combined with row 3, bit by bit.
pub open spec fn second_output_claims<T: RingModel>(g: T, core: Seq<T>, i: int) -> Seq<T> {
    Seq::new(
        32,
        |j: int|
            eq_gate(
                g,
                bits_at(core, OUTPUTS_AT as int, 4 + i)[j],
                xor_of(
                    bits_at(state_before(core, 7), ROW1_AT as int, i)[j],
                    bits_at(state_before(core, 7), ROW3_AT as int, i)[j],
                ),
            ),
    )
}

/// The first `n` words of the second half of the output.
pub open spec fn second_outputs_claims<T: RingModel>(g: T, core: Seq<T>, n: int) -> Seq<T>
    decreases n,
{
    if n <= 0 {
        Seq::empty()
    } else {
        second_outputs_claims(g, core, n - 1) + second_output_claims(g, core, n - 1)
    }
}

/// Everything between the input bits and the output bits.
pub open spec fn core_claims<T: RingModel>(g: T, core: Seq<T>) -> Seq<T> {
    rounds_claims(g, core, 7) + helpers_claims(g, core, 4) + first_outputs_claims(g, core, 4)
        + second_outputs_claims(g, core, 4)
}

/// A column of the table.
pub type ColIndex = usize;

pub const BLAKE3_COL_MULTIPLICITY: ColIndex = 0;

pub const BLAKE3_COL_NU_A: ColIndex = 1;

pub const BLAKE3_COL_NU_B: ColIndex = 2;

pub const BLAKE3_COL_NU_C: ColIndex = 3;

pub const BLAKE3_COL_INPUT_LIMBS: ColIndex = 4;

pub const BLAKE3_COL_OUTPUT_LIMBS: ColIndex = BLAKE3_COL_INPUT_LIMBS + INPUT_LIMBS;

pub const BLAKE3_COL_P3_START: ColIndex = BLAKE3_COL_OUTPUT_LIMBS + OUTPUT_LIMBS;

/// Number of columns of the table.
pub const TABLE_CELLS: usize = BLAKE3_COL_P3_START + CORE_CELLS;

/// Number of columns that hold the hash computation.
pub fn num_cols_blake3_core() -> (r: usize)
    ensures
        r == CORE_CELLS,
{
    CORE_CELLS
}

/// Number of columns of the table.
pub fn num_cols_blake3() -> (r: usize)
    ensures
        r == TABLE_CELLS,
{
    BLAKE3_COL_P3_START + num_cols_blake3_core()
}

/// The columns of a row that hold the hash computation.
pub open spec fn core_of<T>(flat: Seq<T>) -> Seq<T> {
    flat.subrange(BLAKE3_COL_P3_START as int, TABLE_CELLS as int)
}

/// The first `n` input words are bits, and agree with the input limbs.
pub open spec fn input_claims<T: RingModel>(flat: Seq<T>, n: int) -> Seq<T>
    decreases n,
{
    if n <= 0 {
        Seq::empty()
    } else {
        input_claims(flat, n - 1) + (bits_claims(flat[0], bits_at(core_of(flat), 0, n - 1))
            + limbs_claims(
            flat[0],
            pair_at(flat, BLAKE3_COL_INPUT_LIMBS as int, n - 1),
            packed(bits_at(core_of(flat), 0, n - 1)),
        ))
    }
}

/// The first `n` output words agree with the output limbs.
pub open spec fn output_claims<T: RingModel>(flat: Seq<T>, n: int) -> Seq<T>
    decreases n,
{
    if n <= 0 {
        Seq::empty()
    } else {
        output_claims(flat, n - 1) + limbs_claims(
            flat[0],
            pair_at(flat, BLAKE3_COL_OUTPUT_LIMBS as int, n - 1),
            packed(bits_at(core_of(flat), OUTPUTS_AT as int, n - 1)),
        )
    }
}

/// Everything that the table asserts of a row, in order.
pub open spec fn table_claims<T: RingModel>(flat: Seq<T>) -> Seq<T> {
    seq![bool_check_of(flat[0])] + input_claims(flat, 16) + core_claims(flat[0], core_of(flat))
        + output_claims(flat, 8)
}

} // verus!
