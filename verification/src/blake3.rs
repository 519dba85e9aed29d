//! The BLAKE3 compression function on one 64-byte block that is a whole input.

use vstd::prelude::*;

verus! {

pub const U32_LIMBS: usize = 2;

pub const INPUT_WORDS: usize = 16;

pub const INPUT_LIMBS: usize = INPUT_WORDS * U32_LIMBS;

pub const OUTPUT_WORDS: usize = 8;

pub const OUTPUT_LIMBS: usize = OUTPUT_WORDS * U32_LIMBS;

pub const FULL_ROUNDS: usize = 7;

/// The initialisation vector.
pub const IV: [u32; 8] = [
    0x6A09_E667,
    0xBB67_AE85,
    0x3C6E_F372,
    0xA54F_F53A,
    0x510E_527F,
    0x9B05_688C,
    0x1F83_D9AB,
    0x5BE0_CD19,
];

/// The number of input bytes in the block.
pub const BLOCK_LEN: u32 = 64;

pub const CHUNK_START: u32 = 1;

pub const CHUNK_END: u32 = 2;

pub const ROOT: u32 = 8;

/// The flags of a block that starts and ends its chunk and is the root.
pub const FLAGS: u32 = CHUNK_START | CHUNK_END | ROOT;

/// How the message words are rearranged between rounds.
pub const MSG_PERMUTATION: [usize; 16] = [2, 6, 3, 10, 7, 0, 4, 13, 1, 11, 12, 5, 9, 14, 15, 8];

/// Addition modulo `2^32`.
pub open spec fn add_words(x: u32, y: u32) -> u32 {
    ((x + y) % 0x1_0000_0000) as u32
}

/// Rotation to the right by `n` bits, `0 < n < 32`.
pub open spec fn rotr(x: u32, n: u32) -> u32 {
    (x >> n) | (x << ((32 - n) as u32))
}

/// Half of the mixing function G on `a, b, c, d` with message word `m`: the
/// first half rotates by 16 and 12 bits, the second one by 8 and 7.
#[verifier::opaque]
pub open spec fn half_round_of(a: u32, b: u32, c: u32, d: u32, m: u32, second: bool) -> (
    u32,
    u32,
    u32,
    u32,
) {
    let a2 = add_words(add_words(a, b), m);
    let d2 = rotr(
        d ^ a2,
        if second {
            8
        } else {
            16
        },
    );
    let c2 = add_words(c, d2);
    let b2 = rotr(
        b ^ c2,
        if second {
            7
        } else {
            12
        },
    );
    (a2, b2, c2, d2)
}

/// Component `k` of a quadruple.
pub open spec fn pick(q: (u32, u32, u32, u32), k: int) -> u32 {
    if k == 0 {
        q.0
    } else if k == 1 {
        q.1
    } else if k == 2 {
        q.2
    } else {
        q.3
    }
}

/// Half of G on column `i` of the state.
pub open spec fn column_half(v: Seq<u32>, m: Seq<u32>, i: int, second: bool) -> (
    u32,
    u32,
    u32,
    u32,
) {
    half_round_of(
        v[i],
        v[4 + i],
        v[8 + i],
        v[12 + i],
        m[2 * i + if second {
            1int
        } else {
            0
        }],
        second,
    )
}

/// Half of G on diagonal `i` of the state.
pub open spec fn diagonal_half(v: Seq<u32>, m: Seq<u32>, i: int, second: bool) -> (
    u32,
    u32,
    u32,
    u32,
) {
    half_round_of(
        v[i],
        v[4 + (i + 1) % 4],
        v[8 + (i + 2) % 4],
        v[12 + (i + 3) % 4],
        m[8 + 2 * i + if second {
            1int
        } else {
            0
        }],
        second,
    )
}

/// Half of G on the four columns at once. Word `k` of a state stands in row
/// `k / 4` and column `k % 4`.
pub open spec fn columns_half(v: Seq<u32>, m: Seq<u32>, second: bool) -> Seq<u32> {
    Seq::new(16, |k: int| pick(column_half(v, m, k % 4, second), k / 4))
}

/// The diagonal that word `k` of a state stands on.
pub open spec fn diagonal_of_word(k: int) -> int {
    (k % 4 + 4 - k / 4) % 4
}

/// Half of G on the four diagonals at once: row `r` meets diagonal `i` in
/// column `(i + r) % 4`.
pub open spec fn diagonals_half(v: Seq<u32>, m: Seq<u32>, second: bool) -> Seq<u32> {
    Seq::new(16, |k: int| pick(diagonal_half(v, m, diagonal_of_word(k), second), k / 4))
}

/// One round: G on the columns, then on the diagonals.
#[verifier::opaque]
pub open spec fn round_of(v: Seq<u32>, m: Seq<u32>) -> Seq<u32> {
    let columns = columns_half(columns_half(v, m, false), m, true);
    diagonals_half(diagonals_half(columns, m, false), m, true)
}

/// The message words, rearranged once.
pub open spec fn permuted<T>(m: Seq<T>) -> Seq<T> {
    Seq::new(16, |i: int| m[MSG_PERMUTATION@[i] as int])
}

/// The message words of round `n`.
pub open spec fn schedule<T>(m: Seq<T>, n: int) -> Seq<T>
    decreases n,
{
    if n <= 0 {
        m
    } else {
        permuted(schedule(m, n - 1))
    }
}

/// The state before the first round.
pub open spec fn first_state() -> Seq<u32> {
    seq![
        IV@[0],
        IV@[1],
        IV@[2],
        IV@[3],
        IV@[4],
        IV@[5],
        IV@[6],
        IV@[7],
        IV@[0],
        IV@[1],
        IV@[2],
        IV@[3],
        0,
        0,
        BLOCK_LEN,
        FLAGS,
    ]
}

/// The state after `n` rounds on message `m`.
pub open spec fn state_after(m: Seq<u32>, n: int) -> Seq<u32>
    decreases n,
{
    if n <= 0 {
        first_state()
    } else {
        round_of(state_after(m, n - 1), schedule(m, n - 1))
    }
}

/// The words that a state puts out: its first half combined with its second.
pub open spec fn output_of(v: Seq<u32>) -> Seq<u32> {
    Seq::new(8, |i: int| v[i] ^ v[8 + i])
}

/// The BLAKE3 hash of a message of sixteen little-endian words.
pub open spec fn blake3_of(m: Seq<u32>) -> Seq<u32> {
    output_of(state_after(m, 7))
}

/// Limb `k` of a sequence of words: the low half of a word comes first.
pub open spec fn word_limb(w: Seq<u32>, k: int) -> u16 {
    if k % 2 == 0 {
        (w[k / 2] % 0x1_0000) as u16
    } else {
        (w[k / 2] / 0x1_0000) as u16
    }
}

/// The words of a state, row by row.
pub open spec fn grid(state: [[u32; 4]; 4]) -> Seq<u32> {
    Seq::new(16, |k: int| state@[k / 4]@[k % 4])
}

/// The sum modulo `2^32`.
fn wrap_add(x: u32, y: u32) -> (r: u32)
    ensures
        r == add_words(x, y),
{
    x.wrapping_add(y)
}

/// Rotation to the right.
fn rotate_right(x: u32, n: u32) -> (r: u32)
    requires
        0 < n < 32,
    ensures
        r == rotr(x, n),
{
    (x >> n) | (x << (32 - n))
}

/// Half of the mixing function G.
pub fn verifiable_half_round(a: u32, b: u32, c: u32, d: u32, m: u32, flag: bool) -> (r: (
    u32,
    u32,
    u32,
    u32,
))
    ensures
        r == half_round_of(a, b, c, d, m, flag),
{
    reveal(half_round_of);
    let rot_1: u32 = if flag {
        8
    } else {
        16
    };
    let rot_2: u32 = if flag {
        7
    } else {
        12
    };
    let a2: u32 = wrap_add(wrap_add(a, b), m);
    let d2: u32 = rotate_right(d ^ a2, rot_1);
    let c2: u32 = wrap_add(c, d2);
    let b2: u32 = rotate_right(b ^ c2, rot_2);
    (a2, b2, c2, d2)
}

/// Rearrange the message words for the next round.
pub fn permute<T: Copy>(m: &mut [T; 16])
    ensures
        final(m)@ == permuted(old(m)@),
{
    let old_m = *m;
    let mut i: usize = 0;
    while i < 16
        invariant
            i <= 16,
            old_m@ == old(m)@,
            forall|j: int| 0 <= j < i ==> #[trigger] m@[j] == permuted(old_m@)[j],
            forall|j: int| i <= j < 16 ==> #[trigger] m@[j] == old_m@[j],
        decreases 16 - i,
    {
        assert(MSG_PERMUTATION@[i as int] < 16);
        m[i] = old_m[MSG_PERMUTATION[i]];
        i = i + 1;
    }
    assert(m@ =~= permuted(old_m@));
}

/// The state before the first round.
pub fn initial_state() -> (r: [[u32; 4]; 4])
    ensures
        grid(r) == first_state(),
{
    let r = [
        [IV[0], IV[1], IV[2], IV[3]],
        [IV[4], IV[5], IV[6], IV[7]],
        [IV[0], IV[1], IV[2], IV[3]],
        [0u32, 0u32, BLOCK_LEN, FLAGS],
    ];
    assert(grid(r) =~= first_state());
    r
}

/// The words that a state puts out.
pub fn first_output_words(state: &[[u32; 4]; 4]) -> (r: [u32; OUTPUT_WORDS])
    ensures
        r@ == output_of(grid(*state)),
{
    let r = [
        state[0][0] ^ state[2][0],
        state[0][1] ^ state[2][1],
        state[0][2] ^ state[2][2],
        state[0][3] ^ state[2][3],
        state[1][0] ^ state[3][0],
        state[1][1] ^ state[3][1],
        state[1][2] ^ state[3][2],
        state[1][3] ^ state[3][3],
    ];
    assert(r@ =~= output_of(grid(*state)));
    r
}

/// A state with half of G applied to column `i`.
pub open spec fn with_column(v: Seq<u32>, m: Seq<u32>, i: int, second: bool) -> Seq<u32> {
    Seq::new(
        16,
        |k: int|
            if k % 4 == i {
                pick(column_half(v, m, i, second), k / 4)
            } else {
                v[k]
            },
    )
}

/// A state with half of G applied to diagonal `i`.
pub open spec fn with_diagonal(v: Seq<u32>, m: Seq<u32>, i: int, second: bool) -> Seq<u32> {
    Seq::new(
        16,
        |k: int|
            if diagonal_of_word(k) == i {
                pick(diagonal_half(v, m, i, second), k / 4)
            } else {
                v[k]
            },
    )
}

/// Apply half of G to column `i`.
fn half_column(state: &mut [[u32; 4]; 4], m_vec: &[u32; INPUT_WORDS], i: usize, second: bool)
    requires
        i < 4,
    ensures
        grid(*final(state)) == with_column(grid(*old(state)), m_vec@, i as int, second),
{
    let m: u32 = if second {
        m_vec[2 * i + 1]
    } else {
        m_vec[2 * i]
    };
    let ghost v = grid(*state);
    assert(v[i as int] == state@[0]@[i as int]);
    assert(v[4 + i as int] == state@[1]@[i as int]);
    assert(v[8 + i as int] == state@[2]@[i as int]);
    assert(v[12 + i as int] == state@[3]@[i as int]);
    let (a, b, c, d) = verifiable_half_round(
        state[0][i],
        state[1][i],
        state[2][i],
        state[3][i],
        m,
        second,
    );
    state[0][i] = a;
    state[1][i] = b;
    state[2][i] = c;
    state[3][i] = d;
    assert(grid(*state) =~= with_column(v, m_vec@, i as int, second));
}

/// Apply half of G to diagonal `i`.
fn half_diagonal(state: &mut [[u32; 4]; 4], m_vec: &[u32; INPUT_WORDS], i: usize, second: bool)
    requires
        i < 4,
    ensures
        grid(*final(state)) == with_diagonal(grid(*old(state)), m_vec@, i as int, second),
{
    let m: u32 = if second {
        m_vec[9 + 2 * i]
    } else {
        m_vec[8 + 2 * i]
    };
    let ghost v = grid(*state);
    assert(v[i as int] == state@[0]@[i as int]);
    assert(v[4 + (i + 1) % 4] == state@[1]@[(i + 1) % 4]);
    assert(v[8 + (i + 2) % 4] == state@[2]@[(i + 2) % 4]);
    assert(v[12 + (i + 3) % 4] == state@[3]@[(i + 3) % 4]);
    let (a, b, c, d) = verifiable_half_round(
        state[0][i],
        state[1][(i + 1) % 4],
        state[2][(i + 2) % 4],
        state[3][(i + 3) % 4],
        m,
        second,
    );
    state[0][i] = a;
    state[1][(i + 1) % 4] = b;
    state[2][(i + 2) % 4] = c;
    state[3][(i + 3) % 4] = d;
    assert(grid(*state) =~= with_diagonal(v, m_vec@, i as int, second));
}

/// Apply half of G to every column.
pub fn half_columns(state: &mut [[u32; 4]; 4], m_vec: &[u32; INPUT_WORDS], second: bool)
    ensures
        grid(*final(state)) == columns_half(grid(*old(state)), m_vec@, second),
{
    let ghost v = grid(*state);
    let mut i: usize = 0;
    while i < 4
        invariant
            i <= 4,
            v == grid(*old(state)),
            forall|k: int|
                0 <= k < 16 ==> #[trigger] grid(*state)[k] == if k % 4 < i {
                    columns_half(v, m_vec@, second)[k]
                } else {
                    v[k]
                },
        decreases 4 - i,
    {
        half_column(state, m_vec, i, second);
        i = i + 1;
    }
    assert(grid(*state) =~= columns_half(v, m_vec@, second));
}

/// Apply half of G to every diagonal.
pub fn half_diagonals(state: &mut [[u32; 4]; 4], m_vec: &[u32; INPUT_WORDS], second: bool)
    ensures
        grid(*final(state)) == diagonals_half(grid(*old(state)), m_vec@, second),
{
    let ghost v = grid(*state);
    let mut i: usize = 0;
    while i < 4
        invariant
            i <= 4,
            v == grid(*old(state)),
            forall|k: int|
                0 <= k < 16 ==> #[trigger] grid(*state)[k] == if diagonal_of_word(k) < i {
                    diagonals_half(v, m_vec@, second)[k]
                } else {
                    v[k]
                },
        decreases 4 - i,
    {
        half_diagonal(state, m_vec, i, second);
        i = i + 1;
    }
    assert(grid(*state) =~= diagonals_half(v, m_vec@, second));
}

/// Both halves of G on diagonal `i` do what they do on the four diagonals at
/// once.
proof fn lemma_both_halves(v: Seq<u32>, w: Seq<u32>, m: Seq<u32>, i: int)
    requires
        0 <= i < 4,
        forall|k: int|
            0 <= k < 16 ==> #[trigger] w[k] == if diagonal_of_word(k) < i {
                diagonals_half(diagonals_half(v, m, false), m, true)[k]
            } else {
                v[k]
            },
    ensures
        ({
            let x = with_diagonal(with_diagonal(w, m, i, false), m, i, true);
            forall|k: int|
                0 <= k < 16 ==> #[trigger] x[k] == if diagonal_of_word(k) < i + 1 {
                    diagonals_half(diagonals_half(v, m, false), m, true)[k]
                } else {
                    v[k]
                }
        }),
{
    let (k1, k2, k3) = (4 + (i + 1) % 4, 8 + (i + 2) % 4, 12 + (i + 3) % 4);
    assert(diagonal_of_word(i) == i && diagonal_of_word(k1) == i && diagonal_of_word(k2) == i
        && diagonal_of_word(k3) == i);
    assert(i / 4 == 0 && k1 / 4 == 1 && k2 / 4 == 2 && k3 / 4 == 3);
    assert(diagonal_half(w, m, i, false) == diagonal_half(v, m, i, false));
    let first = diagonals_half(v, m, false);
    let y = with_diagonal(w, m, i, false);
    assert(y[i] == first[i] && y[k1] == first[k1] && y[k2] == first[k2] && y[k3] == first[k3]);
    assert(diagonal_half(y, m, i, true) == diagonal_half(first, m, i, true));
    let x = with_diagonal(y, m, i, true);
    assert forall|k: int| 0 <= k < 16 implies #[trigger] x[k] == if diagonal_of_word(k) < i + 1 {
        diagonals_half(first, m, true)[k]
    } else {
        v[k]
    } by {
        if diagonal_of_word(k) != i {
            assert(x[k] == w[k]);
        }
    }
}

/// One round.
pub fn round(state: &mut [[u32; 4]; 4], m_vec: &[u32; INPUT_WORDS])
    ensures
        grid(*final(state)) == round_of(grid(*old(state)), m_vec@),
{
    reveal(round_of);
    let ghost v = grid(*state);
    let ghost columns = columns_half(columns_half(v, m_vec@, false), m_vec@, true);
    let mut i: usize = 0;
    while i < 4
        invariant
            i <= 4,
            v == grid(*old(state)),
            columns == columns_half(columns_half(v, m_vec@, false), m_vec@, true),
            forall|k: int|
                0 <= k < 16 ==> #[trigger] grid(*state)[k] == if k % 4 < i {
                    columns[k]
                } else {
                    v[k]
                },
        decreases 4 - i,
    {
        half_column(state, m_vec, i, false);
        half_column(state, m_vec, i, true);
        i = i + 1;
    }
    assert(grid(*state) =~= columns);
    let ghost diagonals = diagonals_half(
        diagonals_half(columns, m_vec@, false),
        m_vec@,
        true,
    );
    i = 0;
    while i < 4
        invariant
            i <= 4,
            diagonals == diagonals_half(
                diagonals_half(columns, m_vec@, false),
                m_vec@,
                true,
            ),
            forall|k: int|
                0 <= k < 16 ==> #[trigger] grid(*state)[k] == if diagonal_of_word(k) < i {
                    diagonals[k]
                } else {
                    columns[k]
                },
        decreases 4 - i,
    {
        proof {
            lemma_both_halves(columns, grid(*state), m_vec@, i as int);
        }
        half_diagonal(state, m_vec, i, false);
        half_diagonal(state, m_vec, i, true);
        i = i + 1;
    }
    assert(grid(*state) =~= diagonals);
}

/// Seven rounds on the message, and the words that they put out.
pub fn compress(input: [u32; INPUT_WORDS]) -> (r: [u32; OUTPUT_WORDS])
    ensures
        r@ == blake3_of(input@),
{
    let mut m_vec = input;
    let mut state = initial_state();
    let mut n: usize = 0;
    while n < FULL_ROUNDS
        invariant
            n <= 7,
            m_vec@ == schedule(input@, n as int),
            grid(state) == state_after(input@, n as int),
        decreases 7 - n,
    {
        round(&mut state, &m_vec);
        permute(&mut m_vec);
        n = n + 1;
    }
    first_output_words(&state)
}

/// The hash of a block of sixteen words, as eight words.
pub fn blake3_hash_64_words(input_words: [u32; INPUT_WORDS]) -> (r: [u32; OUTPUT_WORDS])
    ensures
        r@ == blake3_of(input_words@),
{
    compress(input_words)
}

/// The hash of a block of sixteen words, as sixteen limbs.
pub fn blake3_hash_64_u16(input_words: [u32; INPUT_WORDS]) -> (r: [u16; OUTPUT_LIMBS])
    ensures
        r@ == Seq::new(16, |k: int| word_limb(blake3_of(input_words@), k)),
{
    let output_words = blake3_hash_64_words(input_words);
    let mut limbs = [0u16; OUTPUT_LIMBS];
    let mut i: usize = 0;
    while i < OUTPUT_WORDS
        invariant
            i <= 8,
            forall|k: int| 0 <= k < 2 * i ==> #[trigger] limbs@[k] == word_limb(output_words@, k),
        decreases 8 - i,
    {
        let word: u32 = output_words[i];
        limbs[2 * i] = low_limb(word);
        limbs[2 * i + 1] = high_limb(word);
        i = i + 1;
    }
    assert(limbs@ =~= Seq::new(16, |k: int| word_limb(blake3_of(input_words@), k)));
    limbs
}

/// The low half of a word.
pub fn low_limb(word: u32) -> (r: u16)
    ensures
        r == word % 0x1_0000,
{
    assert(word as u16 == word % 0x1_0000) by (bit_vector);
    word as u16
}

/// The high half of a word.
pub fn high_limb(word: u32) -> (r: u16)
    ensures
        r == word / 0x1_0000,
{
    assert((word >> 16) as u16 == word / 0x1_0000) by (bit_vector);
    (word >> 16) as u16
}

} // verus!
