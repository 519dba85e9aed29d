use air_snark::air::{Air, RowBuilder};
use air_snark::field::{Felt, Ring, KOALA_BEAR_PRIME};
use air_snark::keccak_air::{
    input_limb, make_col_map, output_limb, rc_value_bit, KeccakAir, KeccakAirOptimizedDown,
    KeccakCols, KeccakDownCols, NUM_KECCAK_COLS, NUM_KECCAK_DOWN_COLS, NUM_ROUNDS, R, RATE_LIMBS,
    RC, U64_LIMBS,
};
use air_snark::snark::{AirSnarkConfig, AirSnarkTraceLayout};
use air_snark::snark_run::{
    prove_single_air_with_whir, verify_single_air_with_whir, Reply, Segment, Stage,
};
use air_snark::snark_setup::check_prover_inputs;
use air_snark::whir::{FoldingFactor, SecurityAssumption, WhirConfigBuilder};
use rand::{rngs::StdRng, Rng, SeedableRng};

fn bits(x: u64) -> [Felt; 64] {
    core::array::from_fn(|i| Felt::from_bool(((x >> i) & 1) == 1))
}

fn limbs(x: u64) -> [Felt; U64_LIMBS] {
    core::array::from_fn(|i| Felt::from_u16(((x >> (16 * i)) & 0xFFFF) as u16))
}

fn blank_row() -> KeccakCols<Felt> {
    KeccakCols::from_row(&vec![Felt::zero(); NUM_KECCAK_COLS])
}

/// Fill a row with round `round` on a state of lanes `state[x][y]`, and apply the
/// round to the state.
fn fill_round(row: &mut KeccakCols<Felt>, round: usize, state: &mut [[u64; 5]; 5]) {
    row.step_flags[round] = Felt::one();
    let c: [u64; 5] = state.map(|lanes| lanes.iter().fold(0, |acc, lane| acc ^ lane));
    let c_prime: [u64; 5] =
        core::array::from_fn(|x| c[x] ^ c[(x + 4) % 5] ^ c[(x + 1) % 5].rotate_left(1));
    for x in 0..5 {
        row.c[x] = bits(c[x]);
        row.c_prime[x] = bits(c_prime[x]);
    }
    let before = *state;
    for x in 0..5 {
        for y in 0..5 {
            state[x][y] = before[x][y] ^ c[x] ^ c_prime[x];
            row.a_prime[y][x] = bits(state[x][y]);
        }
    }
    let mixed = *state;
    let b: [[u64; 5]; 5] = core::array::from_fn(|i| {
        core::array::from_fn(|j| {
            let k = (i + 3 * j) % 5;
            mixed[k][i].rotate_left(R[k][i] as u32)
        })
    });
    for x in 0..5 {
        for y in 0..5 {
            state[x][y] = b[x][y] ^ (!b[(x + 1) % 5][y] & b[(x + 2) % 5][y]);
            row.a_prime_prime[y][x] = limbs(state[x][y]);
        }
    }
    row.a_prime_prime_0_0_bits = bits(state[0][0]);
    state[0][0] ^= RC[round];
    row.a_prime_prime_prime_0_0_limbs = limbs(state[0][0]);
}

/// The rows of one permutation, and its result.
fn permutation(input: [[u64; 5]; 5]) -> (Vec<KeccakCols<Felt>>, [[u64; 5]; 5]) {
    let mut state = input;
    let mut rows = Vec::new();
    for round in 0..NUM_ROUNDS {
        let mut row = blank_row();
        for x in 0..5 {
            for y in 0..5 {
                row.preimage[y][x] = limbs(input[x][y]);
                row.a[y][x] = limbs(state[x][y]);
            }
        }
        fill_round(&mut row, round, &mut state);
        rows.push(row);
    }
    rows[NUM_ROUNDS - 1].export = Felt::one();
    (rows, state)
}

fn flat(row: &KeccakCols<Felt>) -> Vec<Felt> {
    let mut r = vec![Felt::zero(); NUM_KECCAK_COLS];
    row.write_row(&mut r);
    r
}

fn some_state(seed: u64) -> [[u64; 5]; 5] {
    let mut s = seed;
    core::array::from_fn(|_| {
        core::array::from_fn(|_| {
            s ^= s << 13;
            s ^= s >> 7;
            s ^= s << 17;
            s
        })
    })
}

/// Two permutations in a row, and one row more.
fn trace() -> Vec<Vec<Felt>> {
    let mut rows: Vec<Vec<Felt>> = Vec::new();
    for seed in [1u64, 77, 4242] {
        rows.extend(permutation(some_state(seed)).0.iter().map(flat));
    }
    rows.truncate(2 * NUM_ROUNDS + 1);
    rows
}

fn eval_full(up: &[Felt], down: &[Felt]) -> Vec<Felt> {
    let mut builder = RowBuilder::new(up.to_vec(), down.to_vec());
    KeccakAir::<Felt>::new().eval(&mut builder);
    assert_eq!((builder.up_f().as_slice(), builder.down_f().as_slice()), (up, down));
    builder.asserted
}

fn eval_optimized(up: &[Felt], next: &[Felt]) -> Vec<Felt> {
    let down: Vec<Felt> =
        KeccakAirOptimizedDown::<Felt>::down_indices().iter().map(|&c| next[c]).collect();
    let mut builder = RowBuilder::new(up.to_vec(), down);
    KeccakAirOptimizedDown::<Felt>::new().eval(&mut builder);
    builder.asserted
}

#[test]
fn rate_limbs_have_columns() {
    assert_eq!(input_limb(0), 25);
    assert_eq!(input_limb(RATE_LIMBS - 1), 92);
    assert_eq!(output_limb(0), 2629);
    assert_eq!(output_limb(3), 2632);
    assert_eq!(output_limb(4), 2469);
    assert_eq!(output_limb(67), 2532);
}

#[test]
fn column_map_counts_the_columns() {
    let map = make_col_map();
    assert_eq!(map.step_flags[23], 23);
    assert_eq!(map.export, 24);
    assert_eq!(map.a[0][0][0], 125);
    assert_eq!(map.c[4][63], 544);
    assert_eq!(map.a_prime[4][4][63], 2464);
    assert_eq!(map.a_prime_prime_prime_0_0_limbs[3], NUM_KECCAK_COLS - 1);
}

#[test]
fn round_constants_are_read_bit_by_bit() {
    assert_eq!(rc_value_bit(0, 0), 1);
    assert_eq!(rc_value_bit(0, 1), 0);
    assert_eq!(rc_value_bit(1, 15), 1);
    assert_eq!(rc_value_bit(2, 63), 1);
}

#[test]
fn rows_and_columns_are_inverse() {
    let row: Vec<Felt> = (0..NUM_KECCAK_COLS).map(Felt::from_usize).collect();
    let cols = KeccakCols::from_row(&row);
    assert_eq!(flat(&cols), row);
    assert_eq!(cols.column(2464).as_canonical_u32(), 2464);
    let down: Vec<Felt> = (0..NUM_KECCAK_DOWN_COLS).map(Felt::from_usize).collect();
    let down_cols = KeccakDownCols::from_row(&down);
    assert_eq!(down_cols.step_flags[23].as_canonical_u32(), 23);
    assert_eq!(down_cols.preimage[0][0][0].as_canonical_u32(), 24);
    assert_eq!(down_cols.a[4][4][3].as_canonical_u32(), 223);
}

#[test]
fn b_is_rotated_a_prime() {
    let (rows, _) = permutation(some_state(5));
    // B[x, y] takes lane A'[(x + 3y) mod 5, x] rotated by its offset.
    assert_eq!(rows[0].b(0, 0, 7), rows[0].a_prime[0][0][7]);
    assert_eq!(rows[0].b(1, 0, 0), rows[0].a_prime[1][1][64 - 44]);
}

#[test]
fn output_of_a_row_takes_the_first_lane_from_iota() {
    let (rows, _) = permutation(some_state(6));
    assert_eq!(rows[3].a_prime_prime_prime(0, 0, 2), rows[3].a_prime_prime_prime_0_0_limbs[2]);
    assert_eq!(rows[3].a_prime_prime_prime(2, 1, 2), rows[3].a_prime_prime[2][1][2]);
    assert_eq!(rows[4].a[2][1][2], rows[3].a_prime_prime_prime(2, 1, 2));
}

#[test]
fn zero_state_has_the_known_image() {
    let (rows, image) = permutation([[0; 5]; 5]);
    assert_eq!(image[0][0], 0xF125_8F79_40E1_DDE7);
    let last = flat(&rows[NUM_ROUNDS - 1]);
    assert_eq!(last[output_limb(0)].as_canonical_u32(), 0xDDE7);
    assert_eq!(last[output_limb(3)].as_canonical_u32(), 0xF125);
    assert_eq!(last[input_limb(0)].as_canonical_u32(), 0);
}

#[test]
fn keccak_trace_satisfies_the_air() {
    let rows = trace();
    let air = KeccakAir::<Felt>::new();
    for i in 0..2 * NUM_ROUNDS {
        let asserted = eval_full(&rows[i], &rows[i + 1]);
        assert_eq!(asserted.len(), air.n_constraints());
        assert!(asserted.iter().all(|x| x.as_canonical_u32() == 0));
    }
}

#[test]
fn optimized_air_asserts_the_same() {
    let rows = trace();
    for i in 0..2 * NUM_ROUNDS {
        assert_eq!(eval_optimized(&rows[i], &rows[i + 1]), eval_full(&rows[i], &rows[i + 1]));
    }
    // Also where the constraints do not hold.
    assert_eq!(eval_optimized(&rows[5], &rows[3]), eval_full(&rows[5], &rows[3]));
}

#[test]
fn tampered_rows_are_caught() {
    let rows = trace();
    for c in [0usize, 1, 24, 25, 125, 224, 225, 545, 865, 2464, 2465, 2529, 2629, 2632] {
        let mut up = rows[0].clone();
        up[c] = up[c].plus(&Felt::one());
        let asserted = eval_full(&up, &rows[1]);
        assert!(asserted.iter().any(|x| x.as_canonical_u32() != 0), "column {}", c);
    }
    // The next row does not follow from this one.
    assert!(eval_full(&rows[0], &rows[2]).iter().any(|x| x.as_canonical_u32() != 0));
}

#[test]
fn export_is_allowed_on_the_last_round_only() {
    let (mut rows, _) = permutation(some_state(9));
    rows[4].export = Felt::one();
    let zero = |i: usize, rows: &Vec<KeccakCols<Felt>>| {
        eval_full(&flat(&rows[i]), &flat(&rows[(i + 1) % 24])).iter().all(|x| x.as_canonical_u32() == 0)
    };
    assert!(!zero(4, &rows));
    assert!(zero(23, &rows));
    rows[23].export = Felt::two();
    assert!(!zero(23, &rows));
}

#[test]
fn airs_declare_their_shape() {
    let full = KeccakAir::<Felt>::new();
    assert_eq!(full.n_columns_f_air(), 2633);
    assert_eq!(full.n_columns_ef_air(), 0);
    assert_eq!(full.degree(), 4);
    assert_eq!(full.n_constraints(), 3183);
    assert_eq!(full.down_column_indexes_f(), (0..2633).collect::<Vec<_>>());
    assert!(full.down_column_indexes_ef().is_empty());
    let optimized = KeccakAirOptimizedDown::<Felt>::new();
    let down = optimized.down_column_indexes_f();
    assert_eq!(down.len(), NUM_KECCAK_DOWN_COLS);
    assert_eq!((down[0], down[23], down[24], down[124], down[223]), (0, 23, 25, 125, 224));
    assert_eq!(optimized.degree(), 4);
    assert_eq!(optimized.n_columns_f_air(), 2633);
    assert_eq!(optimized.n_columns_ef_air(), 0);
    assert_eq!(optimized.n_constraints(), 3183);
    assert!(optimized.down_column_indexes_ef().is_empty());
}

#[test]
fn field_operations_are_modular() {
    let p = KOALA_BEAR_PRIME;
    let x = Felt::new(p - 1);
    let five = Felt::new(5);
    assert_eq!(Felt::new(p + 3).as_canonical_u32(), 3);
    assert_eq!(x.plus(&five).as_canonical_u32(), 4);
    assert_eq!(Felt::new(3).minus(&five).as_canonical_u32(), p - 2);
    assert_eq!(x.times(&five).as_canonical_u32(), p - 5);
    assert_eq!(x.double().as_canonical_u32(), p - 2);
    assert_eq!(x.square().as_canonical_u32(), 1);
    assert_eq!(Felt::two().as_canonical_u32(), 2);
    assert_eq!(Felt::from_bool(true).as_canonical_u32(), 1);
    assert_eq!(Felt::from_u16(0xFFFF).as_canonical_u32(), 65535);
    assert_eq!(Felt::from_u32(u32::MAX).as_canonical_u32(), u32::MAX % p);
    assert_eq!(Felt::from_usize(1 << 40).as_canonical_u32(), ((1u64 << 40) % p as u64) as u32);
    assert_eq!(five.dup().to_usize(), 5);
    assert_eq!(five, Felt::new(p + 5));
    assert_ne!(five, x);
}

#[test]
fn boolean_polynomials_agree_with_bits() {
    let b = [Felt::zero(), Felt::one()];
    for i in 0..2usize {
        for j in 0..2usize {
            assert_eq!(b[i].xor(&b[j]), b[i ^ j]);
            assert_eq!(b[i].andn(&b[j]), b[(1 - i) & j]);
            for k in 0..2usize {
                assert_eq!(b[i].xor3(&b[j], &b[k]), b[i ^ j ^ k]);
            }
        }
        assert_eq!(b[i].bool_check(), Felt::zero());
    }
    // Off the bits, the polynomials themselves.
    let (three, four) = (Felt::new(3), Felt::new(4));
    assert_eq!(three.bool_check().as_canonical_u32(), 6);
    assert_eq!(three.xor(&four).as_canonical_u32(), KOALA_BEAR_PRIME + 7 - 24);
    assert_eq!(three.andn(&four).as_canonical_u32(), KOALA_BEAR_PRIME - 8);
    assert_eq!(
        three.xor3(&four, &Felt::two()),
        three.xor(&four).xor(&Felt::two()),
    );
}

#[test]
fn b_takes_every_register_of_a_prime_once() {
    let row: Vec<Felt> = (0..NUM_KECCAK_COLS).map(Felt::from_usize).collect();
    let cols = KeccakCols::from_row(&row);
    let mut seen = vec![0usize; NUM_KECCAK_COLS];
    for x in 0..5 {
        for y in 0..5 {
            for z in 0..64 {
                seen[cols.b(x, y, z).to_usize()] += 1;
            }
        }
    }
    let map = make_col_map();
    let (first, last) = (map.a_prime[0][0][0], map.a_prime[4][4][63]);
    for (c, n) in seen.iter().enumerate() {
        assert_eq!(*n, usize::from((first..=last).contains(&c)), "column {}", c);
    }
}

#[test]
fn columns_that_are_asked_for_are_read() {
    let zeros = vec![Felt::zero(); NUM_KECCAK_COLS];
    let asserted = eval_full(&zeros, &zeros);
    let asked = KeccakAirOptimizedDown::<Felt>::down_indices();
    for c in (0..260).chain((260..NUM_KECCAK_COLS).step_by(97)) {
        let mut next = zeros.clone();
        next[c] = Felt::one();
        assert_eq!(eval_full(&zeros, &next) != asserted, asked.contains(&c), "column {}", c);
    }
}

#[test]
fn preimage_of_the_last_row_is_the_first_input() {
    let input = some_state(11);
    let (rows, image) = permutation(input);
    let last = &rows[NUM_ROUNDS - 1];
    assert_eq!(last.step_flags[NUM_ROUNDS - 1], Felt::one());
    assert_eq!(last.preimage, rows[0].a);
    for x in 0..5 {
        for y in 0..5 {
            for limb in 0..U64_LIMBS {
                assert_eq!(last.a_prime_prime_prime(y, x, limb), limbs(image[x][y])[limb]);
            }
        }
    }
    // Another preimage on the first row is not carried there.
    let mut first = flat(&rows[0]);
    first[25] = first[25].plus(&Felt::one());
    assert!(eval_full(&first, &flat(&rows[1])).iter().any(|x| x.as_canonical_u32() != 0));
}

/// Rows of full permutations of random states, as many as asked for.
fn generate_trace(n_rows_plus_one: usize) -> Vec<Vec<Felt>> {
    let num_perms = n_rows_plus_one.div_ceil(NUM_ROUNDS);
    let mut rng = StdRng::seed_from_u64(1);
    let inputs: Vec<[[u64; 5]; 5]> = (0..num_perms)
        .map(|_| {
            let mut a = [[0u64; 5]; 5];
            for i in 0..25 {
                a[i / 5][i % 5] = rng.random();
            }
            a
        })
        .collect();
    let mut rows: Vec<Vec<Felt>> = Vec::new();
    for input in inputs {
        rows.extend(permutation(input).0.iter().map(flat));
    }
    rows.truncate(n_rows_plus_one);
    rows
}

fn transpose(rows: &[Vec<Felt>], n_rows: usize) -> Vec<Vec<Felt>> {
    (0..NUM_KECCAK_COLS).map(|c| rows[..n_rows].iter().map(|row| row[c]).collect()).collect()
}

#[test]
fn test_air_keccak_prove_verify() {
    let log_n_rows = 8;
    let n_rows = 1usize << log_n_rows;
    let rows = generate_trace(n_rows + 1);
    let columns_f = transpose(&rows, n_rows);
    let last_row_shifted_f: Vec<Felt> = (0..NUM_KECCAK_COLS).map(|c| rows[n_rows][c]).collect();
    let air = KeccakAir::<Felt>::new();
    let layout = AirSnarkTraceLayout::all_committed(log_n_rows, NUM_KECCAK_COLS);
    assert_eq!(
        check_prover_inputs(&air, &layout, &columns_f, 0, &last_row_shifted_f, 0),
        Ok(log_n_rows)
    );
    // The row after the last one is given by its shifted values.
    for r in 0..n_rows {
        let down = if r + 1 < n_rows { &rows[r + 1] } else { &last_row_shifted_f };
        let asserted = eval_full(&rows[r], down);
        assert_eq!(asserted.len(), air.n_constraints());
        assert!(asserted.iter().all(|x| x.as_canonical_u32() == 0), "row {}", r);
    }
}

#[test]
fn test_air_keccak_prove_verify_optimized_down() {
    let log_n_rows = 8;
    let n_rows = 1usize << log_n_rows;
    let rows = generate_trace(n_rows + 1);
    let columns_f = transpose(&rows, n_rows);
    let air = KeccakAirOptimizedDown::<Felt>::new();
    let down_idxs = KeccakAirOptimizedDown::<Felt>::down_indices();
    let last_row_shifted_f: Vec<Felt> = down_idxs.iter().map(|&c| rows[n_rows][c]).collect();
    let layout = AirSnarkTraceLayout::all_committed(log_n_rows, NUM_KECCAK_COLS);
    assert_eq!(
        check_prover_inputs(&air, &layout, &columns_f, 0, &last_row_shifted_f, 0),
        Ok(log_n_rows)
    );
    for r in 0..n_rows {
        let down: Vec<Felt> = if r + 1 < n_rows {
            down_idxs.iter().map(|&c| rows[r + 1][c]).collect()
        } else {
            last_row_shifted_f.clone()
        };
        let mut builder = RowBuilder::new(rows[r].clone(), down);
        air.eval(&mut builder);
        assert_eq!(builder.asserted.len(), air.n_constraints());
        assert!(builder.asserted.iter().all(|x| x.as_canonical_u32() == 0), "row {}", r);
    }
}

#[test]
fn test_keccak_air_snark_with_whir() {
    let log_n_rows = 10;
    let n_rows = 1usize << log_n_rows;
    let rows = generate_trace(n_rows + 1);
    let columns_f = transpose(&rows, n_rows);
    let air = KeccakAirOptimizedDown::<Felt>::new();
    let down_idxs = KeccakAirOptimizedDown::<Felt>::down_indices();
    let last_row_shifted_f: Vec<Felt> = down_idxs.iter().map(|&c| rows[n_rows][c]).collect();
    for r in 0..n_rows {
        assert!(
            eval_optimized(&rows[r], &rows[r + 1]).iter().all(|x| x.as_canonical_u32() == 0),
            "row {}",
            r
        );
    }
    let whir = WhirConfigBuilder {
        folding_factor: FoldingFactor::new(7, 4),
        soundness_type: SecurityAssumption::CapacityBound,
        pow_bits: 16,
        max_num_variables_to_send_coeffs: 6,
        rs_domain_initial_reduction_factor: 5,
        security_level: 128,
        starting_log_inv_rate: 1,
    };
    let config = AirSnarkConfig {
        univariate_skips: 3,
        log_smallest_decomposition_chunk: 12,
        security_bits: 128,
        whir_config_builder: whir,
    };
    let layout = AirSnarkTraceLayout::all_committed(log_n_rows, NUM_KECCAK_COLS);
    assert_eq!(
        check_prover_inputs(&air, &layout, &columns_f, 0, &last_row_shifted_f, 0),
        Ok(log_n_rows)
    );
    let field_bits = 155;
    let mut prover = prove_single_air_with_whir(
        &air,
        field_bits,
        &config,
        &layout,
        &columns_f,
        0,
        &last_row_shifted_f,
        0,
    );
    let mut verifier = verify_single_air_with_whir::<_, u8>(&air, field_bits, &config).unwrap();
    let mut segments = Vec::new();
    while prover.segment() != Segment::End {
        segments.push(prover.segment());
        assert_eq!(verifier.segment(), prover.segment());
        let reply: Reply<u8> = match prover.segment() {
            Segment::Rows | Segment::Shifted { .. } => Reply::Scalars(prover.scalars()),
            _ => Reply::Read,
        };
        prover = prover.advance();
        verifier = verifier.step(&air, &layout, reply).unwrap();
    }
    assert_eq!(verifier.stage, Stage::Done);
    assert_eq!(verifier.last_row_shifted_f, last_row_shifted_f);
    assert_eq!(
        segments,
        vec![
            Segment::Rows,
            Segment::Shifted { n: NUM_KECCAK_DOWN_COLS },
            Segment::Grinding { bits: 0 },
            Segment::Commitment { whir, log_smallest_decomposition_chunk: 12 },
            Segment::Constraints { univariate_skips: 3, log_n_rows: 10 },
            Segment::Statements { log_smallest_decomposition_chunk: 12 },
            Segment::Openings { whir },
        ]
    );
}
