use air_snark::air::TableBuilder;
use air_snark::blake3::{blake3_hash_64_u16, compress, permute, INPUT_WORDS, OUTPUT_LIMBS};
use air_snark::blake3_air::{
    num_cols_blake3, num_cols_blake3_core, Blake3Cols, BLAKE3_COL_INPUT_LIMBS,
    BLAKE3_COL_MULTIPLICITY, BLAKE3_COL_NU_A, BLAKE3_COL_OUTPUT_LIMBS, BLAKE3_COL_P3_START,
};
use air_snark::blake3_eval::eval_blake3;
use air_snark::blake3_execution::{Blake3Execution, MemoryReply, MemoryRequest, Stage};
use air_snark::blake3_table::{
    Blake3Precompile, BusData, BusDirection, BusMultiplicity, Table, TableInteraction,
    BLAKE3_DOMAINSEP, BLAKE3_HASH_64_NAME,
};
use air_snark::blake3_trace::{fill_trace_blake3, generate_trace_rows_for_hash};
use air_snark::field::{Felt, Ring};

#[test]
fn blake3_hash_64_matches_reference_crate() {
    let input_words: [u32; INPUT_WORDS] =
        core::array::from_fn(|i| 0x1020_3040u32.wrapping_mul(i as u32 + 1));

    let mut input_bytes = [0u8; 64];
    for (word, bytes) in input_words.iter().zip(input_bytes.chunks_exact_mut(4)) {
        bytes.copy_from_slice(&word.to_le_bytes());
    }

    let output_limbs = blake3_hash_64_u16(input_words);
    let mut output_bytes = [0u8; 32];
    for (limb, bytes) in output_limbs.iter().zip(output_bytes.chunks_exact_mut(2)) {
        bytes.copy_from_slice(&limb.to_le_bytes());
    }

    assert_eq!(output_bytes, *blake3::hash(&input_bytes).as_bytes());
}

fn some_words(seed: u32) -> [u32; INPUT_WORDS] {
    core::array::from_fn(|i| seed.wrapping_mul(0x9E37_79B9).rotate_left(i as u32) ^ (i as u32))
}

#[test]
fn other_blocks_match_the_reference_crate() {
    for seed in [0u32, 1, 0xFFFF_FFFF, 12345] {
        let words = some_words(seed);
        let bytes: Vec<u8> = words.iter().flat_map(|w| w.to_le_bytes()).collect();
        let out: Vec<u8> = compress(words).iter().flat_map(|w| w.to_le_bytes()).collect();
        assert_eq!(out.as_slice(), blake3::hash(&bytes).as_bytes());
    }
}

#[test]
fn message_words_are_permuted() {
    let mut m: [usize; 16] = core::array::from_fn(|i| i);
    permute(&mut m);
    assert_eq!(m, [2, 6, 3, 10, 7, 0, 4, 13, 1, 11, 12, 5, 9, 14, 15, 8]);
}

#[test]
fn table_has_its_columns() {
    assert_eq!(num_cols_blake3_core(), 8512);
    assert_eq!(num_cols_blake3(), 8564);
    assert_eq!(num_cols_blake3_core(), std::mem::size_of::<Blake3Cols<u8>>());
    assert_eq!(BLAKE3_COL_OUTPUT_LIMBS, 36);
    assert_eq!(BLAKE3_COL_P3_START, 52);
}

fn limbs_of(words: &[u32; INPUT_WORDS]) -> Vec<Felt> {
    words
        .iter()
        .flat_map(|w| [Felt::from_u16(*w as u16), Felt::from_u16((w >> 16) as u16)])
        .collect()
}

/// Run a call on a memory of the given halves.
fn execute(first: &[Felt], second: &[Felt], columns: &mut Vec<Vec<Felt>>) -> Vec<Felt> {
    let mut call = Blake3Execution::start(Felt::new(100), Felt::new(200), Felt::new(300));
    let mut written = Vec::new();
    while let Some(request) = call.request() {
        let reply: MemoryReply<u8> = match request {
            MemoryRequest::Read { address: 100, len } => {
                assert_eq!(len, 16);
                MemoryReply::Values(first.to_vec())
            }
            MemoryRequest::Read { address, len } => {
                assert_eq!((address, len), (200, 16));
                MemoryReply::Values(second.to_vec())
            }
            MemoryRequest::Write { address, values } => {
                assert_eq!(address, 300);
                written = values;
                MemoryReply::Written
            }
        };
        call = call.step(reply).unwrap();
    }
    assert_eq!(call.stage, Stage::Done);
    call.record(columns);
    written
}

/// A trace of two calls and one padding row, filled.
fn filled_trace() -> Vec<Vec<Felt>> {
    let mut columns: Vec<Vec<Felt>> = vec![Vec::new(); num_cols_blake3()];
    for seed in [7u32, 8] {
        let limbs = limbs_of(&some_words(seed));
        execute(&limbs[..16], &limbs[16..], &mut columns);
    }
    let padding = Blake3Precompile::<true>.padding_row(64, 0, 0);
    for (column, value) in columns.iter_mut().zip(&padding) {
        column.push(*value);
    }
    fill_trace_blake3(&mut columns);
    columns
}

fn row(columns: &[Vec<Felt>], r: usize) -> Vec<Felt> {
    columns.iter().map(|c| c[r]).collect()
}

fn eval(flat: Vec<Felt>) -> TableBuilder<Felt> {
    let mut builder = TableBuilder::new(flat);
    Blake3Precompile::<true>.eval(&mut builder);
    builder
}

fn holds(flat: Vec<Felt>) -> bool {
    eval(flat).asserted.iter().all(|x| x.as_canonical_u32() == 0)
}

#[test]
fn calls_write_the_hash_to_memory() {
    let words = some_words(99);
    let limbs = limbs_of(&words);
    let mut columns: Vec<Vec<Felt>> = vec![Vec::new(); num_cols_blake3() + 1];
    let written = execute(&limbs[..16], &limbs[16..], &mut columns);
    let expected: Vec<Felt> = blake3_hash_64_u16(words).iter().map(|l| Felt::from_u16(*l)).collect();
    assert_eq!(written, expected);
    assert_eq!(columns[BLAKE3_COL_MULTIPLICITY], vec![Felt::one()]);
    assert_eq!(columns[BLAKE3_COL_NU_A], vec![Felt::new(100)]);
    assert_eq!(columns[3], vec![Felt::new(300)]);
    assert_eq!(columns[BLAKE3_COL_INPUT_LIMBS + 31], vec![limbs[31]]);
    assert_eq!(columns[BLAKE3_COL_OUTPUT_LIMBS + 15], vec![expected[15]]);
    assert_eq!(columns[BLAKE3_COL_P3_START], vec![Felt::zero()]);
    assert!(columns[num_cols_blake3()].is_empty());
}

#[test]
fn failed_memory_ends_a_call() {
    let call = Blake3Execution::start(Felt::new(1), Felt::new(2), Felt::new(3));
    assert_eq!(call.step(MemoryReply::Failed(42u8)).err(), Some(42));
    let call = Blake3Execution::start(Felt::new(1), Felt::new(2), Felt::new(3));
    let call = call.step::<u8>(MemoryReply::Values(vec![Felt::zero(); 16])).unwrap();
    assert_eq!(call.stage, Stage::ReadSecond);
    assert_eq!(call.step(MemoryReply::Failed(43u8)).err(), Some(43));
}

#[test]
fn filled_rows_satisfy_the_table() {
    let columns = filled_trace();
    for r in 0..3 {
        let flat = row(&columns, r);
        let asserted = eval(flat).asserted;
        assert_eq!(asserted.len(), 9153);
        assert!(asserted.iter().all(|x| x.as_canonical_u32() == 0));
    }
}

#[test]
fn filling_continues_short_columns() {
    let mut columns = filled_trace();
    let before = columns.clone();
    // Whatever the computation held is replaced, and a short column is continued.
    columns[BLAKE3_COL_OUTPUT_LIMBS][1] = Felt::new(1);
    columns[BLAKE3_COL_P3_START + 5].truncate(1);
    fill_trace_blake3(&mut columns);
    assert_eq!(columns, before);
    let mut empty: Vec<Vec<Felt>> = vec![Vec::new(); 3];
    fill_trace_blake3(&mut empty);
    assert!(empty.iter().all(|c| c.is_empty()));
}

#[test]
fn tampered_rows_break_a_constraint() {
    let columns = filled_trace();
    let flat = row(&columns, 0);
    for c in [0usize, 4, 35, 36, 51, 52, 563, 564, 572, 700, 708, 4000, 8179, 8180, 8307, 8308, 8563] {
        let mut bad = flat.clone();
        bad[c] = bad[c].plus(&Felt::one());
        assert!(!holds(bad), "column {}", c);
    }
    // The addresses are bound by the bus, not by these constraints.
    let mut moved = flat.clone();
    moved[BLAKE3_COL_NU_A] = Felt::new(5);
    assert!(holds(moved));
}

#[test]
fn rows_of_multiplicity_zero_hold_anything() {
    let mut flat: Vec<Felt> = (0..num_cols_blake3()).map(|i| Felt::from_usize(3 * i + 1)).collect();
    flat[0] = Felt::zero();
    assert!(holds(flat.clone()));
    flat[0] = Felt::two();
    assert!(!holds(flat));
}

#[test]
fn rows_with_wide_limbs_are_not_satisfied() {
    let mut columns: Vec<Vec<Felt>> = vec![Vec::new(); num_cols_blake3()];
    let mut limbs = limbs_of(&some_words(3));
    limbs[0] = Felt::new(0x1_0000);
    execute(&limbs[..16], &limbs[16..], &mut columns);
    fill_trace_blake3(&mut columns);
    assert!(!holds(row(&columns, 0)));
}

#[test]
fn generated_columns_hold_the_output_bits() {
    let words = some_words(21);
    let columns = filled_trace();
    let mut cols = Blake3Cols::read(&row(&columns, 0), BLAKE3_COL_P3_START);
    generate_trace_rows_for_hash(&mut cols, words);
    let out = compress(words);
    for i in 0..8 {
        for j in 0..32 {
            let bit = cols.outputs[i / 4][i % 4][j].as_canonical_u32();
            assert_eq!(bit, (out[i] >> j) & 1);
        }
    }
    assert_eq!(cols.value(0).as_canonical_u32(), words[0] & 1);
    assert_eq!(cols.value(8511).as_canonical_u32(), out[7] >> 31);
}

#[test]
fn bus_claims_and_declared_values() {
    let columns = filled_trace();
    let flat = row(&columns, 1);
    let with_bus = eval(flat.clone());
    assert_eq!(with_bus.bus.len(), 1);
    assert_eq!(with_bus.bus[0].multiplicity, flat[0]);
    assert_eq!(with_bus.bus[0].domainsep, Felt::from_usize(BLAKE3_DOMAINSEP));
    assert_eq!(with_bus.bus[0].data, flat[1..4].to_vec());
    assert!(with_bus.declared.is_empty());
    let mut builder = TableBuilder::new(flat.clone());
    Blake3Precompile::<false>.eval(&mut builder);
    assert!(builder.bus.is_empty());
    assert_eq!(builder.declared, flat[..4].to_vec());
    assert_eq!(builder.asserted, with_bus.asserted);
}

#[test]
fn table_declares_its_shape() {
    let with_bus = Blake3Precompile::<true>;
    let without = Blake3Precompile::<false>;
    assert_eq!(with_bus.name(), "blake3");
    assert_eq!(BLAKE3_HASH_64_NAME, "blake3_hash_64");
    assert_eq!(with_bus.table(), Table::Blake3);
    assert_eq!(with_bus.n_columns_total(), 8564);
    assert_eq!(with_bus.n_columns(), 8564);
    assert_eq!(with_bus.degree_air(), 4);
    assert_eq!(with_bus.n_constraints(), 9155);
    assert_eq!(without.n_constraints(), 9153);
    assert_eq!(with_bus.n_shift_columns(), 0);
    let padding = with_bus.padding_row(17, 1, 2);
    assert_eq!(padding.len(), 8564);
    assert_eq!(padding[1..4], [Felt::new(17); 3]);
    assert!(padding.iter().filter(|x| x.as_canonical_u32() != 0).count() == 3);
}

#[test]
fn table_takes_part_in_four_interactions() {
    let all = Blake3Precompile::<true>.bus_interactions();
    assert_eq!(all.len(), 4);
    match &all[0] {
        TableInteraction::Bus(bus) => {
            assert_eq!(bus.direction, BusDirection::Pull);
            assert_eq!(bus.multiplicity, BusMultiplicity::Column(0));
            assert_eq!(bus.domainsep, BusData::Constant(6));
            assert_eq!(bus.data, vec![BusData::Column(1), BusData::Column(2), BusData::Column(3)]);
        }
        TableInteraction::ConsecutiveMemory { .. } => panic!("the call comes first"),
    }
    let memory: Vec<(usize, usize, usize)> = all[1..]
        .iter()
        .map(|i| match i {
            TableInteraction::ConsecutiveMemory { address, values, len } => (*address, *values, *len),
            TableInteraction::Bus(_) => panic!("one call only"),
        })
        .collect();
    assert_eq!(memory, vec![(1, 4, 16), (2, 20, 16), (3, 36, OUTPUT_LIMBS)]);
}

#[test]
fn generated_columns_hold_at_any_multiplicity() {
    let words = some_words(31);
    let mut cols = Blake3Cols::read(&vec![Felt::zero(); num_cols_blake3()], BLAKE3_COL_P3_START);
    generate_trace_rows_for_hash(&mut cols, words);
    for multiplicity in [0u32, 1, 2, 77, 0x7f00_0000] {
        let mut builder = TableBuilder::new(vec![Felt::zero(); num_cols_blake3()]);
        eval_blake3(&mut builder, &Felt::new(multiplicity), &cols);
        assert_eq!(builder.asserted.len(), 7 * 1152 + 528);
        assert!(builder.asserted.iter().all(|x| x.as_canonical_u32() == 0));
    }
    let mut other = cols;
    other.outputs[1][2][5] = Felt::one().minus(&other.outputs[1][2][5]);
    let mut builder = TableBuilder::new(vec![Felt::zero(); num_cols_blake3()]);
    eval_blake3(&mut builder, &Felt::two(), &other);
    assert!(builder.asserted.iter().any(|x| x.as_canonical_u32() != 0));
}

#[test]
fn rows_hold_exactly_for_the_hash() {
    let columns = filled_trace();
    let flat = row(&columns, 1);
    let expected: Vec<Felt> =
        blake3_hash_64_u16(some_words(8)).iter().map(|l| Felt::from_u16(*l)).collect();
    assert_eq!(&flat[BLAKE3_COL_OUTPUT_LIMBS..BLAKE3_COL_P3_START], expected.as_slice());
    assert!(holds(flat.clone()));
    for k in 0..OUTPUT_LIMBS {
        let mut wrong = flat.clone();
        let at = BLAKE3_COL_OUTPUT_LIMBS + k;
        wrong[at] = wrong[at].plus(&Felt::one());
        assert!(!holds(wrong));
    }
}
