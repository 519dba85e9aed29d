use air_snark::air::{Air, AirShape};
use air_snark::field::{Felt, Ring};
use air_snark::snark::{
    pow_bits_auto, row_log, whir_builder_with_security, AirSnarkConfig, AirSnarkTraceLayout,
    ColDims,
};
use air_snark::snark_run::{
    opening_statements, prove_single_air_with_whir, prove_single_air_with_whir_base,
    verify_single_air_with_whir, verify_single_air_with_whir_base, ProverRun, Reply, Segment,
    Stage, VerifierError, VerifierRun,
};
use air_snark::snark_setup::{check_prover_inputs, SetupError};
use air_snark::whir::{FoldingFactor, SecurityAssumption, WhirConfigBuilder};

/// The number of bits of a degree-five extension of a 31-bit field.
const FIELD_BITS: usize = 155;

#[derive(Debug, Clone, Copy)]
struct TestAir {
    n_columns: usize,
    n_columns_ef: usize,
    n_constraints: usize,
    down_ef: usize,
}

impl Air for TestAir {
    fn shape(&self) -> AirShape {
        unreachable!("a model, never run")
    }
    fn degree(&self) -> usize {
        1
    }
    fn n_columns_f_air(&self) -> usize {
        self.n_columns
    }
    fn n_columns_ef_air(&self) -> usize {
        self.n_columns_ef
    }
    fn n_constraints(&self) -> usize {
        self.n_constraints
    }
    fn down_column_indexes_f(&self) -> Vec<usize> {
        vec![0]
    }
    fn down_column_indexes_ef(&self) -> Vec<usize> {
        vec![0; self.down_ef]
    }
}

const AIR: TestAir = TestAir { n_columns: 2, n_columns_ef: 0, n_constraints: 1, down_ef: 0 };

fn config() -> AirSnarkConfig {
    AirSnarkConfig {
        univariate_skips: 3,
        log_smallest_decomposition_chunk: 4,
        security_bits: 100,
        whir_config_builder: WhirConfigBuilder {
            folding_factor: FoldingFactor::new(7, 4),
            soundness_type: SecurityAssumption::CapacityBound,
            pow_bits: 16,
            max_num_variables_to_send_coeffs: 6,
            rs_domain_initial_reduction_factor: 5,
            security_level: 128,
            starting_log_inv_rate: 1,
        },
    }
}

fn column(start: usize, len: usize) -> Vec<Felt> {
    (start..start + len).map(Felt::from_usize).collect()
}

fn columns() -> Vec<Vec<Felt>> {
    vec![column(0, 256), column(1000, 256)]
}

/// Column 1 has a public prefix of sixteen rows.
fn prefix_layout() -> AirSnarkTraceLayout<Felt> {
    let mut layout = AirSnarkTraceLayout::all_committed(8, 2);
    layout.dims_f[1] = ColDims {
        n_vars: 8,
        log_public_data_size: Some(4),
        committed_size: 240,
        default_value: Felt::zero(),
    };
    layout.insert_public_data(1, column(1000, 16));
    layout
}

fn prove(
    air: &TestAir,
    layout: &AirSnarkTraceLayout<Felt>,
    columns: &Vec<Vec<Felt>>,
) -> Result<ProverRun, SetupError> {
    let shifted = column(256, 1);
    check_prover_inputs(air, layout, columns, 0, &shifted, 0)?;
    Ok(prove_single_air_with_whir_base(air, FIELD_BITS, &config(), layout, columns, &shifted))
}

#[test]
fn layout_commits_every_column() {
    let layout: AirSnarkTraceLayout<Felt> = AirSnarkTraceLayout::all_committed(8, 3);
    assert_eq!(layout.dims_f.len(), 3);
    for d in &layout.dims_f {
        assert_eq!(d.n_vars, 8);
        assert_eq!(d.log_public_data_size, None);
        assert_eq!(d.committed_size, 256);
        assert_eq!(d.default_value, Felt::zero());
    }
    assert!(layout.public_data_f.is_empty());
    assert_eq!(prefix_layout().public_data_f[&1], column(1000, 16));
}

#[test]
fn grinding_makes_up_for_a_small_field() {
    assert_eq!(pow_bits_auto(128, 155, 3183), 0);
    assert_eq!(pow_bits_auto(128, 124, 3183), 16);
    assert_eq!(pow_bits_auto(128, 124, 1), 5);
    assert_eq!(pow_bits_auto(128, 124, 0), 4);
    assert_eq!(pow_bits_auto(128, 124, 3), 6);
    assert_eq!(pow_bits_auto(100, 5, usize::MAX - 1), 100);
    assert_eq!(pow_bits_auto(0, 0, 7), 0);
}

#[test]
fn security_level_is_replaced() {
    let b = whir_builder_with_security(config().whir_config_builder, 100);
    assert_eq!(b.security_level, 100);
    assert_eq!(b.pow_bits, 16);
    assert_eq!(b.folding_factor, FoldingFactor::new(7, 4));
}

#[test]
fn row_counts_are_powers_of_two() {
    assert_eq!(row_log(1), Some(0));
    assert_eq!(row_log(256), Some(8));
    assert_eq!(row_log(1 << 31), Some(31));
    assert_eq!(row_log(0), None);
    assert_eq!(row_log(3), None);
    assert_eq!(row_log(257), None);
    assert_eq!(row_log(usize::MAX), None);
    assert_eq!(row_log(1 << (usize::BITS - 1)), Some(usize::BITS as usize - 1));
}

#[test]
fn prover_and_verifier_go_through_the_same_transcript() {
    let layout = prefix_layout();
    let mut prover = prove(&AIR, &layout, &columns()).unwrap();
    let mut verifier: VerifierRun =
        verify_single_air_with_whir_base::<_, u8>(&AIR, FIELD_BITS, &config()).unwrap();
    let mut stages = Vec::new();
    while prover.segment() != Segment::End {
        assert_eq!(verifier.segment(), prover.segment());
        stages.push(prover.stage);
        let reply: Reply<u8> = match prover.segment() {
            Segment::Rows => {
                assert_eq!(prover.scalars(), vec![Felt::from_usize(256)]);
                Reply::Scalars(prover.scalars())
            }
            Segment::Shifted { n } => {
                assert_eq!(n, 1);
                assert_eq!(prover.scalars(), column(256, 1));
                Reply::Scalars(prover.scalars())
            }
            _ => {
                assert!(prover.scalars().is_empty());
                Reply::Read
            }
        };
        prover = prover.advance();
        verifier = verifier.step(&AIR, &layout, reply).unwrap();
        assert_eq!(verifier.stage, prover.stage);
    }
    assert_eq!(
        stages,
        vec![
            Stage::Rows,
            Stage::Shifted,
            Stage::Grinding,
            Stage::Commitment,
            Stage::Constraints,
            Stage::Statements,
            Stage::Openings,
        ]
    );
    assert_eq!(verifier.stage, Stage::Done);
    assert_eq!(verifier.plan, prover.plan);
    assert_eq!(verifier.last_row_shifted_f, column(256, 1));
    assert_eq!(prover.last_row_shifted_f, column(256, 1));
    assert_eq!(prover.plan.n_rows, 256);
    assert_eq!(prover.plan.log_n_rows, 8);
    assert_eq!(prover.plan.grinding_bits, 0);
    assert_eq!(prover.plan.whir.security_level, 100);
    assert_eq!(prover.plan.log_smallest_decomposition_chunk, 4);
    assert_eq!(prover.plan.univariate_skips, 3);
}

#[test]
fn prover_refuses_inputs_that_do_not_fit() {
    let layout = prefix_layout();
    let shifted = column(256, 1);
    let run = |air: &TestAir, layout: &AirSnarkTraceLayout<Felt>, columns: Vec<Vec<Felt>>| {
        prove(air, layout, &columns).err()
    };
    let full = |n_ef: usize, shifted_ef: usize, shifted: &Vec<Felt>| {
        check_prover_inputs(&AIR, &layout, &columns(), n_ef, shifted, shifted_ef).err()
    };
    assert_eq!(check_prover_inputs(&AIR, &layout, &columns(), 0, &shifted, 0), Ok(8));
    assert_eq!(full(0, 0, &shifted), None);
    assert_eq!(full(1, 1, &shifted), Some(SetupError::ExtensionColumns));
    assert_eq!(full(0, 1, &shifted), Some(SetupError::ExtensionShiftedValues));
    assert_eq!(full(0, 0, &column(256, 2)), Some(SetupError::ShiftedValueCount));
    assert_eq!(run(&AIR, &layout, vec![]), Some(SetupError::NoColumns));
    assert_eq!(
        run(&AIR, &layout, vec![column(0, 256), column(0, 128)]),
        Some(SetupError::RowCountMismatch)
    );
    assert_eq!(run(&AIR, &layout, vec![column(0, 256)]), Some(SetupError::ColumnCount));
    let ext = TestAir { n_columns_ef: 1, ..AIR };
    assert_eq!(run(&ext, &layout, columns()), Some(SetupError::ExtensionAir));
    assert_eq!(
        run(&AIR, &layout, vec![column(0, 200), column(0, 200)]),
        Some(SetupError::RowsNotPowerOfTwo)
    );
    let shifts = TestAir { down_ef: 1, ..AIR };
    assert_eq!(run(&shifts, &layout, columns()), Some(SetupError::ExtensionShifts));
    let narrow = AirSnarkTraceLayout::all_committed(8, 1);
    assert_eq!(run(&AIR, &narrow, columns()), Some(SetupError::LayoutWidth));
    let low = AirSnarkTraceLayout::all_committed(7, 2);
    assert_eq!(run(&AIR, &low, columns()), Some(SetupError::LayoutHeight));
    let mut nothing = prefix_layout();
    nothing.dims_f[0].committed_size = 0;
    assert_eq!(run(&AIR, &nothing, columns()), Some(SetupError::NothingCommitted));
    let mut undeclared = prefix_layout();
    undeclared.insert_public_data(0, column(0, 16));
    assert_eq!(run(&AIR, &undeclared, columns()), Some(SetupError::PublicData));
    let mut long = prefix_layout();
    long.insert_public_data(1, column(1000, 32));
    assert_eq!(run(&AIR, &long, columns()), Some(SetupError::PublicData));
    let mut other = prefix_layout();
    other.insert_public_data(1, column(1001, 16));
    assert_eq!(run(&AIR, &other, columns()), Some(SetupError::PublicData));
    let mut huge = prefix_layout();
    huge.dims_f[1].log_public_data_size = Some(200);
    assert_eq!(run(&AIR, &huge, columns()), Some(SetupError::PublicData));
    let mut beyond = prefix_layout();
    beyond.insert_public_data(2, column(0, 16));
    assert_eq!(run(&AIR, &beyond, columns()), Some(SetupError::PublicColumn));
}

fn verify(
    air: &TestAir,
    layout: &AirSnarkTraceLayout<Felt>,
    n_rows: usize,
) -> Result<VerifierRun, VerifierError<u8>> {
    let run = verify_single_air_with_whir(air, FIELD_BITS, &config())?;
    let run = run.step(air, layout, Reply::Scalars(vec![Felt::from_usize(n_rows)]))?;
    run.step(air, layout, Reply::Scalars(column(256, 1)))
}

#[test]
fn verifier_refuses_what_does_not_fit() {
    let layout = prefix_layout();
    assert_eq!(verify(&AIR, &layout, 256).map(|r| r.stage).ok(), Some(Stage::Grinding));
    let ext = TestAir { n_columns_ef: 1, ..AIR };
    assert_eq!(verify(&ext, &layout, 256).err(), Some(VerifierError::InvalidProof));
    let shifts = TestAir { down_ef: 1, ..AIR };
    assert_eq!(verify(&shifts, &layout, 256).err(), Some(VerifierError::InvalidProof));
    assert_eq!(
        verify(&AIR, &layout, 100).err(),
        Some(VerifierError::Setup(SetupError::RowsNotPowerOfTwo))
    );
    assert_eq!(
        verify(&AIR, &layout, 128).err(),
        Some(VerifierError::Setup(SetupError::LayoutHeight))
    );
    let narrow = AirSnarkTraceLayout::all_committed(8, 1);
    assert_eq!(
        verify(&AIR, &narrow, 256).err(),
        Some(VerifierError::Setup(SetupError::LayoutWidth))
    );
    let mut nothing = prefix_layout();
    nothing.dims_f[0].committed_size = 0;
    assert_eq!(verify(&AIR, &nothing, 256).err(), Some(VerifierError::InvalidProof));
    let mut undeclared = prefix_layout();
    undeclared.insert_public_data(0, column(0, 16));
    assert_eq!(verify(&AIR, &undeclared, 256).err(), Some(VerifierError::InvalidProof));
    let mut long = prefix_layout();
    long.insert_public_data(1, column(1000, 32));
    assert_eq!(verify(&AIR, &long, 256).err(), Some(VerifierError::InvalidProof));
    let mut beyond = prefix_layout();
    beyond.insert_public_data(2, column(0, 16));
    assert_eq!(
        verify(&AIR, &beyond, 256).err(),
        Some(VerifierError::Setup(SetupError::PublicColumn))
    );
    // A column that exists comes first.
    beyond.insert_public_data(0, column(0, 16));
    assert_eq!(verify(&AIR, &beyond, 256).err(), Some(VerifierError::InvalidProof));
}

#[test]
fn transcript_failures_are_passed_on() {
    let layout = prefix_layout();
    let run = verify_single_air_with_whir::<_, u8>(&AIR, FIELD_BITS, &config()).unwrap();
    assert_eq!(
        run.step(&AIR, &layout, Reply::Failed(9u8)).err(),
        Some(VerifierError::Transcript(9))
    );
    let run = verify(&AIR, &layout, 256).unwrap();
    assert_eq!(
        run.step(&AIR, &layout, Reply::Failed(8u8)).err(),
        Some(VerifierError::Transcript(8))
    );
}

#[test]
fn every_column_is_opened_at_the_one_point() {
    let statements = opening_statements(&vec![3u64, 4, 5], &vec![10u64, 20]);
    assert_eq!(statements.len(), 2);
    for (s, value) in statements.iter().zip([10u64, 20]) {
        assert_eq!(s.len(), 1);
        assert_eq!(s[0].point, vec![3, 4, 5]);
        assert_eq!(s[0].value, value);
    }
    assert!(opening_statements(&vec![1u8], &vec![]).is_empty());
}

#[test]
fn small_fields_grind() {
    let run = prove_single_air_with_whir_base(
        &AIR,
        90,
        &config(),
        &prefix_layout(),
        &columns(),
        &column(256, 1),
    );
    let run = run.advance().advance();
    assert_eq!(run.segment(), Segment::Grinding { bits: 11 });
}

#[test]
fn run_keeps_the_shifted_values() {
    let run = prove_single_air_with_whir(
        &AIR,
        FIELD_BITS,
        &config(),
        &prefix_layout(),
        &columns(),
        0,
        &column(77, 1),
        0,
    );
    assert_eq!(run.plan.log_n_rows, 8);
    let run = run.advance();
    assert_eq!(run.scalars(), column(77, 1));
    assert_eq!(run.advance().advance().last_row_shifted_f, column(77, 1));
}

/// Run an honest proof on both sides: every segment that is written is the one that
/// is read, the scalars are handed over, and both come to the end.
fn prove_and_verify(
    air: &TestAir,
    config: &AirSnarkConfig,
    layout: &AirSnarkTraceLayout<Felt>,
    columns: &Vec<Vec<Felt>>,
    shifted: &Vec<Felt>,
) -> Vec<Segment> {
    let log_n_rows = check_prover_inputs(air, layout, columns, 0, shifted, 0).unwrap();
    assert_eq!(1 << log_n_rows, columns[0].len());
    let mut prover =
        prove_single_air_with_whir_base(air, FIELD_BITS, config, layout, columns, shifted);
    let mut verifier =
        verify_single_air_with_whir_base::<_, u8>(air, FIELD_BITS, config).unwrap();
    let mut segments = Vec::new();
    while prover.segment() != Segment::End {
        segments.push(prover.segment());
        assert_eq!(verifier.segment(), prover.segment());
        let reply: Reply<u8> = match prover.segment() {
            Segment::Rows | Segment::Shifted { .. } => Reply::Scalars(prover.scalars()),
            _ => Reply::Read,
        };
        prover = prover.advance();
        verifier = verifier.step(air, layout, reply).unwrap();
    }
    assert_eq!(verifier.stage, Stage::Done);
    assert_eq!(verifier.plan, prover.plan);
    assert_eq!(verifier.plan.log_n_rows, log_n_rows);
    assert_eq!(&verifier.last_row_shifted_f, shifted);
    segments
}

#[test]
fn test_public_api_smoke() {
    let log_n_rows = 8;
    let n_rows = 1usize << log_n_rows;
    // Trace column: 0, 1, 2, ..., with one value more for the row after the last.
    let col_plus_one = column(0, n_rows + 1);
    let columns_f = vec![col_plus_one[..n_rows].to_vec()];
    let last_row_shifted_f = vec![col_plus_one[n_rows]];
    let air = TestAir { n_columns: 1, ..AIR };
    let config = AirSnarkConfig {
        univariate_skips: 3,
        log_smallest_decomposition_chunk: 12,
        security_bits: 128,
        ..config()
    };
    let layout = AirSnarkTraceLayout::all_committed(log_n_rows, 1);
    let segments = prove_and_verify(&air, &config, &layout, &columns_f, &last_row_shifted_f);
    assert_eq!(
        segments,
        vec![
            Segment::Rows,
            Segment::Shifted { n: 1 },
            Segment::Grinding { bits: 0 },
            Segment::Commitment {
                whir: config.whir_config_builder,
                log_smallest_decomposition_chunk: 12,
            },
            Segment::Constraints { univariate_skips: 3, log_n_rows: 8 },
            Segment::Statements { log_smallest_decomposition_chunk: 12 },
            Segment::Openings { whir: config.whir_config_builder },
        ]
    );
}

#[test]
fn test_air_snark_with_public_prefix_column() {
    let log_n_rows = 8;
    let n_rows = 1usize << log_n_rows;
    let col0_plus_one = column(0, n_rows + 1);
    // Column 1: the prefix is public, the suffix committed.
    let log_public = 4;
    let public_len = 1usize << log_public;
    let col1 = column(1000, n_rows);
    let col1_public = col1[..public_len].to_vec();
    let columns_f = vec![col0_plus_one[..n_rows].to_vec(), col1];
    let last_row_shifted_f = vec![col0_plus_one[n_rows]];
    let config = AirSnarkConfig {
        univariate_skips: 3,
        log_smallest_decomposition_chunk: 4,
        security_bits: 128,
        ..config()
    };
    let mut layout = AirSnarkTraceLayout::all_committed(log_n_rows, 2);
    layout.dims_f[1] = ColDims {
        n_vars: log_n_rows,
        log_public_data_size: Some(log_public),
        committed_size: n_rows - public_len,
        default_value: Felt::zero(),
    };
    layout.insert_public_data(1, col1_public);
    let segments = prove_and_verify(&AIR, &config, &layout, &columns_f, &last_row_shifted_f);
    assert_eq!(segments.len(), 7);
    assert_eq!(segments[5], Segment::Statements { log_smallest_decomposition_chunk: 4 });
    assert_eq!(segments[6], Segment::Openings { whir: config.whir_config_builder });
}

#[test]
fn honest_transcripts_with_grinding_are_accepted() {
    let mut verifier = verify_single_air_with_whir_base::<_, u8>(&AIR, 90, &config()).unwrap();
    let layout = prefix_layout();
    let mut prover = prove_single_air_with_whir_base(
        &AIR,
        90,
        &config(),
        &layout,
        &columns(),
        &column(256, 1),
    );
    while prover.segment() != Segment::End {
        assert_eq!(verifier.segment(), prover.segment());
        if prover.stage == Stage::Grinding {
            assert_eq!(prover.segment(), Segment::Grinding { bits: 11 });
        }
        let reply: Reply<u8> = match prover.segment() {
            Segment::Rows | Segment::Shifted { .. } => Reply::Scalars(prover.scalars()),
            _ => Reply::Read,
        };
        prover = prover.advance();
        verifier = verifier.step(&AIR, &layout, reply).unwrap();
    }
    assert_eq!(verifier.stage, Stage::Done);
}

#[test]
fn long_traces_do_not_survive_the_transcript() {
    for log_n_rows in 0..usize::BITS {
        let n_rows = 1usize << log_n_rows;
        let read = Felt::from_usize(n_rows).to_usize();
        assert_eq!(row_log(read).is_some(), log_n_rows < 31);
        let run = verify_single_air_with_whir::<_, u8>(&AIR, FIELD_BITS, &config()).unwrap();
        let reply: Reply<u8> = Reply::Scalars(vec![Felt::from_usize(n_rows)]);
        let next = run.step(&AIR, &prefix_layout(), reply);
        if log_n_rows < 31 {
            assert_eq!(next.unwrap().plan.n_rows, n_rows);
        } else {
            assert_eq!(
                next.err(),
                Some(VerifierError::Setup(SetupError::RowsNotPowerOfTwo))
            );
        }
    }
}
