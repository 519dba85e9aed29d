use air_snark::air::{Air, AirShape};
use air_snark::preprocessing::{
    AirSnarkPreprocessing, DecodeError, FoldingFactorSerde, SecurityAssumptionSerde,
    WhirParamsSerde,
};
use air_snark::snark::AirSnarkConfig;
use air_snark::whir::{FoldingFactor, SecurityAssumption, WhirConfigBuilder};

#[derive(Debug, Clone, Copy)]
struct DummyAir;

impl Air for DummyAir {
    fn shape(&self) -> AirShape {
        unreachable!("a model, never run")
    }
    fn degree(&self) -> usize {
        1
    }
    fn n_columns_f_air(&self) -> usize {
        3
    }
    fn n_columns_ef_air(&self) -> usize {
        0
    }
    fn n_constraints(&self) -> usize {
        1
    }
    fn down_column_indexes_f(&self) -> Vec<usize> {
        vec![0]
    }
    fn down_column_indexes_ef(&self) -> Vec<usize> {
        vec![]
    }
}

fn whir_config_builder() -> WhirConfigBuilder {
    WhirConfigBuilder {
        folding_factor: FoldingFactor::new(7, 4),
        soundness_type: SecurityAssumption::CapacityBound,
        pow_bits: 16,
        max_num_variables_to_send_coeffs: 6,
        rs_domain_initial_reduction_factor: 5,
        security_level: 128,
        starting_log_inv_rate: 1,
    }
}

fn config() -> AirSnarkConfig {
    AirSnarkConfig {
        univariate_skips: 3,
        log_smallest_decomposition_chunk: 12,
        security_bits: 128,
        whir_config_builder: whir_config_builder(),
    }
}

/// Three columns of 2^10 rows pack into 2^12 values.
const PACKED_N_VARS: usize = 12;

#[test]
fn test_preprocessing_roundtrip() {
    let cfg = config();

    let pre = AirSnarkPreprocessing::build_for_air_base(&DummyAir, 10, PACKED_N_VARS, &cfg);
    let bytes = pre.to_bytes_bincode();
    let pre2 = AirSnarkPreprocessing::from_bytes_bincode(&bytes);
    assert_eq!(pre, pre2);

    // Should reconstruct a config.
    let cfg2 = pre2.to_config();
    assert_eq!(cfg2, cfg);
}

#[test]
fn artifact_holds_the_shape() {
    let pre = AirSnarkPreprocessing::build_for_air_base(&DummyAir, 10, PACKED_N_VARS, &config());
    assert_eq!(pre.version, 1);
    assert_eq!(pre.log_n_rows, 10);
    assert_eq!(pre.n_columns_f, 3);
    assert_eq!(pre.log_smallest_decomposition_chunk, 12);
    assert_eq!(pre.univariate_skips, 3);
    assert_eq!(pre.packed_n_vars, 12);
    // 2^(12 + 1 - 7)
    assert_eq!(pre.required_dft_twiddles_n, 64);
    assert_eq!(pre.n_constraints, 1);
    assert_eq!(pre.whir_params, WhirParamsSerde::from(&whir_config_builder()));
}

#[test]
fn bytes_are_little_endian_numbers() {
    let pre = AirSnarkPreprocessing::build_for_air_base(&DummyAir, 10, PACKED_N_VARS, &config());
    let bytes = pre.to_bytes_bincode();
    let mut expected: Vec<u8> = 1u32.to_le_bytes().to_vec();
    for n in [10u64, 3, 12, 3, 1, 6, 5, 7, 4] {
        expected.extend(n.to_le_bytes());
    }
    expected.extend(2u32.to_le_bytes());
    for n in [128u64, 16, 12, 64, 1] {
        expected.extend(n.to_le_bytes());
    }
    assert_eq!(bytes, expected);
}

#[test]
fn bytes_that_hold_no_artifact_are_refused() {
    let pre = AirSnarkPreprocessing::build_for_air_base(&DummyAir, 10, PACKED_N_VARS, &config());
    let bytes = pre.to_bytes_bincode();
    let read = |b: &[u8]| AirSnarkPreprocessing::try_from_bytes_bincode(b);
    assert_eq!(read(&bytes), Ok(pre));
    assert_eq!(read(&bytes[..119]), Err(DecodeError::TooShort));
    assert_eq!(read(&[]), Err(DecodeError::TooShort));
    let mut unknown = bytes.clone();
    unknown[76] = 3;
    assert_eq!(read(&unknown), Err(DecodeError::UnknownAssumption));
    if usize::BITS < 64 {
        let mut large = bytes.clone();
        large[11] = 1;
        assert_eq!(read(&large), Err(DecodeError::NumberTooLarge));
    }
    // What comes after the artifact is ignored.
    let mut longer = bytes.clone();
    longer.extend([9, 9, 9]);
    assert_eq!(read(&longer), Ok(pre));
}

#[test]
fn stored_forms_convert_both_ways() {
    for (a, s) in [
        (SecurityAssumption::UniqueDecoding, SecurityAssumptionSerde::UniqueDecoding),
        (SecurityAssumption::JohnsonBound, SecurityAssumptionSerde::JohnsonBound),
        (SecurityAssumption::CapacityBound, SecurityAssumptionSerde::CapacityBound),
    ] {
        assert_eq!(SecurityAssumptionSerde::from(a), s);
        assert_eq!(SecurityAssumption::from(s), a);
    }
    let factor = FoldingFactor::new(7, 4);
    assert_eq!((factor.at_round(0), factor.at_round(1), factor.at_round(9)), (7, 4, 4));
    let stored = FoldingFactorSerde::from(factor);
    assert_eq!(stored, FoldingFactorSerde { first_round: 7, subsequent_round: 4 });
    assert_eq!(FoldingFactor::from(stored), factor);
    let builder = whir_config_builder();
    assert_eq!(WhirConfigBuilder::from(&WhirParamsSerde::from(&builder)), builder);
}
