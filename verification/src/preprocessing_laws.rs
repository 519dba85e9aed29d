//! What preprocessing artifacts and their bytes come down to, of every result that a
//! call can have.

use crate::air::Air;
use crate::preprocessing::{
    holds_fields, numbers_fit, AirSnarkPreprocessing, DecodeError, Fields, FoldingFactorSerde,
    SecurityAssumptionSerde, WhirParamsSerde,
};
use crate::snark::AirSnarkConfig;
use crate::whir::{FoldingFactor, SecurityAssumption, WhirConfigBuilder};
use vstd::arithmetic::power2::{lemma_pow2_adds, pow2};
use vstd::bytes::{
    lemma_auto_spec_u32_to_from_le_bytes, lemma_auto_spec_u64_to_from_le_bytes,
    spec_u32_from_le_bytes, spec_u32_to_le_bytes, spec_u64_from_le_bytes, spec_u64_to_le_bytes,
};
use vstd::prelude::*;
use vstd::std_specs::convert::FromSpec;

verus! {

/// An artifact describes the AIR, the height and the configuration that it is built
/// for. What it asks of DFT twiddles is the size of the commitment: the packed
/// polynomial at the starting rate, folded once.
pub proof fn artifact_describes_its_air<A: Air>(
    air: &A,
    log_n_rows: usize,
    packed_n_vars: usize,
    config: &AirSnarkConfig,
    r: AirSnarkPreprocessing,
)
    requires
        packed_n_vars + config.whir_config_builder.starting_log_inv_rate
            >= config.whir_config_builder.folding_factor.factor(0),
        call_ensures(
            AirSnarkPreprocessing::build_for_air_base::<A>,
            (air, log_n_rows, packed_n_vars, config),
            r,
        ),
    ensures
        r.version == 1,
        r.log_n_rows == log_n_rows,
        r.packed_n_vars == packed_n_vars,
        r.n_columns_f == air.shape().n_columns_f,
        r.n_constraints == air.shape().n_constraints,
        r.log_smallest_decomposition_chunk == config.log_smallest_decomposition_chunk,
        r.univariate_skips == config.univariate_skips,
        r.required_dft_twiddles_n * pow2(
            config.whir_config_builder.folding_factor.factor(0) as nat,
        ) == pow2((packed_n_vars + config.whir_config_builder.starting_log_inv_rate) as nat),
        r.whir_params.starting_log_inv_rate == config.whir_config_builder.starting_log_inv_rate,
        r.whir_params.max_num_variables_to_send_coeffs
            == config.whir_config_builder.max_num_variables_to_send_coeffs,
        r.whir_params.rs_domain_initial_reduction_factor
            == config.whir_config_builder.rs_domain_initial_reduction_factor,
        r.whir_params.folding_factor.first_round
            == config.whir_config_builder.folding_factor.factor(0),
        r.whir_params.folding_factor.subsequent_round
            == config.whir_config_builder.folding_factor.factor(1),
        r.whir_params.soundness_type is UniqueDecoding
            <==> config.whir_config_builder.soundness_type is UniqueDecoding,
        r.whir_params.soundness_type is JohnsonBound
            <==> config.whir_config_builder.soundness_type is JohnsonBound,
        r.whir_params.soundness_type is CapacityBound
            <==> config.whir_config_builder.soundness_type is CapacityBound,
        r.whir_params.security_level == config.whir_config_builder.security_level,
        r.whir_params.pow_bits == config.whir_config_builder.pow_bits,
{
    let total = packed_n_vars + config.whir_config_builder.starting_log_inv_rate;
    let k = config.whir_config_builder.folding_factor.factor(0) as nat;
    lemma_pow2_adds((total - k) as nat, k);
}

/// The configuration of an artifact is the one that it was built for; the target
/// security is the security level of its WHIR parameters.
pub proof fn artifact_gives_its_configuration_back<A: Air>(
    air: &A,
    log_n_rows: usize,
    packed_n_vars: usize,
    config: &AirSnarkConfig,
    p: AirSnarkPreprocessing,
    r: AirSnarkConfig,
)
    requires
        call_ensures(
            AirSnarkPreprocessing::build_for_air_base::<A>,
            (air, log_n_rows, packed_n_vars, config),
            p,
        ),
        call_ensures(AirSnarkPreprocessing::to_config, (&p,), r),
    ensures
        r.univariate_skips == config.univariate_skips,
        r.log_smallest_decomposition_chunk == config.log_smallest_decomposition_chunk,
        r.whir_config_builder == config.whir_config_builder,
        r.security_bits == config.whir_config_builder.security_level,
        config.security_bits == config.whir_config_builder.security_level ==> r == *config,
{
    crate::preprocessing::params_roundtrip(config.whir_config_builder, p.whir_params);
}

/// The configuration of any artifact, read from its fields.
pub proof fn configurations_are_read_from_the_fields(p: &AirSnarkPreprocessing, r: AirSnarkConfig)
    requires
        call_ensures(AirSnarkPreprocessing::to_config, (p,), r),
    ensures
        r.univariate_skips == p.univariate_skips,
        r.log_smallest_decomposition_chunk == p.log_smallest_decomposition_chunk,
        r.security_bits == p.whir_params.security_level,
        r.whir_config_builder.starting_log_inv_rate == p.whir_params.starting_log_inv_rate,
        r.whir_config_builder.max_num_variables_to_send_coeffs
            == p.whir_params.max_num_variables_to_send_coeffs,
        r.whir_config_builder.rs_domain_initial_reduction_factor
            == p.whir_params.rs_domain_initial_reduction_factor,
        r.whir_config_builder.folding_factor.factor(0) == p.whir_params.folding_factor.first_round,
        r.whir_config_builder.folding_factor.factor(1)
            == p.whir_params.folding_factor.subsequent_round,
        r.whir_config_builder.soundness_type is UniqueDecoding
            <==> p.whir_params.soundness_type is UniqueDecoding,
        r.whir_config_builder.soundness_type is JohnsonBound
            <==> p.whir_params.soundness_type is JohnsonBound,
        r.whir_config_builder.soundness_type is CapacityBound
            <==> p.whir_params.soundness_type is CapacityBound,
        r.whir_config_builder.security_level == p.whir_params.security_level,
        r.whir_config_builder.pow_bits == p.whir_params.pow_bits,
{
    broadcast use crate::whir::lemma_factors;

}

/// A folding factor has one number for the first round and one for all others.
pub proof fn folding_factors_by_round(
    first_round: usize,
    subsequent_round: usize,
    f: FoldingFactor,
    round: usize,
    r: usize,
)
    requires
        call_ensures(FoldingFactor::new, (first_round, subsequent_round), f),
        call_ensures(FoldingFactor::at_round, (&f, round), r),
    ensures
        round == 0 ==> r == first_round,
        round > 0 ==> r == subsequent_round,
{
}

/// The stored forms hold what they are made from, and give it back.
pub proof fn stored_forms_keep_their_values(
    a: SecurityAssumption,
    f: FoldingFactor,
    w: WhirConfigBuilder,
)
    ensures
        ({
            let s: SecurityAssumptionSerde = FromSpec::from_spec(a);
            let back: SecurityAssumption = FromSpec::from_spec(s);
            &&& back == a
            &&& s is UniqueDecoding <==> a is UniqueDecoding
            &&& s is JohnsonBound <==> a is JohnsonBound
            &&& s is CapacityBound <==> a is CapacityBound
        }),
        ({
            let s: FoldingFactorSerde = FromSpec::from_spec(f);
            let back: FoldingFactor = FromSpec::from_spec(s);
            back == f && s.first_round == f.factor(0) && s.subsequent_round == f.factor(1)
        }),
        ({
            let s: WhirParamsSerde = FromSpec::from_spec(&w);
            let back: WhirConfigBuilder = FromSpec::from_spec(&s);
            back == w
        }),
{
    broadcast use {crate::whir::lemma_factors, crate::whir::lemma_of_factors};

    crate::preprocessing::params_roundtrip(w, FromSpec::from_spec(&w));
}

/// The bytes of an artifact: its fields in their order, as little-endian numbers of
/// four bytes for the version and the security assumption and of eight bytes for all
/// others, and nothing else.
pub proof fn artifacts_are_stored_field_by_field(p: &AirSnarkPreprocessing, r: Vec<u8>)
    requires
        call_ensures(AirSnarkPreprocessing::to_bytes_bincode, (p,), r),
    ensures
        r@.len() == 120,
        r@.subrange(0, 4) == spec_u32_to_le_bytes(p.version),
        r@.subrange(4, 12) == spec_u64_to_le_bytes(p.log_n_rows as u64),
        r@.subrange(12, 20) == spec_u64_to_le_bytes(p.n_columns_f as u64),
        r@.subrange(20, 28) == spec_u64_to_le_bytes(p.log_smallest_decomposition_chunk as u64),
        r@.subrange(28, 36) == spec_u64_to_le_bytes(p.univariate_skips as u64),
        r@.subrange(36, 44) == spec_u64_to_le_bytes(p.whir_params.starting_log_inv_rate as u64),
        r@.subrange(44, 52) == spec_u64_to_le_bytes(
            p.whir_params.max_num_variables_to_send_coeffs as u64,
        ),
        r@.subrange(52, 60) == spec_u64_to_le_bytes(
            p.whir_params.rs_domain_initial_reduction_factor as u64,
        ),
        r@.subrange(60, 68) == spec_u64_to_le_bytes(
            p.whir_params.folding_factor.first_round as u64,
        ),
        r@.subrange(68, 76) == spec_u64_to_le_bytes(
            p.whir_params.folding_factor.subsequent_round as u64,
        ),
        r@.subrange(76, 80) == spec_u32_to_le_bytes(
            match p.whir_params.soundness_type {
                SecurityAssumptionSerde::UniqueDecoding => 0,
                SecurityAssumptionSerde::JohnsonBound => 1,
                SecurityAssumptionSerde::CapacityBound => 2,
            },
        ),
        r@.subrange(80, 88) == spec_u64_to_le_bytes(p.whir_params.security_level as u64),
        r@.subrange(88, 96) == spec_u64_to_le_bytes(p.whir_params.pow_bits as u64),
        r@.subrange(96, 104) == spec_u64_to_le_bytes(p.packed_n_vars as u64),
        r@.subrange(104, 112) == spec_u64_to_le_bytes(p.required_dft_twiddles_n as u64),
        r@.subrange(112, 120) == spec_u64_to_le_bytes(p.n_constraints as u64),
{
    let f = choose|f: Fields|
        #[trigger] holds_fields(r@, f) && crate::preprocessing::fields_of(f, *p);
    assert(spec_u64_to_le_bytes(f.1@[0]) == r@.subrange(4, 12));
    assert(spec_u64_to_le_bytes(f.1@[1]) == r@.subrange(12, 20));
    assert(spec_u64_to_le_bytes(f.1@[2]) == r@.subrange(20, 28));
    assert(spec_u64_to_le_bytes(f.1@[3]) == r@.subrange(28, 36));
    assert(spec_u64_to_le_bytes(f.1@[4]) == r@.subrange(36, 44));
    assert(spec_u64_to_le_bytes(f.1@[5]) == r@.subrange(44, 52));
    assert(spec_u64_to_le_bytes(f.1@[6]) == r@.subrange(52, 60));
    assert(spec_u64_to_le_bytes(f.1@[7]) == r@.subrange(60, 68));
    assert(spec_u64_to_le_bytes(f.1@[8]) == r@.subrange(68, 76));
    assert(spec_u64_to_le_bytes(f.3@[0]) == r@.subrange(80, 88));
    assert(spec_u64_to_le_bytes(f.3@[1]) == r@.subrange(88, 96));
    assert(spec_u64_to_le_bytes(f.3@[2]) == r@.subrange(96, 104));
    assert(spec_u64_to_le_bytes(f.3@[3]) == r@.subrange(104, 112));
    assert(spec_u64_to_le_bytes(f.3@[4]) == r@.subrange(112, 120));
}

/// What is written is read back, also where more bytes come after it.
pub proof fn stored_artifacts_are_read_back(
    p: &AirSnarkPreprocessing,
    written: Vec<u8>,
    more: Seq<u8>,
    bytes: &[u8],
    r: Result<AirSnarkPreprocessing, DecodeError>,
    direct: AirSnarkPreprocessing,
)
    requires
        call_ensures(AirSnarkPreprocessing::to_bytes_bincode, (p,), written),
        bytes@ == written@ + more,
        call_ensures(AirSnarkPreprocessing::try_from_bytes_bincode, (bytes,), r),
        call_ensures(AirSnarkPreprocessing::from_bytes_bincode, (bytes,), direct),
    ensures
        r == Ok::<AirSnarkPreprocessing, DecodeError>(*p),
        direct == *p,
{
    crate::preprocessing::trailing_bytes_are_ignored(written@, more, *p);
    assert(crate::preprocessing::holds_preprocessing(bytes@, *p));
    crate::preprocessing::stored_artifact_is_unique(bytes@, *p, r->Ok_0);
}

/// Which bytes hold no artifact, and why: there are too few of them, a number does
/// not fit, or the security assumption is none of the three.
pub proof fn bytes_are_refused_for_a_reason(
    bytes: &[u8],
    r: Result<AirSnarkPreprocessing, DecodeError>,
)
    requires
        call_ensures(AirSnarkPreprocessing::try_from_bytes_bincode, (bytes,), r),
    ensures
        ({
            let short = bytes@.len() < 120;
            let large = exists|i: int|
                #![trigger bytes@.subrange(i, i + 8)]
                (4 <= i < 76 && i % 8 == 4 || 80 <= i < 120 && i % 8 == 0)
                    && spec_u64_from_le_bytes(bytes@.subrange(i, i + 8)) > usize::MAX;
            let unknown = spec_u32_from_le_bytes(bytes@.subrange(76, 80)) > 2;
            &&& r == Err::<AirSnarkPreprocessing, DecodeError>(DecodeError::TooShort) <==> short
            &&& r == Err::<AirSnarkPreprocessing, DecodeError>(DecodeError::NumberTooLarge)
                <==> !short && large
            &&& r == Err::<AirSnarkPreprocessing, DecodeError>(DecodeError::UnknownAssumption)
                <==> !short && !large && unknown
            &&& r is Ok <==> !short && !large && !unknown
        }),
{
    lemma_auto_spec_u32_to_from_le_bytes();
    lemma_auto_spec_u64_to_from_le_bytes();
    if bytes@.len() >= 120 {
        let f = choose|f: Fields| #[trigger] holds_fields(bytes@, f);
        assert(spec_u32_to_le_bytes(f.2).len() == 4);
        assert forall|i: int| 0 <= i < 9 implies #[trigger] f.1@[i] == spec_u64_from_le_bytes(
            bytes@.subrange(4 + 8 * i, 4 + 8 * i + 8),
        ) by {
            assert(spec_u64_to_le_bytes(f.1@[i]).len() == 8);
        }
        assert forall|i: int| 0 <= i < 5 implies #[trigger] f.3@[i] == spec_u64_from_le_bytes(
            bytes@.subrange(80 + 8 * i, 80 + 8 * i + 8),
        ) by {
            assert(spec_u64_to_le_bytes(f.3@[i]).len() == 8);
        }
        assert forall|i: int|
            #![trigger bytes@.subrange(i, i + 8)]
            (4 <= i < 76 && i % 8 == 4 || 80 <= i < 120 && i % 8 == 0) && spec_u64_from_le_bytes(
                bytes@.subrange(i, i + 8),
            ) > usize::MAX implies !numbers_fit(f.1@) || !numbers_fit(f.3@) by {
            if i < 76 {
                assert(f.1@[(i - 4) / 8] == spec_u64_from_le_bytes(bytes@.subrange(i, i + 8)));
            } else {
                assert(f.3@[(i - 80) / 8] == spec_u64_from_le_bytes(bytes@.subrange(i, i + 8)));
            }
        }
        if !numbers_fit(f.1@) {
            let j = choose|j: int| 0 <= j < 9 && #[trigger] f.1@[j] > usize::MAX;
            let i = 4 + 8 * j;
            assert(spec_u64_from_le_bytes(bytes@.subrange(i, i + 8)) > usize::MAX);
        }
        if !numbers_fit(f.3@) {
            let j = choose|j: int| 0 <= j < 5 && #[trigger] f.3@[j] > usize::MAX;
            let i = 80 + 8 * j;
            assert(spec_u64_from_le_bytes(bytes@.subrange(i, i + 8)) > usize::MAX);
        }
    }
}

} // verus!
