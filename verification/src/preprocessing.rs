//! The preprocessing artifact of a fixed AIR and trace height, and its bytes.

use crate::air::{Air, AirShape};
use crate::snark::AirSnarkConfig;
use crate::whir::{
    lemma_factors, lemma_of_factors, FoldingFactor, SecurityAssumption, WhirConfigBuilder,
};
use vstd::arithmetic::power2::pow2;
use vstd::array::array_as_slice;
use vstd::bits::{lemma_usize_pow2_no_overflow, lemma_usize_shl_is_mul};
use vstd::bytes::{
    lemma_auto_spec_u32_to_from_le_bytes, lemma_auto_spec_u64_to_from_le_bytes,
    spec_u32_to_le_bytes, spec_u64_to_le_bytes,
};
use vstd::prelude::*;

verus! {

broadcast use {lemma_factors, lemma_of_factors};

/// The version of the artifact.
pub const PREPROC_VERSION: u32 = 1;

/// A security assumption as it is stored.
#[derive(Debug, Clone, Copy, PartialEq, Eq, Structural)]
pub enum SecurityAssumptionSerde {
    UniqueDecoding,
    JohnsonBound,
    CapacityBound,
}

impl vstd::std_specs::convert::FromSpecImpl<SecurityAssumption> for SecurityAssumptionSerde {
    open spec fn obeys_from_spec() -> bool {
        true
    }

    open spec fn from_spec(v: SecurityAssumption) -> Self {
        match v {
            SecurityAssumption::UniqueDecoding => SecurityAssumptionSerde::UniqueDecoding,
            SecurityAssumption::JohnsonBound => SecurityAssumptionSerde::JohnsonBound,
            SecurityAssumption::CapacityBound => SecurityAssumptionSerde::CapacityBound,
        }
    }
}

impl From<SecurityAssumption> for SecurityAssumptionSerde {
    fn from(v: SecurityAssumption) -> (r: Self) {
        match v {
            SecurityAssumption::UniqueDecoding => SecurityAssumptionSerde::UniqueDecoding,
            SecurityAssumption::JohnsonBound => SecurityAssumptionSerde::JohnsonBound,
            SecurityAssumption::CapacityBound => SecurityAssumptionSerde::CapacityBound,
        }
    }
}

impl vstd::std_specs::convert::FromSpecImpl<SecurityAssumptionSerde> for SecurityAssumption {
    open spec fn obeys_from_spec() -> bool {
        true
    }

    open spec fn from_spec(v: SecurityAssumptionSerde) -> Self {
        match v {
            SecurityAssumptionSerde::UniqueDecoding => SecurityAssumption::UniqueDecoding,
            SecurityAssumptionSerde::JohnsonBound => SecurityAssumption::JohnsonBound,
            SecurityAssumptionSerde::CapacityBound => SecurityAssumption::CapacityBound,
        }
    }
}

impl From<SecurityAssumptionSerde> for SecurityAssumption {
    fn from(v: SecurityAssumptionSerde) -> (r: Self) {
        match v {
            SecurityAssumptionSerde::UniqueDecoding => SecurityAssumption::UniqueDecoding,
            SecurityAssumptionSerde::JohnsonBound => SecurityAssumption::JohnsonBound,
            SecurityAssumptionSerde::CapacityBound => SecurityAssumption::CapacityBound,
        }
    }
}

/// A folding factor as it is stored.
#[derive(Debug, Clone, Copy, PartialEq, Eq, Structural)]
pub struct FoldingFactorSerde {
    pub first_round: usize,
    pub subsequent_round: usize,
}

impl vstd::std_specs::convert::FromSpecImpl<FoldingFactor> for FoldingFactorSerde {
    open spec fn obeys_from_spec() -> bool {
        true
    }

    open spec fn from_spec(v: FoldingFactor) -> Self {
        FoldingFactorSerde { first_round: v.factor(0), subsequent_round: v.factor(1) }
    }
}

impl From<FoldingFactor> for FoldingFactorSerde {
    fn from(v: FoldingFactor) -> (r: Self) {
        FoldingFactorSerde { first_round: v.at_round(0), subsequent_round: v.at_round(1) }
    }
}

impl vstd::std_specs::convert::FromSpecImpl<FoldingFactorSerde> for FoldingFactor {
    open spec fn obeys_from_spec() -> bool {
        true
    }

    open spec fn from_spec(v: FoldingFactorSerde) -> Self {
        FoldingFactor::of(v.first_round, v.subsequent_round)
    }
}

impl From<FoldingFactorSerde> for FoldingFactor {
    fn from(v: FoldingFactorSerde) -> (r: Self) {
        FoldingFactor::new(v.first_round, v.subsequent_round)
    }
}

/// The WHIR parameters as they are stored.
#[derive(Debug, Clone, Copy, PartialEq, Eq, Structural)]
pub struct WhirParamsSerde {
    pub starting_log_inv_rate: usize,
    pub max_num_variables_to_send_coeffs: usize,
    pub rs_domain_initial_reduction_factor: usize,
    pub folding_factor: FoldingFactorSerde,
    pub soundness_type: SecurityAssumptionSerde,
    pub security_level: usize,
    pub pow_bits: usize,
}

/// The stored form of WHIR parameters.
pub open spec fn stored_params(v: WhirConfigBuilder) -> WhirParamsSerde {
    WhirParamsSerde {
        starting_log_inv_rate: v.starting_log_inv_rate,
        max_num_variables_to_send_coeffs: v.max_num_variables_to_send_coeffs,
        rs_domain_initial_reduction_factor: v.rs_domain_initial_reduction_factor,
        folding_factor: vstd::std_specs::convert::FromSpec::from_spec(v.folding_factor),
        soundness_type: vstd::std_specs::convert::FromSpec::from_spec(v.soundness_type),
        security_level: v.security_level,
        pow_bits: v.pow_bits,
    }
}

/// The WHIR parameters that are stored.
pub open spec fn restored_params(v: WhirParamsSerde) -> WhirConfigBuilder {
    WhirConfigBuilder {
        starting_log_inv_rate: v.starting_log_inv_rate,
        max_num_variables_to_send_coeffs: v.max_num_variables_to_send_coeffs,
        rs_domain_initial_reduction_factor: v.rs_domain_initial_reduction_factor,
        folding_factor: vstd::std_specs::convert::FromSpec::from_spec(v.folding_factor),
        soundness_type: vstd::std_specs::convert::FromSpec::from_spec(v.soundness_type),
        security_level: v.security_level,
        pow_bits: v.pow_bits,
    }
}

impl<'a> vstd::std_specs::convert::FromSpecImpl<&'a WhirConfigBuilder> for WhirParamsSerde {
    open spec fn obeys_from_spec() -> bool {
        true
    }

    open spec fn from_spec(v: &'a WhirConfigBuilder) -> Self {
        stored_params(*v)
    }
}

impl<'a> From<&'a WhirConfigBuilder> for WhirParamsSerde {
    fn from(v: &'a WhirConfigBuilder) -> (r: Self) {
        WhirParamsSerde {
            starting_log_inv_rate: v.starting_log_inv_rate,
            max_num_variables_to_send_coeffs: v.max_num_variables_to_send_coeffs,
            rs_domain_initial_reduction_factor: v.rs_domain_initial_reduction_factor,
            folding_factor: FoldingFactorSerde::from(v.folding_factor),
            soundness_type: SecurityAssumptionSerde::from(v.soundness_type),
            security_level: v.security_level,
            pow_bits: v.pow_bits,
        }
    }
}

impl<'a> vstd::std_specs::convert::FromSpecImpl<&'a WhirParamsSerde> for WhirConfigBuilder {
    open spec fn obeys_from_spec() -> bool {
        true
    }

    open spec fn from_spec(v: &'a WhirParamsSerde) -> Self {
        restored_params(*v)
    }
}

impl<'a> From<&'a WhirParamsSerde> for WhirConfigBuilder {
    fn from(v: &'a WhirParamsSerde) -> (r: Self) {
        WhirConfigBuilder {
            starting_log_inv_rate: v.starting_log_inv_rate,
            max_num_variables_to_send_coeffs: v.max_num_variables_to_send_coeffs,
            rs_domain_initial_reduction_factor: v.rs_domain_initial_reduction_factor,
            folding_factor: FoldingFactor::from(v.folding_factor),
            soundness_type: SecurityAssumption::from(v.soundness_type),
            security_level: v.security_level,
            pow_bits: v.pow_bits,
        }
    }
}

/// Storing WHIR parameters and restoring them gives them back, and so does
/// restoring and storing.
pub proof fn params_roundtrip(v: WhirConfigBuilder, s: WhirParamsSerde)
    ensures
        restored_params(stored_params(v)) == v,
        stored_params(restored_params(s)) == s,
{
}

/// The preprocessing artifact of a fixed AIR and trace shape.
#[derive(Debug, Clone, Copy, PartialEq, Eq, Structural)]
pub struct AirSnarkPreprocessing {
    pub version: u32,
    pub log_n_rows: usize,
    pub n_columns_f: usize,
    pub log_smallest_decomposition_chunk: usize,
    pub univariate_skips: usize,
    pub whir_params: WhirParamsSerde,
    pub packed_n_vars: usize,
    pub required_dft_twiddles_n: usize,
    pub n_constraints: usize,
}

/// Why bytes are no preprocessing artifact.
#[derive(Debug, Clone, Copy, PartialEq, Eq, Structural)]
pub enum DecodeError {
    /// There are fewer bytes than an artifact has.
    TooShort,
    /// A number does not fit in `usize`.
    NumberTooLarge,
    /// The security assumption is none of the known ones.
    UnknownAssumption,
}

/// The fields of an artifact as plain numbers, in the order in which they are
/// stored: the version, nine numbers up to the folding factor, the index of the
/// security assumption, and the five numbers after it.
pub type Fields = (u32, [u64; 9], u32, [u64; 5]);

/// Number of bytes of a stored artifact.
pub const STORED_LEN: usize = 120;

/// The bytes hold the fields: fixed-width little-endian numbers, one after the
/// other.
pub open spec fn holds_fields(bytes: Seq<u8>, f: Fields) -> bool {
    &&& bytes.len() >= STORED_LEN
    &&& bytes.subrange(0, 4) == spec_u32_to_le_bytes(f.0)
    &&& forall|i: int|
        0 <= i < 9 ==> bytes.subrange(4 + 8 * i, 12 + 8 * i) == spec_u64_to_le_bytes(
            #[trigger] f.1@[i],
        )
    &&& bytes.subrange(76, 80) == spec_u32_to_le_bytes(f.2)
    &&& forall|i: int|
        0 <= i < 5 ==> bytes.subrange(80 + 8 * i, 88 + 8 * i) == spec_u64_to_le_bytes(
            #[trigger] f.3@[i],
        )
}

/// `bincode::serialize` on the fields: fixed-width little-endian numbers, arrays
/// and tuples without a length, and nothing else.
#[verifier::external_body]
fn write_fields(fields: &Fields) -> (r: Vec<u8>)
    ensures
        r@.len() == STORED_LEN,
        holds_fields(r@, *fields),
{
    bincode::serialize(fields).expect("bincode serialize preprocessing")
}

/// `bincode::deserialize` to the fields: it reads what `bincode::serialize`
/// writes, allows more bytes after it, and fails only where there are too few.
#[verifier::external_body]
fn read_fields(bytes: &[u8]) -> (r: Option<Fields>)
    ensures
        r is Some <==> bytes@.len() >= STORED_LEN,
        r matches Some(f) ==> holds_fields(bytes@, f),
{
    bincode::deserialize(bytes).ok()
}

/// The index of a security assumption.
pub open spec fn assumption_index(a: SecurityAssumptionSerde) -> u32 {
    match a {
        SecurityAssumptionSerde::UniqueDecoding => 0,
        SecurityAssumptionSerde::JohnsonBound => 1,
        SecurityAssumptionSerde::CapacityBound => 2,
    }
}

/// The nine numbers before the security assumption.
pub open spec fn front_numbers(p: AirSnarkPreprocessing) -> Seq<u64> {
    seq![
        p.log_n_rows as u64,
        p.n_columns_f as u64,
        p.log_smallest_decomposition_chunk as u64,
        p.univariate_skips as u64,
        p.whir_params.starting_log_inv_rate as u64,
        p.whir_params.max_num_variables_to_send_coeffs as u64,
        p.whir_params.rs_domain_initial_reduction_factor as u64,
        p.whir_params.folding_factor.first_round as u64,
        p.whir_params.folding_factor.subsequent_round as u64,
    ]
}

/// The five numbers after the security assumption.
pub open spec fn back_numbers(p: AirSnarkPreprocessing) -> Seq<u64> {
    seq![
        p.whir_params.security_level as u64,
        p.whir_params.pow_bits as u64,
        p.packed_n_vars as u64,
        p.required_dft_twiddles_n as u64,
        p.n_constraints as u64,
    ]
}

/// The fields are those of the artifact.
pub open spec fn fields_of(f: Fields, p: AirSnarkPreprocessing) -> bool {
    &&& f.0 == p.version
    &&& f.1@ == front_numbers(p)
    &&& f.2 == assumption_index(p.whir_params.soundness_type)
    &&& f.3@ == back_numbers(p)
}

/// The bytes hold the artifact, and maybe more after it.
pub open spec fn holds_preprocessing(bytes: Seq<u8>, p: AirSnarkPreprocessing) -> bool {
    exists|f: Fields| #[trigger] holds_fields(bytes, f) && fields_of(f, p)
}

/// Every number fits in `usize`.
pub open spec fn numbers_fit(s: Seq<u64>) -> bool {
    forall|i: int| 0 <= i < s.len() ==> #[trigger] s[i] <= usize::MAX
}

/// What reading fields gives.
pub open spec fn read_as(f: Fields, r: Result<AirSnarkPreprocessing, DecodeError>) -> bool {
    if !numbers_fit(f.1@) || !numbers_fit(f.3@) {
        r == Err::<AirSnarkPreprocessing, DecodeError>(DecodeError::NumberTooLarge)
    } else if f.2 > 2 {
        r == Err::<AirSnarkPreprocessing, DecodeError>(DecodeError::UnknownAssumption)
    } else {
        r matches Ok(p) && fields_of(f, p)
    }
}

/// Bytes hold one set of fields only.
proof fn lemma_fields_unique(bytes: Seq<u8>, f: Fields, h: Fields)
    requires
        holds_fields(bytes, f),
        holds_fields(bytes, h),
    ensures
        f == h,
{
    lemma_auto_spec_u32_to_from_le_bytes();
    lemma_auto_spec_u64_to_from_le_bytes();
    assert forall|i: int| 0 <= i < 9 implies f.1@[i] == h.1@[i] by {
        assert(spec_u64_to_le_bytes(f.1@[i]) == spec_u64_to_le_bytes(h.1@[i]));
    }
    assert forall|i: int| 0 <= i < 5 implies f.3@[i] == h.3@[i] by {
        assert(spec_u64_to_le_bytes(f.3@[i]) == spec_u64_to_le_bytes(h.3@[i]));
    }
    assert(spec_u32_to_le_bytes(f.0).len() == spec_u32_to_le_bytes(h.0).len());
    assert(spec_u32_to_le_bytes(f.2).len() == spec_u32_to_le_bytes(h.2).len());
    assert(f.1 =~= h.1);
    assert(f.3 =~= h.3);
}

/// Fields are those of one artifact only.
proof fn lemma_artifact_unique(f: Fields, p: AirSnarkPreprocessing, q: AirSnarkPreprocessing)
    requires
        fields_of(f, p),
        fields_of(f, q),
    ensures
        p == q,
{
    let (a, b) = (front_numbers(p), front_numbers(q));
    let (c, d) = (back_numbers(p), back_numbers(q));
    assert(a[0] == b[0] && a[1] == b[1] && a[2] == b[2] && a[3] == b[3] && a[4] == b[4] && a[5]
        == b[5] && a[6] == b[6] && a[7] == b[7] && a[8] == b[8]);
    assert(c[0] == d[0] && c[1] == d[1] && c[2] == d[2] && c[3] == d[3] && c[4] == d[4]);
}

/// Whether every number fits in `usize`.
fn all_fit(numbers: &[u64]) -> (r: bool)
    ensures
        r == numbers_fit(numbers@),
{
    let mut i: usize = 0;
    while i < numbers.len()
        invariant
            i <= numbers@.len(),
            forall|j: int| 0 <= j < i ==> #[trigger] numbers@[j] <= usize::MAX,
        decreases numbers@.len() - i,
    {
        if numbers[i] > usize::MAX as u64 {
            return false;
        }
        i = i + 1;
    }
    true
}

/// The artifact of the fields.
fn from_fields(f: &Fields) -> (r: Result<AirSnarkPreprocessing, DecodeError>)
    ensures
        read_as(*f, r),
{
    if !all_fit(array_as_slice(&f.1)) || !all_fit(array_as_slice(&f.3)) {
        return Err(DecodeError::NumberTooLarge);
    }
    let soundness_type = if f.2 == 0 {
        SecurityAssumptionSerde::UniqueDecoding
    } else if f.2 == 1 {
        SecurityAssumptionSerde::JohnsonBound
    } else if f.2 == 2 {
        SecurityAssumptionSerde::CapacityBound
    } else {
        return Err(DecodeError::UnknownAssumption);
    };
    let p = AirSnarkPreprocessing {
        version: f.0,
        log_n_rows: f.1[0] as usize,
        n_columns_f: f.1[1] as usize,
        log_smallest_decomposition_chunk: f.1[2] as usize,
        univariate_skips: f.1[3] as usize,
        whir_params: WhirParamsSerde {
            starting_log_inv_rate: f.1[4] as usize,
            max_num_variables_to_send_coeffs: f.1[5] as usize,
            rs_domain_initial_reduction_factor: f.1[6] as usize,
            folding_factor: FoldingFactorSerde {
                first_round: f.1[7] as usize,
                subsequent_round: f.1[8] as usize,
            },
            soundness_type,
            security_level: f.3[0] as usize,
            pow_bits: f.3[1] as usize,
        },
        packed_n_vars: f.3[2] as usize,
        required_dft_twiddles_n: f.3[3] as usize,
        n_constraints: f.3[4] as usize,
    };
    proof {
        assert(numbers_fit(f.1@) && numbers_fit(f.3@));
        assert(f.1@ =~= front_numbers(p));
        assert(f.3@ =~= back_numbers(p));
    }
    Ok(p)
}

/// The artifact of an AIR of fixed height, whose columns pack into a polynomial in
/// `packed_n_vars` variables.
pub open spec fn artifact_of(
    shape: AirShape,
    log_n_rows: usize,
    packed_n_vars: usize,
    config: AirSnarkConfig,
) -> AirSnarkPreprocessing {
    AirSnarkPreprocessing {
        version: PREPROC_VERSION,
        log_n_rows,
        n_columns_f: shape.n_columns_f,
        log_smallest_decomposition_chunk: config.log_smallest_decomposition_chunk,
        univariate_skips: config.univariate_skips,
        whir_params: stored_params(config.whir_config_builder),
        packed_n_vars,
        required_dft_twiddles_n: pow2(
            (packed_n_vars + config.whir_config_builder.starting_log_inv_rate
                - config.whir_config_builder.folding_factor.factor(0)) as nat,
        ) as usize,
        n_constraints: shape.n_constraints,
    }
}

/// The configuration that an artifact holds.
pub open spec fn config_of(p: AirSnarkPreprocessing) -> AirSnarkConfig {
    AirSnarkConfig {
        univariate_skips: p.univariate_skips,
        log_smallest_decomposition_chunk: p.log_smallest_decomposition_chunk,
        security_bits: p.whir_params.security_level,
        whir_config_builder: restored_params(p.whir_params),
    }
}

/// An artifact holds the configuration that it was built for, where the target
/// security is the security level of the WHIR parameters.
pub proof fn config_survives_preprocessing(
    shape: AirShape,
    log_n_rows: usize,
    packed_n_vars: usize,
    config: AirSnarkConfig,
)
    requires
        config.security_bits == config.whir_config_builder.security_level,
    ensures
        config_of(artifact_of(shape, log_n_rows, packed_n_vars, config)) == config,
{
    params_roundtrip(config.whir_config_builder, stored_params(config.whir_config_builder));
}

impl AirSnarkPreprocessing {
    /// The artifact of a base-field-only AIR of fixed height, whose columns pack
    /// into a polynomial in `packed_n_vars` variables. The commitment needs DFT
    /// twiddles up to `2^(packed_n_vars + starting_log_inv_rate - k)`, where `k`
    /// is the folding factor of the first round.
    pub fn build_for_air_base<A: Air>(
        air: &A,
        log_n_rows: usize,
        packed_n_vars: usize,
        config: &AirSnarkConfig,
    ) -> (r: Self)
        requires
            packed_n_vars + config.whir_config_builder.starting_log_inv_rate <= usize::MAX,
            packed_n_vars + config.whir_config_builder.starting_log_inv_rate
                >= config.whir_config_builder.folding_factor.factor(0),
            packed_n_vars + config.whir_config_builder.starting_log_inv_rate
                - config.whir_config_builder.folding_factor.factor(0) < usize::BITS,
        ensures
            r == artifact_of(air.shape(), log_n_rows, packed_n_vars, *config),
            r.log_n_rows == log_n_rows,
            r.packed_n_vars == packed_n_vars,
            r.n_columns_f == air.shape().n_columns_f,
            r.n_constraints == air.shape().n_constraints,
            r.required_dft_twiddles_n == pow2(
                (packed_n_vars + config.whir_config_builder.starting_log_inv_rate
                    - config.whir_config_builder.folding_factor.factor(0)) as nat,
            ),
    {
        let n_columns_f: usize = air.n_columns_f_air();
        let folding_factor_0: usize = config.whir_config_builder.folding_factor.at_round(0);
        let required_log: usize = packed_n_vars + config.whir_config_builder.starting_log_inv_rate
            - folding_factor_0;
        proof {
            lemma_usize_pow2_no_overflow(required_log as nat);
            lemma_usize_shl_is_mul(1usize, required_log);
        }
        let required_dft_twiddles_n: usize = 1usize << required_log;
        AirSnarkPreprocessing {
            version: PREPROC_VERSION,
            log_n_rows,
            n_columns_f,
            log_smallest_decomposition_chunk: config.log_smallest_decomposition_chunk,
            univariate_skips: config.univariate_skips,
            whir_params: WhirParamsSerde::from(&config.whir_config_builder),
            packed_n_vars,
            required_dft_twiddles_n,
            n_constraints: air.n_constraints(),
        }
    }

    /// The bytes of the artifact.
    pub fn to_bytes_bincode(&self) -> (r: Vec<u8>)
        ensures
            r@.len() == STORED_LEN,
            holds_preprocessing(r@, *self),
    {
        let w = &self.whir_params;
        let index: u32 = match w.soundness_type {
            SecurityAssumptionSerde::UniqueDecoding => 0,
            SecurityAssumptionSerde::JohnsonBound => 1,
            SecurityAssumptionSerde::CapacityBound => 2,
        };
        let fields = (
            self.version,
            [
                self.log_n_rows as u64,
                self.n_columns_f as u64,
                self.log_smallest_decomposition_chunk as u64,
                self.univariate_skips as u64,
                w.starting_log_inv_rate as u64,
                w.max_num_variables_to_send_coeffs as u64,
                w.rs_domain_initial_reduction_factor as u64,
                w.folding_factor.first_round as u64,
                w.folding_factor.subsequent_round as u64,
            ],
            index,
            [
                w.security_level as u64,
                w.pow_bits as u64,
                self.packed_n_vars as u64,
                self.required_dft_twiddles_n as u64,
                self.n_constraints as u64,
            ],
        );
        let r = write_fields(&fields);
        proof {
            assert(fields.1@ =~= front_numbers(*self));
            assert(fields.3@ =~= back_numbers(*self));
            assert(holds_fields(r@, fields) && fields_of(fields, *self));
        }
        r
    }

    /// The artifact that the bytes hold, if they hold one.
    pub fn try_from_bytes_bincode(bytes: &[u8]) -> (r: Result<Self, DecodeError>)
        ensures
            bytes@.len() < STORED_LEN <==> r == Err::<Self, DecodeError>(DecodeError::TooShort),
            forall|f: Fields| #[trigger] holds_fields(bytes@, f) ==> read_as(f, r),
            bytes@.len() >= STORED_LEN ==> exists|f: Fields| #[trigger] holds_fields(bytes@, f),
            r is Ok <==> exists|p: AirSnarkPreprocessing| #[trigger] holds_preprocessing(bytes@, p),
            r matches Ok(p) ==> holds_preprocessing(bytes@, p),
    {
        match read_fields(bytes) {
            None => Err(DecodeError::TooShort),
            Some(fields) => {
                let r = from_fields(&fields);
                proof {
                    assert forall|f: Fields| #[trigger] holds_fields(bytes@, f) implies read_as(
                        f,
                        r,
                    ) by {
                        lemma_fields_unique(bytes@, f, fields);
                    }
                    if r is Ok {
                        assert(holds_preprocessing(bytes@, r->Ok_0));
                    }
                    if exists|p: AirSnarkPreprocessing| #[trigger] holds_preprocessing(bytes@, p) {
                        let p = choose|p: AirSnarkPreprocessing|
                            #[trigger] holds_preprocessing(bytes@, p);
                        let f = choose|f: Fields|
                            #[trigger] holds_fields(bytes@, f) && fields_of(f, p);
                        lemma_fields_unique(bytes@, f, fields);
                        lemma_numbers_fit(p);
                    }
                }
                r
            },
        }
    }

    /// The artifact that the bytes hold.
    pub fn from_bytes_bincode(bytes: &[u8]) -> (r: Self)
        requires
            exists|p: AirSnarkPreprocessing| #[trigger] holds_preprocessing(bytes@, p),
        ensures
            holds_preprocessing(bytes@, r),
            forall|p: AirSnarkPreprocessing|
                #[trigger] holds_preprocessing(bytes@, p) ==> p == r,
    {
        let r = AirSnarkPreprocessing::try_from_bytes_bincode(bytes).unwrap();
        proof {
            assert forall|p: AirSnarkPreprocessing|
                #[trigger] holds_preprocessing(bytes@, p) implies p == r by {
                stored_artifact_is_unique(bytes@, p, r);
            }
        }
        r
    }

    /// The configuration that the artifact was built for. The target security is
    /// the security level of the stored WHIR parameters.
    pub fn to_config(&self) -> (r: AirSnarkConfig)
        ensures
            r == config_of(*self),
    {
        AirSnarkConfig {
            univariate_skips: self.univariate_skips,
            log_smallest_decomposition_chunk: self.log_smallest_decomposition_chunk,
            security_bits: self.whir_params.security_level,
            whir_config_builder: WhirConfigBuilder::from(&self.whir_params),
        }
    }
}

proof fn lemma_numbers_fit(p: AirSnarkPreprocessing)
    ensures
        numbers_fit(front_numbers(p)),
        numbers_fit(back_numbers(p)),
{
}

/// Bytes hold one artifact at most: what is read is what was written.
pub proof fn stored_artifact_is_unique(
    bytes: Seq<u8>,
    p: AirSnarkPreprocessing,
    q: AirSnarkPreprocessing,
)
    requires
        holds_preprocessing(bytes, p),
        holds_preprocessing(bytes, q),
    ensures
        p == q,
{
    let f = choose|f: Fields| #[trigger] holds_fields(bytes, f) && fields_of(f, p);
    let h = choose|h: Fields| #[trigger] holds_fields(bytes, h) && fields_of(h, q);
    lemma_fields_unique(bytes, f, h);
    lemma_artifact_unique(f, p, q);
}

/// Bytes that hold an artifact still hold it with anything after them, so that
/// reading gives back what was written.
pub proof fn trailing_bytes_are_ignored(bytes: Seq<u8>, more: Seq<u8>, p: AirSnarkPreprocessing)
    requires
        holds_preprocessing(bytes, p),
    ensures
        holds_preprocessing(bytes + more, p),
{
    let f = choose|f: Fields| #[trigger] holds_fields(bytes, f) && fields_of(f, p);
    let all = bytes + more;
    assert(all.subrange(0, 4) =~= bytes.subrange(0, 4));
    assert(all.subrange(76, 80) =~= bytes.subrange(76, 80));
    assert forall|i: int| 0 <= i < 9 implies all.subrange(4 + 8 * i, 12 + 8 * i)
        == spec_u64_to_le_bytes(#[trigger] f.1@[i]) by {
        assert(all.subrange(4 + 8 * i, 12 + 8 * i) =~= bytes.subrange(4 + 8 * i, 12 + 8 * i));
    }
    assert forall|i: int| 0 <= i < 5 implies all.subrange(80 + 8 * i, 88 + 8 * i)
        == spec_u64_to_le_bytes(#[trigger] f.3@[i]) by {
        assert(all.subrange(80 + 8 * i, 88 + 8 * i) =~= bytes.subrange(80 + 8 * i, 88 + 8 * i));
    }
    assert(holds_fields(all, f));
}

} // verus!
