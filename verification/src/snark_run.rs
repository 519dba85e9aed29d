//! The course of a proof: which part of the transcript comes next, for a prover
//! that writes it and for a verifier that reads it.
//!
//! Both pass through the same stages. The commitment, the AIR proof, the packed
//! statements and the openings themselves are made and checked by the proof
//! system around this library.

use crate::air::{Air, AirShape};
use crate::field::{lemma_felt_range, lemma_of_int, Felt, Ring, RingModel, KOALA_BEAR_PRIME};
use crate::snark::{
    ceil_log2, grinding_bits, is_power_of_two, pow_bits_auto, row_log, whir_builder_with_security,
    with_security, AirSnarkConfig, AirSnarkTraceLayout,
};
use crate::snark_setup::{
    base_field_only, check_verifier_layout, is_base_field_only, layout_verdict, prover_verdict,
    verifier_accepts_what_prover_accepts, LayoutFault, SetupError,
};
use crate::whir::WhirConfigBuilder;
use vstd::arithmetic::power2::{
    lemma2_to64, lemma2_to64_rest, lemma_pow2_strictly_increases, lemma_pow2_unfold, pow2,
};
use vstd::prelude::*;

verus! {

broadcast use {lemma_felt_range, lemma_of_int};

/// How far a proof has come.
#[derive(Debug, Clone, Copy, PartialEq, Eq, Structural)]
pub enum Stage {
    /// The number of rows.
    Rows,
    /// The values of the row after the last one.
    Shifted,
    /// The grinding checkpoint, one at the entry of the proof: it comes before the
    /// commitment on both sides.
    Grinding,
    /// The commitment to the trace columns.
    Commitment,
    /// The AIR proof.
    Constraints,
    /// The packed opening statements.
    Statements,
    /// The openings.
    Openings,
    /// Nothing is left.
    Done,
}

/// The stage after another.
pub open spec fn next_stage(s: Stage) -> Stage {
    match s {
        Stage::Rows => Stage::Shifted,
        Stage::Shifted => Stage::Grinding,
        Stage::Grinding => Stage::Commitment,
        Stage::Commitment => Stage::Constraints,
        Stage::Constraints => Stage::Statements,
        Stage::Statements => Stage::Openings,
        Stage::Openings => Stage::Done,
        Stage::Done => Stage::Done,
    }
}

/// What the parts of a transcript are sized and parametrised by.
#[derive(Debug, Clone, Copy, PartialEq, Eq, Structural)]
pub struct SnarkPlan {
    pub n_rows: usize,
    pub log_n_rows: usize,
    pub n_shifted: usize,
    pub grinding_bits: usize,
    pub univariate_skips: usize,
    pub log_smallest_decomposition_chunk: usize,
    pub whir: WhirConfigBuilder,
}

/// The part of the transcript that a stage writes or reads.
#[derive(Debug, Clone, Copy, PartialEq, Eq, Structural)]
pub enum Segment {
    /// One base-field scalar: the number of rows.
    Rows,
    /// `n` base-field scalars: the shifted values.
    Shifted { n: usize },
    /// A proof of work of `bits` bits.
    Grinding { bits: usize },
    /// A commitment to the packed columns.
    Commitment { whir: WhirConfigBuilder, log_smallest_decomposition_chunk: usize },
    /// A proof of the AIR constraints.
    Constraints { univariate_skips: usize, log_n_rows: usize },
    /// The opening statements of the columns, packed.
    Statements { log_smallest_decomposition_chunk: usize },
    /// A proof of the openings.
    Openings { whir: WhirConfigBuilder },
    /// The end.
    End,
}

/// The plan of a proof about `n_rows` rows, with challenges in an extension field
/// of `field_bits` bits.
pub open spec fn plan_of(
    shape: AirShape,
    field_bits: usize,
    config: AirSnarkConfig,
    n_rows: usize,
) -> SnarkPlan {
    SnarkPlan {
        n_rows,
        log_n_rows: ceil_log2(n_rows as nat) as usize,
        n_shifted: shape.down_f.len() as usize,
        grinding_bits: grinding_bits(
            config.security_bits,
            field_bits,
            shape.n_constraints,
        ) as usize,
        univariate_skips: config.univariate_skips,
        log_smallest_decomposition_chunk: config.log_smallest_decomposition_chunk,
        whir: with_security(config.whir_config_builder, config.security_bits),
    }
}

/// The part of the transcript that a stage writes or reads.
pub open spec fn segment_at(plan: SnarkPlan, stage: Stage) -> Segment {
    match stage {
        Stage::Rows => Segment::Rows,
        Stage::Shifted => Segment::Shifted { n: plan.n_shifted },
        Stage::Grinding => Segment::Grinding { bits: plan.grinding_bits },
        Stage::Commitment => Segment::Commitment {
            whir: plan.whir,
            log_smallest_decomposition_chunk: plan.log_smallest_decomposition_chunk,
        },
        Stage::Constraints => Segment::Constraints {
            univariate_skips: plan.univariate_skips,
            log_n_rows: plan.log_n_rows,
        },
        Stage::Statements => Segment::Statements {
            log_smallest_decomposition_chunk: plan.log_smallest_decomposition_chunk,
        },
        Stage::Openings => Segment::Openings { whir: plan.whir },
        Stage::Done => Segment::End,
    }
}

impl Stage {
    /// The stage after this one.
    pub fn next(self) -> (r: Stage)
        ensures
            r == next_stage(self),
    {
        match self {
            Stage::Rows => Stage::Shifted,
            Stage::Shifted => Stage::Grinding,
            Stage::Grinding => Stage::Commitment,
            Stage::Commitment => Stage::Constraints,
            Stage::Constraints => Stage::Statements,
            Stage::Statements => Stage::Openings,
            Stage::Openings => Stage::Done,
            Stage::Done => Stage::Done,
        }
    }
}

impl SnarkPlan {
    /// The plan of a proof about `n_rows` rows, with logarithm `log_n_rows`.
    fn make<A: Air>(
        air: &A,
        field_bits: usize,
        config: &AirSnarkConfig,
        n_rows: usize,
        log_n_rows: usize,
    ) -> (r: SnarkPlan)
        requires
            air.shape().n_constraints < usize::MAX,
            log_n_rows == ceil_log2(n_rows as nat) as usize,
        ensures
            r == plan_of(air.shape(), field_bits, *config, n_rows),
            r.n_shifted == air.shape().down_f.len(),
    {
        SnarkPlan {
            n_rows,
            log_n_rows,
            n_shifted: air.down_column_indexes_f().len(),
            grinding_bits: pow_bits_auto(config.security_bits, field_bits, air.n_constraints()),
            univariate_skips: config.univariate_skips,
            log_smallest_decomposition_chunk: config.log_smallest_decomposition_chunk,
            whir: whir_builder_with_security(config.whir_config_builder, config.security_bits),
        }
    }

    /// The part of the transcript that a stage writes or reads.
    pub fn segment(&self, stage: Stage) -> (r: Segment)
        ensures
            r == segment_at(*self, stage),
    {
        match stage {
            Stage::Rows => Segment::Rows,
            Stage::Shifted => Segment::Shifted { n: self.n_shifted },
            Stage::Grinding => Segment::Grinding { bits: self.grinding_bits },
            Stage::Commitment => Segment::Commitment {
                whir: self.whir,
                log_smallest_decomposition_chunk: self.log_smallest_decomposition_chunk,
            },
            Stage::Constraints => Segment::Constraints {
                univariate_skips: self.univariate_skips,
                log_n_rows: self.log_n_rows,
            },
            Stage::Statements => Segment::Statements {
                log_smallest_decomposition_chunk: self.log_smallest_decomposition_chunk,
            },
            Stage::Openings => Segment::Openings { whir: self.whir },
            Stage::Done => Segment::End,
        }
    }
}

/// A proof in the making.
#[derive(Debug)]
pub struct ProverRun {
    pub plan: SnarkPlan,
    pub stage: Stage,
    /// The values of the row after the last one.
    pub last_row_shifted_f: Vec<Felt>,
}

/// The same values again.
fn copied(values: &Vec<Felt>) -> (r: Vec<Felt>)
    ensures
        r@ == values@,
{
    let mut r: Vec<Felt> = Vec::with_capacity(values.len());
    let mut i: usize = 0;
    while i < values.len()
        invariant
            i <= values@.len(),
            r@ =~= values@.take(i as int),
        decreases values@.len() - i,
    {
        r.push(values[i]);
        i = i + 1;
    }
    assert(r@ =~= values@);
    r
}

/// The base-field scalars that a prover writes: the number of rows, then the
/// shifted values, and none later on.
pub open spec fn scalars_at(plan: SnarkPlan, stage: Stage, shifted: Seq<Felt>) -> Seq<Felt> {
    match stage {
        Stage::Rows => seq![Felt::elem(plan.n_rows as nat)],
        Stage::Shifted => shifted,
        _ => Seq::empty(),
    }
}

impl ProverRun {
    /// What to write next.
    pub fn segment(&self) -> (r: Segment)
        ensures
            r == segment_at(self.plan, self.stage),
    {
        self.plan.segment(self.stage)
    }

    /// The scalars that the current segment consists of, in the first two stages.
    pub fn scalars(&self) -> (r: Vec<Felt>)
        ensures
            r@ == scalars_at(self.plan, self.stage, self.last_row_shifted_f@),
            self.stage == Stage::Rows ==> r@ == seq![Felt::elem(self.plan.n_rows as nat)],
            self.stage == Stage::Shifted ==> r@ == self.last_row_shifted_f@,
    {
        match self.stage {
            Stage::Rows => {
                let mut r: Vec<Felt> = Vec::with_capacity(1);
                r.push(Felt::from_usize(self.plan.n_rows));
                assert(r@ =~= seq![Felt::elem(self.plan.n_rows as nat)]);
                r
            },
            Stage::Shifted => copied(&self.last_row_shifted_f),
            _ => Vec::new(),
        }
    }

    /// The run after the current segment is written.
    pub fn advance(self) -> (r: ProverRun)
        ensures
            r.plan == self.plan,
            r.stage == next_stage(self.stage),
            r.last_row_shifted_f == self.last_row_shifted_f,
    {
        ProverRun {
            plan: self.plan,
            stage: self.stage.next(),
            last_row_shifted_f: self.last_row_shifted_f,
        }
    }
}

/// Begin to prove a single AIR and to bind it to a WHIR commitment to the trace
/// columns.
///
/// The prover supplies the trace columns and the values of the row after the last
/// one. The run keeps those values, and they are the scalars of its second stage:
/// they go into the transcript in the clear, so that the verifier can recover them.
/// [`crate::snark_setup::check_prover_inputs`] tells whether the inputs fit together.
pub fn prove_single_air_with_whir<A: Air>(
    air: &A,
    field_bits: usize,
    config: &AirSnarkConfig,
    layout: &AirSnarkTraceLayout<Felt>,
    columns_f: &Vec<Vec<Felt>>,
    n_columns_ef: usize,
    last_row_shifted_f: &Vec<Felt>,
    n_last_row_shifted_ef: usize,
) -> (run: ProverRun)
    requires
        air.shape().n_constraints < usize::MAX,
        prover_verdict(
            air.shape(),
            *layout,
            columns_f@,
            n_columns_ef,
            last_row_shifted_f@.len(),
            n_last_row_shifted_ef,
        ) is Ok,
    ensures
        run.stage == Stage::Rows,
        run.plan == plan_of(air.shape(), field_bits, *config, columns_f@[0]@.len() as usize),
        run.plan.n_rows == columns_f@[0]@.len(),
        prover_verdict(
            air.shape(),
            *layout,
            columns_f@,
            n_columns_ef,
            last_row_shifted_f@.len(),
            n_last_row_shifted_ef,
        ) == Ok::<usize, SetupError>(run.plan.log_n_rows),
        run.last_row_shifted_f@ == last_row_shifted_f@,
{
    let n_rows: usize = columns_f[0].len();
    let log: usize = match row_log(n_rows) {
        Some(log) => log,
        None => 0,
    };
    ProverRun {
        plan: SnarkPlan::make(air, field_bits, config, n_rows, log),
        stage: Stage::Rows,
        last_row_shifted_f: copied(last_row_shifted_f),
    }
}

/// Begin to prove a single AIR over base-field trace columns.
pub fn prove_single_air_with_whir_base<A: Air>(
    air: &A,
    field_bits: usize,
    config: &AirSnarkConfig,
    layout: &AirSnarkTraceLayout<Felt>,
    columns_f: &Vec<Vec<Felt>>,
    last_row_shifted_f: &Vec<Felt>,
) -> (run: ProverRun)
    requires
        air.shape().n_constraints < usize::MAX,
        prover_verdict(
            air.shape(),
            *layout,
            columns_f@,
            0,
            last_row_shifted_f@.len(),
            0,
        ) is Ok,
    ensures
        run.stage == Stage::Rows,
        run.plan == plan_of(air.shape(), field_bits, *config, columns_f@[0]@.len() as usize),
        run.plan.n_rows == columns_f@[0]@.len(),
        prover_verdict(air.shape(), *layout, columns_f@, 0, last_row_shifted_f@.len(), 0)
            == Ok::<usize, SetupError>(run.plan.log_n_rows),
        run.last_row_shifted_f@ == last_row_shifted_f@,
{
    prove_single_air_with_whir(
        air,
        field_bits,
        config,
        layout,
        columns_f,
        0,
        last_row_shifted_f,
        0,
    )
}

/// Why a proof is not accepted.
#[derive(Debug, Clone, Copy, PartialEq, Eq, Structural)]
pub enum VerifierError<E> {
    /// The AIR or the layout rules a valid proof out.
    InvalidProof,
    /// The inputs of the verifier do not fit together.
    Setup(SetupError),
    /// The proof system found a part of the transcript to be wrong.
    Transcript(E),
}

/// What came of reading a segment.
#[derive(Debug)]
pub enum Reply<E> {
    /// The scalars of one of the first two stages.
    Scalars(Vec<Felt>),
    /// The segment was read, and is right.
    Read,
    /// The segment is missing or wrong.
    Failed(E),
}

/// A proof that is being read.
#[derive(Debug)]
pub struct VerifierRun {
    pub plan: SnarkPlan,
    pub stage: Stage,
    /// The values of the row after the last one, once they are read.
    pub last_row_shifted_f: Vec<Felt>,
}

/// Begin to verify a proof of [`prove_single_air_with_whir`].
pub fn verify_single_air_with_whir<A: Air, E>(
    air: &A,
    field_bits: usize,
    config: &AirSnarkConfig,
) -> (r: Result<VerifierRun, VerifierError<E>>)
    requires
        air.shape().n_constraints < usize::MAX,
    ensures
        if base_field_only(air.shape()) {
            r matches Ok(run) && run.stage == Stage::Rows && run.last_row_shifted_f@
                == Seq::<Felt>::empty() && run.plan == plan_of(
                air.shape(),
                field_bits,
                *config,
                0,
            ) && run.plan.n_shifted == air.shape().down_f.len()
        } else {
            r == Err::<VerifierRun, VerifierError<E>>(VerifierError::InvalidProof)
        },
{
    if !is_base_field_only(air) {
        return Err(VerifierError::InvalidProof);
    }
    Ok(
        VerifierRun {
            plan: SnarkPlan::make(air, field_bits, config, 0, 0),
            stage: Stage::Rows,
            last_row_shifted_f: Vec::new(),
        },
    )
}

/// Begin to verify a proof of [`prove_single_air_with_whir_base`].
pub fn verify_single_air_with_whir_base<A: Air, E>(
    air: &A,
    field_bits: usize,
    config: &AirSnarkConfig,
) -> (r: Result<VerifierRun, VerifierError<E>>)
    requires
        air.shape().n_constraints < usize::MAX,
    ensures
        if base_field_only(air.shape()) {
            r matches Ok(run) && run.stage == Stage::Rows && run.last_row_shifted_f@
                == Seq::<Felt>::empty() && run.plan == plan_of(
                air.shape(),
                field_bits,
                *config,
                0,
            ) && run.plan.n_shifted == air.shape().down_f.len()
        } else {
            r == Err::<VerifierRun, VerifierError<E>>(VerifierError::InvalidProof)
        },
{
    verify_single_air_with_whir(air, field_bits, config)
}

/// The plan with another number of rows.
pub open spec fn with_rows(plan: SnarkPlan, n_rows: usize) -> SnarkPlan {
    SnarkPlan { n_rows, log_n_rows: ceil_log2(n_rows as nat) as usize, ..plan }
}

/// What comes of reading the current segment: the next run, or the reason to stop.
pub open spec fn step_of<E>(
    run: VerifierRun,
    shape: AirShape,
    layout: AirSnarkTraceLayout<Felt>,
    reply: Reply<E>,
) -> Result<VerifierRun, VerifierError<E>> {
    match reply {
        Reply::Failed(e) => Err(VerifierError::Transcript(e)),
        Reply::Read => Ok(VerifierRun { stage: next_stage(run.stage), ..run }),
        Reply::Scalars(v) => if run.stage == Stage::Rows {
            if is_power_of_two(v@[0]@ as nat) {
                Ok(
                    VerifierRun {
                        plan: with_rows(run.plan, v@[0]@ as usize),
                        stage: Stage::Shifted,
                        ..run
                    },
                )
            } else {
                Err(VerifierError::Setup(SetupError::RowsNotPowerOfTwo))
            }
        } else {
            match layout_verdict(shape, layout, run.plan.log_n_rows) {
                Ok(_) => Ok(
                    VerifierRun { stage: Stage::Grinding, last_row_shifted_f: v, ..run },
                ),
                Err(LayoutFault::InvalidProof) => Err(VerifierError::InvalidProof),
                Err(LayoutFault::Setup(e)) => Err(VerifierError::Setup(e)),
            }
        },
    }
}

/// What comes of reading segment after segment, from the first reply to the last.
pub open spec fn run_of<E>(
    run: VerifierRun,
    shape: AirShape,
    layout: AirSnarkTraceLayout<Felt>,
    replies: Seq<Reply<E>>,
) -> Result<VerifierRun, VerifierError<E>>
    decreases replies.len(),
{
    if replies.len() == 0 {
        Ok(run)
    } else {
        match run_of(run, shape, layout, replies.drop_last()) {
            Ok(before) => step_of(before, shape, layout, replies.last()),
            Err(e) => Err(e),
        }
    }
}

impl VerifierRun {
    /// The replies that reading the current segment can give.
    pub open spec fn expects<E>(self, reply: Reply<E>) -> bool {
        match reply {
            Reply::Scalars(v) => {
                ||| self.stage == Stage::Rows && v@.len() == 1
                ||| self.stage == Stage::Shifted && v@.len() == self.plan.n_shifted
            },
            Reply::Read => self.stage != Stage::Rows && self.stage != Stage::Shifted && self.stage
                != Stage::Done,
            Reply::Failed(_) => self.stage != Stage::Done,
        }
    }

    /// What to read next.
    pub fn segment(&self) -> (r: Segment)
        ensures
            r == segment_at(self.plan, self.stage),
    {
        self.plan.segment(self.stage)
    }

    /// The run after the current segment is read. The number of rows must be a
    /// power of two; once the shifted values are read, the layout must fit; a
    /// failure of the proof system ends the run.
    pub fn step<A: Air, E>(
        self,
        air: &A,
        layout: &AirSnarkTraceLayout<Felt>,
        reply: Reply<E>,
    ) -> (r: Result<VerifierRun, VerifierError<E>>)
        requires
            self.expects(reply),
        ensures
            r == step_of(self, air.shape(), *layout, reply),
    {
        match reply {
            Reply::Failed(e) => Err(VerifierError::Transcript(e)),
            Reply::Read => Ok(
                VerifierRun {
                    plan: self.plan,
                    stage: self.stage.next(),
                    last_row_shifted_f: self.last_row_shifted_f,
                },
            ),
            Reply::Scalars(v) => {
                if self.stage == Stage::Rows {
                    let n_rows: usize = v[0].to_usize();
                    match row_log(n_rows) {
                        None => Err(VerifierError::Setup(SetupError::RowsNotPowerOfTwo)),
                        Some(log) => {
                            let mut plan = self.plan;
                            plan.n_rows = n_rows;
                            plan.log_n_rows = log;
                            Ok(
                                VerifierRun {
                                    plan,
                                    stage: Stage::Shifted,
                                    last_row_shifted_f: self.last_row_shifted_f,
                                },
                            )
                        },
                    }
                } else {
                    match check_verifier_layout(air, layout, self.plan.log_n_rows) {
                        Ok(_) => Ok(
                            VerifierRun {
                                plan: self.plan,
                                stage: Stage::Grinding,
                                last_row_shifted_f: v,
                            },
                        ),
                        Err(LayoutFault::InvalidProof) => Err(VerifierError::InvalidProof),
                        Err(LayoutFault::Setup(e)) => Err(VerifierError::Setup(e)),
                    }
                }
            },
        }
    }
}

/// A claim that a column takes a value at a point.
#[derive(Debug, Clone)]
pub struct Evaluation<E> {
    pub point: Vec<E>,
    pub value: E,
}

/// The opening statements of the columns: each column takes its value at the one
/// point that the AIR proof ends in.
pub fn opening_statements<E: Copy>(point: &Vec<E>, evals_f: &Vec<E>) -> (r: Vec<
    Vec<Evaluation<E>>,
>)
    ensures
        r@.len() == evals_f@.len(),
        forall|i: int|
            0 <= i < evals_f@.len() ==> (#[trigger] r@[i])@.len() == 1 && r@[i]@[0].point@ == point@
                && r@[i]@[0].value == evals_f@[i],
{
    let mut statements: Vec<Vec<Evaluation<E>>> = Vec::with_capacity(evals_f.len());
    let mut i: usize = 0;
    while i < evals_f.len()
        invariant
            i <= evals_f@.len(),
            statements@.len() == i,
            forall|j: int|
                0 <= j < i ==> (#[trigger] statements@[j])@.len() == 1
                    && statements@[j]@[0].point@ == point@ && statements@[j]@[0].value
                    == evals_f@[j],
        decreases evals_f@.len() - i,
    {
        let mut copy: Vec<E> = Vec::with_capacity(point.len());
        let mut k: usize = 0;
        while k < point.len()
            invariant
                k <= point@.len(),
                copy@ =~= point@.take(k as int),
            decreases point@.len() - k,
        {
            copy.push(point[k]);
            k = k + 1;
        }
        assert(copy@ =~= point@);
        let mut of_column: Vec<Evaluation<E>> = Vec::with_capacity(1);
        of_column.push(Evaluation { point: copy, value: evals_f[i] });
        statements.push(of_column);
        i = i + 1;
    }
    statements
}

/// The number of rows of a trace survives the transcript, as long as it is below
/// the order of the field.
pub proof fn rows_survive_transcript(n_rows: usize)
    requires
        n_rows < KOALA_BEAR_PRIME,
    ensures
        Felt::elem(n_rows as nat)@ == n_rows,
{
}

/// A number between two neighbouring powers of two is none itself.
proof fn lemma_between_powers(n: nat, j: nat)
    requires
        pow2(j) < n < pow2(j + 1),
    ensures
        !is_power_of_two(n),
{
    let c = ceil_log2(n);
    if c < j {
        lemma_pow2_strictly_increases(c, j);
    }
    if c > j + 1 {
        lemma_pow2_strictly_increases(j + 1, c);
    }
}

/// A power of two that is congruent to `r`, between the powers `j` and `j + 1`.
proof fn lemma_reduced_power_is(l: nat, r: nat, j: nat)
    requires
        pow2(l) % KOALA_BEAR_PRIME as nat == r,
        pow2(j) < r < 2 * pow2(j),
    ensures
        !is_power_of_two(pow2(l) % KOALA_BEAR_PRIME as nat),
{
    lemma_pow2_unfold(j + 1);
    lemma_between_powers(r, j);
}

/// Powers of two from the order of the field on are congruent to none below it.
proof fn lemma_reduced_power(l: nat)
    requires
        31 <= l < 48,
    ensures
        !is_power_of_two(pow2(l) % KOALA_BEAR_PRIME as nat),
{
    lemma2_to64();
    lemma2_to64_rest();
    if l == 31 {
        lemma_reduced_power_is(l, 16777215, 23);
    } else if l == 32 {
        lemma_reduced_power_is(l, 33554430, 24);
    } else if l == 33 {
        lemma_reduced_power_is(l, 67108860, 25);
    } else if l == 34 {
        lemma_reduced_power_is(l, 134217720, 26);
    } else if l == 35 {
        lemma_reduced_power_is(l, 268435440, 27);
    } else if l == 36 {
        lemma_reduced_power_is(l, 536870880, 28);
    } else if l == 37 {
        lemma_reduced_power_is(l, 1073741760, 29);
    } else if l == 38 {
        lemma_reduced_power_is(l, 16777087, 23);
    } else if l == 39 {
        lemma_reduced_power_is(l, 33554174, 24);
    } else if l == 40 {
        lemma_reduced_power_is(l, 67108348, 25);
    } else if l == 41 {
        lemma_reduced_power_is(l, 134216696, 26);
    } else if l == 42 {
        lemma_reduced_power_is(l, 268433392, 27);
    } else if l == 43 {
        lemma_reduced_power_is(l, 536866784, 28);
    } else if l == 44 {
        lemma_reduced_power_is(l, 1073733568, 29);
    } else if l == 45 {
        lemma_reduced_power_is(l, 16760703, 23);
    } else if l == 46 {
        lemma_reduced_power_is(l, 33521406, 24);
    } else if l == 47 {
        lemma_reduced_power_is(l, 67042812, 25);
    }
}

/// Larger powers of two are congruent to none below the order of the field either.
proof fn lemma_reduced_large_power(l: nat)
    requires
        48 <= l < 64,
    ensures
        !is_power_of_two(pow2(l) % KOALA_BEAR_PRIME as nat),
{
    lemma2_to64();
    lemma2_to64_rest();
    if l == 48 {
        lemma_reduced_power_is(l, 134085624, 26);
    } else if l == 49 {
        lemma_reduced_power_is(l, 268171248, 27);
    } else if l == 50 {
        lemma_reduced_power_is(l, 536342496, 28);
    } else if l == 51 {
        lemma_reduced_power_is(l, 1072684992, 29);
    } else if l == 52 {
        lemma_reduced_power_is(l, 14663551, 23);
    } else if l == 53 {
        lemma_reduced_power_is(l, 29327102, 24);
    } else if l == 54 {
        lemma_reduced_power_is(l, 58654204, 25);
    } else if l == 55 {
        lemma_reduced_power_is(l, 117308408, 26);
    } else if l == 56 {
        lemma_reduced_power_is(l, 234616816, 27);
    } else if l == 57 {
        lemma_reduced_power_is(l, 469233632, 28);
    } else if l == 58 {
        lemma_reduced_power_is(l, 938467264, 29);
    } else if l == 59 {
        lemma_reduced_power_is(l, 1876934528, 30);
    } else if l == 60 {
        lemma_reduced_power_is(l, 1623162623, 30);
    } else if l == 61 {
        lemma_reduced_power_is(l, 1115618813, 30);
    } else if l == 62 {
        lemma_reduced_power_is(l, 100531193, 26);
    } else if l == 63 {
        lemma_reduced_power_is(l, 201062386, 27);
    }
}

/// A number of rows from the order of the field on does not survive the transcript:
/// what is read in its place is no power of two, and the verifier stops there.
pub proof fn long_traces_are_refused<E>(
    n_rows: usize,
    shape: AirShape,
    layout: AirSnarkTraceLayout<Felt>,
    first: VerifierRun,
    rows: Vec<Felt>,
)
    requires
        is_power_of_two(n_rows as nat),
        n_rows >= KOALA_BEAR_PRIME,
        first.stage == Stage::Rows,
        rows@ == seq![Felt::elem(n_rows as nat)],
    ensures
        step_of(first, shape, layout, Reply::<E>::Scalars(rows)) == Err::<
            VerifierRun,
            VerifierError<E>,
        >(VerifierError::Setup(SetupError::RowsNotPowerOfTwo)),
{
    let l = ceil_log2(n_rows as nat);
    lemma2_to64();
    if l < 31 {
        lemma_pow2_strictly_increases(l, 31);
        if l < 30 {
            lemma_pow2_strictly_increases(l, 30);
        }
    }
    if l > 64 {
        lemma_pow2_strictly_increases(64, l);
    }
    if l < 48 {
        lemma_reduced_power(l);
    } else {
        lemma_reduced_large_power(l);
    }
    assert(rows@[0]@ == pow2(l) as int % KOALA_BEAR_PRIME as int);
}

/// A verifier reads what a prover writes. From inputs that the prover accepts, a
/// verifier with the same AIR, configuration and layout that reads the scalars that
/// the prover writes expects as many as there are, accepts them, and recovers the
/// shifted values; from then on both have the same plan, so that every segment that
/// is written is the segment that is read.
pub proof fn verifier_reads_what_prover_writes(
    shape: AirShape,
    field_bits: usize,
    config: AirSnarkConfig,
    layout: AirSnarkTraceLayout<Felt>,
    columns: Seq<Vec<Felt>>,
    shifted: Seq<Felt>,
    first: VerifierRun,
    rows: Vec<Felt>,
    second: VerifierRun,
    values: Vec<Felt>,
)
    requires
        prover_verdict(shape, layout, columns, 0, shifted.len(), 0) is Ok,
        columns[0]@.len() < KOALA_BEAR_PRIME,
        first.stage == Stage::Rows,
        first.plan == plan_of(shape, field_bits, config, 0),
        rows@ == scalars_at(
            plan_of(shape, field_bits, config, columns[0]@.len() as usize),
            Stage::Rows,
            shifted,
        ),
        second.stage == Stage::Shifted,
        second.plan == with_rows(first.plan, rows@[0]@ as usize),
        values@ == scalars_at(
            plan_of(shape, field_bits, config, columns[0]@.len() as usize),
            Stage::Shifted,
            shifted,
        ),
    ensures
        ({
            let written = plan_of(shape, field_bits, config, columns[0]@.len() as usize);
            &&& base_field_only(shape)
            &&& segment_at(first.plan, Stage::Rows) == segment_at(written, Stage::Rows)
            &&& first.expects::<()>(Reply::Scalars(rows))
            &&& is_power_of_two(rows@[0]@ as nat)
            &&& second.expects::<()>(Reply::Scalars(values))
            &&& layout_verdict(shape, layout, second.plan.log_n_rows) == Ok::<(), LayoutFault>(())
            &&& values@ == shifted
            &&& second.plan == written
            &&& forall|stage: Stage| #[trigger]
                segment_at(second.plan, stage) == segment_at(written, stage)
        }),
{
    verifier_accepts_what_prover_accepts(shape, layout, columns, 0, shifted.len(), 0);
    rows_survive_transcript(columns[0]@.len() as usize);
    assert(values@.len() == values.len());
    assert(columns[0]@.len() == columns[0].len());
}

/// The stage after `i` segments.
pub open spec fn stage_after(i: int) -> Stage
    decreases i,
{
    if i <= 0 {
        Stage::Rows
    } else {
        next_stage(stage_after(i - 1))
    }
}

/// The replies to an honest transcript: the scalars that the prover writes in the
/// first two stages, and then that each segment was read and is right, to the end.
pub open spec fn honest_replies<E>(
    replies: Seq<Reply<E>>,
    written: SnarkPlan,
    shifted: Seq<Felt>,
) -> bool {
    &&& replies.len() == 7
    &&& forall|i: int|
        0 <= i < 2 ==> ((#[trigger] replies[i]) matches Reply::Scalars(v) && v@ == scalars_at(
            written,
            stage_after(i),
            shifted,
        ))
    &&& forall|i: int| 2 <= i < 7 ==> (#[trigger] replies[i]) is Read
}

/// A verifier that has read `i` segments of an honest transcript.
pub open spec fn follows(
    run: VerifierRun,
    written: SnarkPlan,
    shifted: Seq<Felt>,
    i: int,
) -> bool {
    &&& run.stage == stage_after(i)
    &&& i > 0 ==> run.plan == written
    &&& i > 1 ==> run.last_row_shifted_f@ == shifted
    &&& segment_at(run.plan, run.stage) == segment_at(written, stage_after(i))
}

proof fn lemma_honest_prefix<E>(
    shape: AirShape,
    field_bits: usize,
    config: AirSnarkConfig,
    layout: AirSnarkTraceLayout<Felt>,
    columns: Seq<Vec<Felt>>,
    shifted: Seq<Felt>,
    first: VerifierRun,
    replies: Seq<Reply<E>>,
    i: int,
)
    requires
        prover_verdict(shape, layout, columns, 0, shifted.len(), 0) is Ok,
        columns[0]@.len() < KOALA_BEAR_PRIME,
        first.stage == Stage::Rows,
        first.plan == plan_of(shape, field_bits, config, 0),
        honest_replies(
            replies,
            plan_of(shape, field_bits, config, columns[0]@.len() as usize),
            shifted,
        ),
        0 <= i <= 7,
    ensures
        run_of(first, shape, layout, replies.take(i)) matches Ok(run) && follows(
            run,
            plan_of(shape, field_bits, config, columns[0]@.len() as usize),
            shifted,
            i,
        ) && (i < 7 ==> run.expects(replies[i])),
    decreases i,
{
    let written = plan_of(shape, field_bits, config, columns[0]@.len() as usize);
    reveal_with_fuel(stage_after, 8);
    if i > 0 {
        lemma_honest_prefix(
            shape,
            field_bits,
            config,
            layout,
            columns,
            shifted,
            first,
            replies,
            i - 1,
        );
        assert(replies.take(i).drop_last() =~= replies.take(i - 1));
        assert(replies.take(i).last() == replies[i - 1]);
        verifier_accepts_what_prover_accepts(shape, layout, columns, 0, shifted.len(), 0);
        rows_survive_transcript(columns[0]@.len() as usize);
        assert(columns[0]@.len() == columns[0].len());
    }
    if i == 1 {
        assert(replies[1] matches Reply::Scalars(v) && v@.len() == v.len());
    }
}

/// An honest transcript is accepted. From inputs that the prover accepts, with fewer
/// rows than the field has elements, a verifier with the same AIR, configuration and
/// layout takes every scalar that the prover writes; where it then finds each later
/// segment right, whether or not there is grinding, it comes to the end. On the way
/// every segment that it reads is the one that the prover writes, and at the end it
/// has the prover's plan and its shifted values.
pub proof fn honest_transcript_is_accepted<E>(
    shape: AirShape,
    field_bits: usize,
    config: AirSnarkConfig,
    layout: AirSnarkTraceLayout<Felt>,
    columns: Seq<Vec<Felt>>,
    shifted: Seq<Felt>,
    first: VerifierRun,
    replies: Seq<Reply<E>>,
)
    requires
        prover_verdict(shape, layout, columns, 0, shifted.len(), 0) is Ok,
        columns[0]@.len() < KOALA_BEAR_PRIME,
        first.stage == Stage::Rows,
        first.plan == plan_of(shape, field_bits, config, 0),
        honest_replies(
            replies,
            plan_of(shape, field_bits, config, columns[0]@.len() as usize),
            shifted,
        ),
    ensures
        ({
            let written = plan_of(shape, field_bits, config, columns[0]@.len() as usize);
            &&& base_field_only(shape)
            &&& run_of(first, shape, layout, replies) matches Ok(run) && run.stage == Stage::Done
                && run.plan == written && run.last_row_shifted_f@ == shifted
            &&& forall|i: int|
                #![trigger replies.take(i)]
                0 <= i <= 7 ==> (run_of(first, shape, layout, replies.take(i)) matches Ok(run)
                    && follows(run, written, shifted, i) && (i < 7 ==> run.expects(replies[i])))
        }),
{
    let written = plan_of(shape, field_bits, config, columns[0]@.len() as usize);
    verifier_accepts_what_prover_accepts(shape, layout, columns, 0, shifted.len(), 0);
    assert forall|i: int|
        #![trigger replies.take(i)]
        0 <= i <= 7 implies (run_of(first, shape, layout, replies.take(i)) matches Ok(run)
        && follows(run, written, shifted, i) && (i < 7 ==> run.expects(replies[i]))) by {
        lemma_honest_prefix(
            shape,
            field_bits,
            config,
            layout,
            columns,
            shifted,
            first,
            replies,
            i,
        );
    }
    assert(replies.take(7) =~= replies);
    reveal_with_fuel(stage_after, 8);
}

/// A verifier that gets on with every reply was told of no failure.
pub proof fn runs_that_go_on_had_no_failure<E>(
    run: VerifierRun,
    shape: AirShape,
    layout: AirSnarkTraceLayout<Felt>,
    replies: Seq<Reply<E>>,
)
    requires
        run_of(run, shape, layout, replies) is Ok,
    ensures
        forall|i: int| 0 <= i < replies.len() ==> (#[trigger] replies[i]) !is Failed,
    decreases replies.len(),
{
    if replies.len() > 0 {
        runs_that_go_on_had_no_failure(run, shape, layout, replies.drop_last());
        assert forall|i: int| 0 <= i < replies.len() implies (#[trigger] replies[i]) !is Failed by {
            if i < replies.len() - 1 {
                assert(replies.drop_last()[i] == replies[i]);
            }
        }
    }
}

/// The first failure is the outcome of a run, whatever comes after it.
pub proof fn first_failure_is_the_outcome<E>(
    run: VerifierRun,
    shape: AirShape,
    layout: AirSnarkTraceLayout<Felt>,
    before: Seq<Reply<E>>,
    e: E,
    after: Seq<Reply<E>>,
)
    requires
        run_of(run, shape, layout, before) is Ok,
    ensures
        run_of(run, shape, layout, before.push(Reply::Failed(e)) + after) == Err::<
            VerifierRun,
            VerifierError<E>,
        >(VerifierError::Transcript(e)),
    decreases after.len(),
{
    let all = before.push(Reply::Failed(e)) + after;
    if after.len() == 0 {
        assert(all =~= before.push(Reply::Failed(e)));
        assert(all.drop_last() =~= before);
    } else {
        first_failure_is_the_outcome(run, shape, layout, before, e, after.drop_last());
        assert(all.drop_last() =~= before.push(Reply::Failed(e)) + after.drop_last());
    }
}

} // verus!
