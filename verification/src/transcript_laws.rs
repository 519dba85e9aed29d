//! What the course of a proof comes down to, of every result that a call can have:
//! the plan that both sides work by, the order of the transcript, and which
//! transcripts a verifier accepts.

use crate::air::Air;
use crate::field::{lemma_of_int, Felt, KOALA_BEAR_PRIME};
use crate::snark::{
    lemma_log_fits, pow_bits_auto, powers_of_two, AirSnarkConfig, AirSnarkTraceLayout,
};
use crate::snark_run::{
    opening_statements, prove_single_air_with_whir, prove_single_air_with_whir_base,
    verify_single_air_with_whir, verify_single_air_with_whir_base, Evaluation, ProverRun, Reply,
    Segment, SnarkPlan, Stage, VerifierError, VerifierRun,
};
use crate::snark_setup::{check_prover_inputs, check_verifier_layout, LayoutFault, SetupError};
use vstd::arithmetic::power2::pow2;
use vstd::prelude::*;

verus! {

/// A prover starts with the whole transcript before it, from a plan for the AIR, the
/// configuration and the height of its columns, and with its shifted values. The
/// WHIR parameters are those of the configuration at its target security, and the
/// grinding is what that target asks for.
pub proof fn prover_starts_from_its_inputs<A: Air>(
    air: &A,
    field_bits: usize,
    config: &AirSnarkConfig,
    layout: &AirSnarkTraceLayout<Felt>,
    columns_f: &Vec<Vec<Felt>>,
    n_columns_ef: usize,
    last_row_shifted_f: &Vec<Felt>,
    n_last_row_shifted_ef: usize,
    log: usize,
    bits: usize,
    run: ProverRun,
)
    requires
        call_ensures(
            check_prover_inputs::<A>,
            (air, layout, columns_f, n_columns_ef, last_row_shifted_f, n_last_row_shifted_ef),
            Ok(log),
        ),
        call_ensures(
            pow_bits_auto,
            (config.security_bits, field_bits, air.shape().n_constraints),
            bits,
        ),
        call_ensures(
            prove_single_air_with_whir::<A>,
            (
                air,
                field_bits,
                config,
                layout,
                columns_f,
                n_columns_ef,
                last_row_shifted_f,
                n_last_row_shifted_ef,
            ),
            run,
        ),
    ensures
        run.stage == Stage::Rows,
        run.plan.n_shifted == air.shape().down_f.len(),
        run.plan.univariate_skips == config.univariate_skips,
        run.plan.log_smallest_decomposition_chunk == config.log_smallest_decomposition_chunk,
        run.plan.whir.security_level == config.security_bits,
        run.plan.whir.starting_log_inv_rate == config.whir_config_builder.starting_log_inv_rate,
        run.plan.whir.max_num_variables_to_send_coeffs
            == config.whir_config_builder.max_num_variables_to_send_coeffs,
        run.plan.whir.rs_domain_initial_reduction_factor
            == config.whir_config_builder.rs_domain_initial_reduction_factor,
        run.plan.whir.folding_factor == config.whir_config_builder.folding_factor,
        run.plan.whir.soundness_type == config.whir_config_builder.soundness_type,
        run.plan.whir.pow_bits == config.whir_config_builder.pow_bits,
        run.plan.grinding_bits == bits,
        run.plan.n_rows == columns_f@[0]@.len(),
        run.plan.log_n_rows == log,
        pow2(run.plan.log_n_rows as nat) == run.plan.n_rows,
        run.last_row_shifted_f@ == last_row_shifted_f@,
{
    lemma_log_fits(columns_f@[0].len());
    assert(last_row_shifted_f@.len() == last_row_shifted_f.len());
}

/// Proving over base-field columns is proving without extension-field columns.
pub proof fn base_prover_starts_alike<A: Air>(
    air: &A,
    field_bits: usize,
    config: &AirSnarkConfig,
    layout: &AirSnarkTraceLayout<Felt>,
    columns_f: &Vec<Vec<Felt>>,
    last_row_shifted_f: &Vec<Felt>,
    base: ProverRun,
    run: ProverRun,
)
    requires
        call_ensures(
            prove_single_air_with_whir_base::<A>,
            (air, field_bits, config, layout, columns_f, last_row_shifted_f),
            base,
        ),
        call_ensures(
            prove_single_air_with_whir::<A>,
            (air, field_bits, config, layout, columns_f, 0, last_row_shifted_f, 0),
            run,
        ),
    ensures
        base.plan == run.plan,
        base.stage == run.stage,
        base.last_row_shifted_f@ == run.last_row_shifted_f@,
{
}

/// A verifier starts where the AIR has and shifts no extension-field columns, with
/// the whole transcript before it, from a plan for the AIR and the configuration at
/// its target security; else there is no valid proof.
pub proof fn verifier_starts_from_its_inputs<A: Air, E>(
    air: &A,
    field_bits: usize,
    config: &AirSnarkConfig,
    bits: usize,
    r: Result<VerifierRun, VerifierError<E>>,
    base: Result<VerifierRun, VerifierError<E>>,
)
    requires
        call_ensures(
            pow_bits_auto,
            (config.security_bits, field_bits, air.shape().n_constraints),
            bits,
        ),
        call_ensures(verify_single_air_with_whir::<A, E>, (air, field_bits, config), r),
        call_ensures(verify_single_air_with_whir_base::<A, E>, (air, field_bits, config), base),
    ensures
        r is Ok <==> air.shape().n_columns_ef == 0 && air.shape().down_ef.len() == 0,
        r matches Ok(run) ==> {
            &&& run.stage == Stage::Rows
            &&& run.plan.n_shifted == air.shape().down_f.len()
            &&& run.plan.univariate_skips == config.univariate_skips
            &&& run.plan.log_smallest_decomposition_chunk == config.log_smallest_decomposition_chunk
            &&& run.plan.whir.security_level == config.security_bits
            &&& run.plan.whir.starting_log_inv_rate
                == config.whir_config_builder.starting_log_inv_rate
            &&& run.plan.whir.max_num_variables_to_send_coeffs
                == config.whir_config_builder.max_num_variables_to_send_coeffs
            &&& run.plan.whir.rs_domain_initial_reduction_factor
                == config.whir_config_builder.rs_domain_initial_reduction_factor
            &&& run.plan.whir.folding_factor == config.whir_config_builder.folding_factor
            &&& run.plan.whir.soundness_type == config.whir_config_builder.soundness_type
            &&& run.plan.whir.pow_bits == config.whir_config_builder.pow_bits
            &&& run.plan.grinding_bits == bits
            &&& run.last_row_shifted_f@.len() == 0
            &&& base matches Ok(other) && other.plan == run.plan && other.stage == run.stage
                && other.last_row_shifted_f@ == run.last_row_shifted_f@
        },
        r matches Err(e) ==> e == VerifierError::<E>::InvalidProof && base == r,
{
}

/// The transcript has seven parts, in one order: the number of rows, the shifted
/// values, the grinding, the commitment, the AIR proof, the opening statements and
/// the openings.
pub proof fn stages_come_in_order(s: Stage, r: Stage)
    requires
        call_ensures(Stage::next, (s,), r),
    ensures
        ({
            let order = seq![
                Stage::Rows,
                Stage::Shifted,
                Stage::Grinding,
                Stage::Commitment,
                Stage::Constraints,
                Stage::Statements,
                Stage::Openings,
                Stage::Done,
            ];
            &&& forall|i: int|
                #![trigger order[i]]
                0 <= i < 7 && s == order[i] ==> r == order[i + 1]
            &&& s == Stage::Done ==> r == Stage::Done
        }),
{
}

/// Each part of a transcript is sized and parametrised by the plan. The commitment
/// and its openings go by the same WHIR parameters, and the commitment and the
/// opening statements by the same decomposition.
pub proof fn segments_go_by_the_plan(
    plan: &SnarkPlan,
    rows: Segment,
    shifted: Segment,
    grinding: Segment,
    commitment: Segment,
    constraints: Segment,
    statements: Segment,
    openings: Segment,
    done: Segment,
)
    requires
        call_ensures(SnarkPlan::segment, (plan, Stage::Rows), rows),
        call_ensures(SnarkPlan::segment, (plan, Stage::Shifted), shifted),
        call_ensures(SnarkPlan::segment, (plan, Stage::Grinding), grinding),
        call_ensures(SnarkPlan::segment, (plan, Stage::Commitment), commitment),
        call_ensures(SnarkPlan::segment, (plan, Stage::Constraints), constraints),
        call_ensures(SnarkPlan::segment, (plan, Stage::Statements), statements),
        call_ensures(SnarkPlan::segment, (plan, Stage::Openings), openings),
        call_ensures(SnarkPlan::segment, (plan, Stage::Done), done),
    ensures
        rows is Rows,
        shifted matches Segment::Shifted { n } && n == plan.n_shifted,
        grinding matches Segment::Grinding { bits } && bits == plan.grinding_bits,
        commitment matches Segment::Commitment { whir, log_smallest_decomposition_chunk: chunk }
            && openings == (Segment::Openings { whir }) && whir == plan.whir && statements == (
        Segment::Statements { log_smallest_decomposition_chunk: chunk }) && chunk
            == plan.log_smallest_decomposition_chunk,
        constraints matches Segment::Constraints { univariate_skips, log_n_rows }
            && univariate_skips == plan.univariate_skips && log_n_rows == plan.log_n_rows,
        done is End,
{
}

/// Both sides are at the part of the transcript that their plan has for their stage.
pub proof fn both_sides_take_the_segment_of_their_stage(
    prover: &ProverRun,
    verifier: &VerifierRun,
    written: Segment,
    read: Segment,
    planned: Segment,
)
    requires
        prover.plan == verifier.plan,
        prover.stage == verifier.stage,
        call_ensures(ProverRun::segment, (prover,), written),
        call_ensures(VerifierRun::segment, (verifier,), read),
        call_ensures(SnarkPlan::segment, (&prover.plan, prover.stage), planned),
    ensures
        written == planned,
        read == planned,
{
}

/// The scalars that a prover writes: the number of rows first, then its shifted
/// values, unchanged, and none in any other stage.
pub proof fn prover_writes_rows_and_shifted_values(run: &ProverRun, r: Vec<Felt>)
    requires
        call_ensures(ProverRun::scalars, (run,), r),
    ensures
        run.stage == Stage::Rows ==> r@.len() == 1 && r@[0]@ == run.plan.n_rows as int
            % KOALA_BEAR_PRIME as int,
        run.stage == Stage::Shifted ==> r@ == run.last_row_shifted_f@,
        run.stage != Stage::Rows && run.stage != Stage::Shifted ==> r@.len() == 0,
{
    lemma_of_int(run.plan.n_rows as int);
}

/// A prover goes from stage to stage, and changes neither its plan nor its values.
pub proof fn prover_advances_by_one_stage(run: ProverRun, r: ProverRun, next: Stage)
    requires
        call_ensures(ProverRun::advance, (run,), r),
        call_ensures(Stage::next, (run.stage,), next),
    ensures
        r.stage == next,
        r.plan == run.plan,
        r.last_row_shifted_f@ == run.last_row_shifted_f@,
{
}

/// Every column is opened once, at the one point, with its own value.
pub proof fn columns_open_at_the_point<E: Copy>(
    point: &Vec<E>,
    evals_f: &Vec<E>,
    r: Vec<Vec<Evaluation<E>>>,
    i: int,
)
    requires
        call_ensures(opening_statements::<E>, (point, evals_f), r),
        0 <= i < evals_f@.len(),
    ensures
        r@.len() == evals_f@.len(),
        r@[i]@.len() == 1,
        r@[i]@[0].point@ == point@,
        r@[i]@[0].value == evals_f@[i],
{
}

/// A segment that the proof system finds wrong ends the run, at whatever stage, with
/// the error of the proof system.
pub proof fn wrong_segments_end_the_run<A: Air, E>(
    run: VerifierRun,
    air: &A,
    layout: &AirSnarkTraceLayout<Felt>,
    e: E,
    r: Result<VerifierRun, VerifierError<E>>,
)
    requires
        call_ensures(
            VerifierRun::step::<A, E>,
            (run, air, layout, Reply::Failed(e)),
            r,
        ),
    ensures
        r == Err::<VerifierRun, VerifierError<E>>(VerifierError::Transcript(e)),
{
}

/// A segment that is read right leads to the next stage, and changes nothing else.
pub proof fn right_segments_lead_on<A: Air, E>(
    run: VerifierRun,
    air: &A,
    layout: &AirSnarkTraceLayout<Felt>,
    r: Result<VerifierRun, VerifierError<E>>,
    next: Stage,
)
    requires
        call_ensures(VerifierRun::step::<A, E>, (run, air, layout, Reply::Read), r),
        call_ensures(Stage::next, (run.stage,), next),
    ensures
        r matches Ok(n) && n.stage == next && n.plan == run.plan && n.last_row_shifted_f
            == run.last_row_shifted_f,
{
}

/// The number of rows is taken where it is a power of two, and then is the number of
/// rows of the plan; else the inputs do not fit together.
pub proof fn rows_are_taken_if_a_power_of_two<A: Air, E>(
    run: VerifierRun,
    air: &A,
    layout: &AirSnarkTraceLayout<Felt>,
    rows: Vec<Felt>,
    r: Result<VerifierRun, VerifierError<E>>,
)
    requires
        run.stage == Stage::Rows,
        rows@.len() == 1,
        call_ensures(VerifierRun::step::<A, E>, (run, air, layout, Reply::Scalars(rows)), r),
    ensures
        (exists|k: nat| #[trigger] pow2(k) == rows@[0]@) <==> r is Ok,
        r matches Ok(n) ==> {
            &&& n.stage == Stage::Shifted
            &&& n.plan.n_rows == rows@[0]@
            &&& pow2(n.plan.log_n_rows as nat) == rows@[0]@
            &&& n.plan.n_shifted == run.plan.n_shifted
            &&& n.plan.grinding_bits == run.plan.grinding_bits
            &&& n.plan.univariate_skips == run.plan.univariate_skips
            &&& n.plan.log_smallest_decomposition_chunk == run.plan.log_smallest_decomposition_chunk
            &&& n.plan.whir == run.plan.whir
            &&& n.last_row_shifted_f@ == run.last_row_shifted_f@
        },
        r matches Err(e) ==> e == VerifierError::<E>::Setup(SetupError::RowsNotPowerOfTwo),
{
    broadcast use crate::field::lemma_felt_range;

    powers_of_two(rows@[0]@ as nat);
    lemma_log_fits(rows@[0]@ as usize);
}

/// The shifted values are taken where the layout fits the height that was read, and
/// then are the values of the run; else the fault of the layout is the reason.
pub proof fn shifted_values_are_taken_if_the_layout_fits<A: Air, E>(
    run: VerifierRun,
    air: &A,
    layout: &AirSnarkTraceLayout<Felt>,
    values: Vec<Felt>,
    checked: Result<(), LayoutFault>,
    r: Result<VerifierRun, VerifierError<E>>,
)
    requires
        run.stage == Stage::Shifted,
        call_ensures(check_verifier_layout::<A>, (air, layout, run.plan.log_n_rows), checked),
        call_ensures(VerifierRun::step::<A, E>, (run, air, layout, Reply::Scalars(values)), r),
    ensures
        r is Ok <==> checked is Ok,
        r matches Ok(n) ==> n.stage == Stage::Grinding && n.plan == run.plan
            && n.last_row_shifted_f@ == values@,
        checked == Err::<(), LayoutFault>(LayoutFault::InvalidProof) ==> r == Err::<
            VerifierRun,
            VerifierError<E>,
        >(VerifierError::InvalidProof),
        checked matches Err(LayoutFault::Setup(e)) ==> r == Err::<VerifierRun, VerifierError<E>>(
            VerifierError::Setup(e),
        ),
{
}

/// The replies that a stage can get: scalars in the first two, as many as there are,
/// and afterwards that the segment is right, or that it is wrong.
pub proof fn stages_expect_their_replies<E>(run: VerifierRun, values: Vec<Felt>, e: E)
    ensures
        run.expects::<E>(Reply::Scalars(values)) <==> (run.stage == Stage::Rows && values@.len()
            == 1) || (run.stage == Stage::Shifted && values@.len() == run.plan.n_shifted),
        run.expects::<E>(Reply::Read) <==> (run.stage == Stage::Grinding || run.stage
            == Stage::Commitment || run.stage == Stage::Constraints || run.stage
            == Stage::Statements || run.stage == Stage::Openings),
        run.expects::<E>(Reply::Failed(e)) <==> run.stage != Stage::Done,
{
}

/// One step of a run: the reply is one that the stage can get, and leads from one
/// run to the next.
pub open spec fn leads<A: Air, E>(
    air: &A,
    layout: &AirSnarkTraceLayout<Felt>,
    runs: Seq<VerifierRun>,
    replies: Seq<Reply<E>>,
    i: int,
) -> bool {
    &&& runs[i].expects(replies[i])
    &&& call_ensures(
        VerifierRun::step::<A, E>,
        (runs[i], air, layout, replies[i]),
        Ok(runs[i + 1]),
    )
}

/// How far a run has come after `i` segments.
proof fn lemma_accepted_prefix<A: Air, E>(
    air: &A,
    layout: &AirSnarkTraceLayout<Felt>,
    runs: Seq<VerifierRun>,
    replies: Seq<Reply<E>>,
    i: int,
)
    requires
        runs.len() == replies.len() + 1,
        runs[0].stage == Stage::Rows,
        forall|j: int| 0 <= j < replies.len() ==> #[trigger] leads(air, layout, runs, replies, j),
        0 <= i <= replies.len(),
    ensures
        i <= 7,
        runs[i].stage == seq![
            Stage::Rows,
            Stage::Shifted,
            Stage::Grinding,
            Stage::Commitment,
            Stage::Constraints,
            Stage::Statements,
            Stage::Openings,
            Stage::Done,
        ][i],
        i > 1 ==> runs[i].plan == runs[1].plan,
        i > 2 ==> runs[i].last_row_shifted_f == runs[2].last_row_shifted_f,
        forall|j: int| 0 <= j < i ==> (#[trigger] replies[j]) !is Failed,
        i > 0 ==> replies[0] is Scalars,
        i > 1 ==> replies[1] is Scalars,
        forall|j: int| 2 <= j < i ==> (#[trigger] replies[j]) is Read,
    decreases i,
{
    if i > 0 {
        lemma_accepted_prefix(air, layout, runs, replies, i - 1);
        assert(leads(air, layout, runs, replies, i - 1));
    }
}

/// A verifier accepts only what was read to the end. Where a run that starts at the
/// number of rows comes to the end, it took seven replies: the scalars of the first
/// two stages, and that each later segment, the openings among them, was read and is
/// right. None was a failure. The number of rows that was read is a power of two and
/// that of the plan, the layout fits it, and the shifted values are those read.
pub proof fn accepted_proofs_are_read_to_the_end<A: Air, E>(
    air: &A,
    layout: &AirSnarkTraceLayout<Felt>,
    runs: Seq<VerifierRun>,
    replies: Seq<Reply<E>>,
)
    requires
        runs.len() == replies.len() + 1,
        runs[0].stage == Stage::Rows,
        forall|i: int| 0 <= i < replies.len() ==> #[trigger] leads(air, layout, runs, replies, i),
        runs.last().stage == Stage::Done,
    ensures
        replies.len() == 7,
        forall|i: int| 0 <= i < 7 ==> (#[trigger] replies[i]) !is Failed,
        forall|i: int| 2 <= i < 7 ==> (#[trigger] replies[i]) is Read,
        replies[0] matches Reply::Scalars(rows) && rows@.len() == 1 && runs[7].plan.n_rows
            == rows@[0]@ && pow2(runs[7].plan.log_n_rows as nat) == rows@[0]@,
        replies[1] matches Reply::Scalars(values) && values@.len() == runs[7].plan.n_shifted
            && runs[7].last_row_shifted_f@ == values@,
        layout.dims_f@.len() == air.shape().n_columns_f,
        forall|i: int|
            0 <= i < layout.dims_f@.len() ==> pow2((#[trigger] layout.dims_f@[i]).n_vars as nat)
                == runs[7].plan.n_rows && layout.dims_f@[i].committed_size >= 1,
{
    broadcast use crate::field::lemma_felt_range;

    lemma_accepted_prefix(air, layout, runs, replies, replies.len() as int);
    assert(leads(air, layout, runs, replies, 0));
    assert(leads(air, layout, runs, replies, 1));
    let rows = replies[0]->Scalars_0;
    powers_of_two(rows@[0]@ as nat);
    lemma_log_fits(rows@[0]@ as usize);
}

} // verus!
