//! What the configuration, the layout and the checks of the single-AIR SNARK come
//! down to, of every result that a call can have.

use crate::air::Air;
use crate::field::{Felt, Ring, RingModel};
use crate::snark::{
    ceil_log2, lemma_log_fits, logarithm_is_least, logarithm_of_power, pow_bits_auto,
    powers_of_two, row_log, whir_builder_with_security, AirSnarkTraceLayout, ColDims,
};
use crate::snark_setup::{
    all_have_committed, check_prover_inputs, check_verifier_layout, is_base_field_only, is_prefix,
    layout_height_is, prover_verdict, public_columns_exist, public_lengths_fit, public_prefixes,
    same_lengths, LayoutFault, SetupError,
};
use crate::whir::WhirConfigBuilder;
use vstd::arithmetic::power2::{
    lemma_pow2_adds, lemma_pow2_pos, lemma_pow2_strictly_increases, pow2,
};
use vstd::prelude::*;

verus! {

/// The target security takes the place of the security level, whichever of them is
/// higher, and no other parameter changes.
pub proof fn target_replaces_security_level(
    b: WhirConfigBuilder,
    security_bits: usize,
    r: WhirConfigBuilder,
)
    requires
        call_ensures(whir_builder_with_security, (b, security_bits), r),
    ensures
        r.security_level == security_bits,
        r.starting_log_inv_rate == b.starting_log_inv_rate,
        r.max_num_variables_to_send_coeffs == b.max_num_variables_to_send_coeffs,
        r.rs_domain_initial_reduction_factor == b.rs_domain_initial_reduction_factor,
        r.folding_factor == b.folding_factor,
        r.soundness_type == b.soundness_type,
        r.pow_bits == b.pow_bits,
{
}

/// A number has a row logarithm where it is a power of two, and the logarithm is
/// the exponent.
pub proof fn row_log_inverts_powers(n_rows: usize, k: usize, r: Option<usize>)
    requires
        call_ensures(row_log, (n_rows,), r),
    ensures
        r == Some(k) <==> pow2(k as nat) == n_rows,
        r is None <==> forall|j: nat| #[trigger] pow2(j) != n_rows,
{
    powers_of_two(n_rows as nat);
    if pow2(k as nat) == n_rows {
        logarithm_of_power(k as nat);
    }
}

/// Grinding makes up for what the field lacks, and for no more. Where the field has
/// more elements than there are constraints, the number of grinding bits is the
/// least `r` with `2^(field_bits + r) >= 2^security_bits * (n + 1)`, for `n`
/// constraints. A smaller field counts for nothing.
pub proof fn grinding_makes_up_for_the_field(
    security_bits: usize,
    field_bits: usize,
    n: usize,
    r: usize,
)
    requires
        call_ensures(pow_bits_auto, (security_bits, field_bits, n), r),
    ensures
        n < pow2(field_bits as nat) ==> {
            &&& pow2((field_bits + r) as nat) >= pow2(security_bits as nat) * (n + 1)
            &&& r > 0 ==> pow2((field_bits + r - 1) as nat) < pow2(security_bits as nat) * (n + 1)
        },
        n >= pow2(field_bits as nat) ==> r == security_bits,
{
    let c = ceil_log2((n + 1) as nat);
    let f = field_bits as nat;
    let s = security_bits as nat;
    logarithm_is_least((n + 1) as nat, f);
    if c > 0 {
        logarithm_is_least((n + 1) as nat, (c - 1) as nat);
    }
    lemma_pow2_pos(s);
    if n < pow2(f) {
        assert(c <= f);
        lemma_pow2_adds(s, c);
        assert(pow2(s) * (n + 1) <= pow2(s) * pow2(c)) by (nonlinear_arith)
            requires
                n + 1 <= pow2(c),
        ;
        if f + r > s + c {
            lemma_pow2_strictly_increases(s + c, (f + r) as nat);
        }
        if r > 0 {
            assert(f + r == s + c);
            if c > 0 {
                lemma_pow2_adds(s, (c - 1) as nat);
                assert(pow2(s) * pow2((c - 1) as nat) < pow2(s) * (n + 1)) by (nonlinear_arith)
                    requires
                        pow2((c - 1) as nat) < n + 1,
                        pow2(s) > 0,
                ;
            } else {
                lemma_pow2_strictly_increases((s - 1) as nat, s);
                assert(pow2(s) <= pow2(s) * (n + 1)) by (nonlinear_arith)
                    requires
                        n >= 0,
                ;
            }
        }
    } else if c <= f {
        if c < f {
            lemma_pow2_strictly_increases(c, f);
        }
    }
}

/// A full column is committed to in all of its rows: none is public, and none is
/// left to the default, which is zero.
pub proof fn full_columns_are_all_committed<T: Ring>(n_vars: usize, r: ColDims<T>)
    requires
        call_ensures(ColDims::<T>::full, (n_vars,), r),
    ensures
        r.n_vars == n_vars,
        r.log_public_data_size is None,
        r.committed_size == pow2(n_vars as nat),
        r.default_value == T::elem(0),
{
}

/// The layout in which everything is committed has as many columns as asked for,
/// each of them full, and no public data.
pub proof fn all_committed_hides_every_column<T: Ring + Copy>(
    log_n_rows: usize,
    n_columns_f: usize,
    r: AirSnarkTraceLayout<T>,
    i: int,
    c: usize,
)
    requires
        call_ensures(AirSnarkTraceLayout::<T>::all_committed, (log_n_rows, n_columns_f), r),
        0 <= i < n_columns_f,
    ensures
        r.dims_f@.len() == n_columns_f,
        r.dims_f@[i].n_vars == log_n_rows,
        r.dims_f@[i].log_public_data_size is None,
        r.dims_f@[i].committed_size == pow2(log_n_rows as nat) as usize,
        r.dims_f@[i].default_value == T::elem(0),
        !r.public_data_f@.contains_key(c),
{
}

/// Public data is found again under its column; that of other columns and the
/// dimensions stay.
pub proof fn public_data_is_found_again<T: Ring + Copy>(
    layout: &mut AirSnarkTraceLayout<T>,
    col: usize,
    data: Vec<T>,
    other: usize,
)
    requires
        call_ensures(AirSnarkTraceLayout::<T>::insert_public_data, (layout, col, data), ()),
        other != col,
    ensures
        final(layout).public_data_f@.contains_key(col),
        final(layout).public_data_f@[col] == data,
        final(layout).public_data_f@.contains_key(other) <==> old(
            layout,
        ).public_data_f@.contains_key(other),
        old(layout).public_data_f@.contains_key(other) ==> final(layout).public_data_f@[other]
            == old(layout).public_data_f@[other],
        final(layout).dims_f@ == old(layout).dims_f@,
{
}

/// The public data of every column that exists has its declared length and is a
/// prefix of the column.
proof fn lemma_public_data(columns: Seq<Vec<Felt>>, layout: AirSnarkTraceLayout<Felt>)
    requires
        layout.dims_f@.len() == columns.len(),
    ensures
        ({
            let dims = layout.dims_f@;
            let public = layout.public_data_f@;
            (public_lengths_fit(dims, public) && public_prefixes(columns, public)) <==> forall|
                c: usize,
            |
                #![trigger public.contains_key(c)]
                public.contains_key(c) && c < dims.len() ==> {
                    &&& dims[c as int].log_public_data_size matches Some(l) && public[c]@.len()
                        == pow2(l as nat)
                    &&& public[c]@.len() <= columns[c as int]@.len()
                    &&& forall|i: int|
                        #![trigger public[c]@[i]]
                        0 <= i < public[c]@.len() ==> public[c]@[i] == columns[c as int]@[i]
                }
        }),
{
    let dims = layout.dims_f@;
    let public = layout.public_data_f@;
    assert forall|c: usize|
        #![trigger public.contains_key(c)]
        public.contains_key(c) && c < dims.len() implies (is_prefix(
        public[c]@,
        columns[c as int]@,
    ) <==> public[c]@.len() <= columns[c as int]@.len() && forall|i: int|
        #![trigger public[c]@[i]]
        0 <= i < public[c]@.len() ==> public[c]@[i] == columns[c as int]@[i]) by {
        let (data, column) = (public[c]@, columns[c as int]@);
        if data.len() <= column.len() {
            let t = column.take(data.len() as int);
            if data == t {
                assert forall|i: int| #![trigger data[i]] 0 <= i < data.len() implies data[i]
                    == column[i] by {
                    assert(t[i] == column[i]);
                }
            }
            if forall|i: int| #![trigger data[i]] 0 <= i < data.len() ==> data[i] == column[i] {
                assert(data =~= t);
            }
        }
    }
}

/// The first of fourteen conditions that does not hold.
proof fn lemma_first(held: Seq<bool>, i: int)
    requires
        held.len() == 14,
        0 <= i <= 14,
    ensures
        (forall|j: int| #![trigger held[j]] 0 <= j < i ==> held[j]) <==> {
            &&& i > 0 ==> held[0]
            &&& i > 1 ==> held[1]
            &&& i > 2 ==> held[2]
            &&& i > 3 ==> held[3]
            &&& i > 4 ==> held[4]
            &&& i > 5 ==> held[5]
            &&& i > 6 ==> held[6]
            &&& i > 7 ==> held[7]
            &&& i > 8 ==> held[8]
            &&& i > 9 ==> held[9]
            &&& i > 10 ==> held[10]
            &&& i > 11 ==> held[11]
            &&& i > 12 ==> held[12]
            &&& i > 13 ==> held[13]
        },
{
}

/// What a prover's inputs must meet, in the order in which it is checked. They are
/// accepted where all of it holds, and the result is then the logarithm of the
/// number of rows; else the error tells what is the first that does not hold. Of the
/// public data of a column every row is compared with that row of the same column.
pub proof fn prover_inputs_are_checked_in_order<A: Air>(
    air: &A,
    layout: &AirSnarkTraceLayout<Felt>,
    columns_f: &Vec<Vec<Felt>>,
    n_columns_ef: usize,
    last_row_shifted_f: &Vec<Felt>,
    n_last_row_shifted_ef: usize,
    r: Result<usize, SetupError>,
)
    requires
        call_ensures(
            check_prover_inputs::<A>,
            (air, layout, columns_f, n_columns_ef, last_row_shifted_f, n_last_row_shifted_ef),
            r,
        ),
    ensures
        ({
            let shape = air.shape();
            let columns = columns_f@;
            let n_rows = columns[0]@.len();
            let dims = layout.dims_f@;
            let public = layout.public_data_f@;
            let held = seq![
                n_columns_ef == 0,
                n_last_row_shifted_ef == 0,
                columns.len() > 0,
                forall|i: int, j: int|
                    #![trigger columns[i], columns[j]]
                    0 <= i < columns.len() && 0 <= j < columns.len() ==> columns[i]@.len()
                        == columns[j]@.len(),
                columns.len() == shape.n_columns_f,
                shape.n_columns_ef == 0,
                exists|k: nat| #![trigger pow2(k)] pow2(k) == n_rows,
                last_row_shifted_f@.len() == shape.down_f.len(),
                shape.down_ef.len() == 0,
                dims.len() == columns.len(),
                forall|i: int|
                    #![trigger dims[i]]
                    0 <= i < dims.len() ==> pow2(dims[i].n_vars as nat) == n_rows,
                forall|i: int|
                    #![trigger dims[i]]
                    0 <= i < dims.len() ==> dims[i].committed_size >= 1,
                forall|c: usize|
                    #![trigger public.contains_key(c)]
                    public.contains_key(c) && c < dims.len() ==> {
                        &&& dims[c as int].log_public_data_size matches Some(l)
                            && public[c]@.len() == pow2(l as nat)
                        &&& public[c]@.len() <= columns[c as int]@.len()
                        &&& forall|i: int|
                            #![trigger public[c]@[i]]
                            0 <= i < public[c]@.len() ==> public[c]@[i] == columns[c as int]@[i]
                    },
                forall|c: usize|
                    #![trigger public.contains_key(c)]
                    public.contains_key(c) ==> c < dims.len(),
            ];
            let errors = seq![
                SetupError::ExtensionColumns,
                SetupError::ExtensionShiftedValues,
                SetupError::NoColumns,
                SetupError::RowCountMismatch,
                SetupError::ColumnCount,
                SetupError::ExtensionAir,
                SetupError::RowsNotPowerOfTwo,
                SetupError::ShiftedValueCount,
                SetupError::ExtensionShifts,
                SetupError::LayoutWidth,
                SetupError::LayoutHeight,
                SetupError::NothingCommitted,
                SetupError::PublicData,
                SetupError::PublicColumn,
            ];
            &&& r is Ok <==> forall|i: int| #![trigger held[i]] 0 <= i < 14 ==> held[i]
            &&& r matches Ok(log) ==> pow2(log as nat) == n_rows
            &&& forall|i: int|
                #![trigger errors[i]]
                0 <= i < 14 ==> (r == Err::<usize, SetupError>(errors[i]) <==> !held[i]
                    && forall|j: int| #![trigger held[j]] 0 <= j < i ==> held[j])
        }),
{
    let shape = air.shape();
    let columns = columns_f@;
    let n_rows = columns[0]@.len();
    let dims = layout.dims_f@;
    let public = layout.public_data_f@;
    let held = seq![
        n_columns_ef == 0,
        n_last_row_shifted_ef == 0,
        columns.len() > 0,
        forall|i: int, j: int|
            #![trigger columns[i], columns[j]]
            0 <= i < columns.len() && 0 <= j < columns.len() ==> columns[i]@.len()
                == columns[j]@.len(),
        columns.len() == shape.n_columns_f,
        shape.n_columns_ef == 0,
        exists|k: nat| #![trigger pow2(k)] pow2(k) == n_rows,
        last_row_shifted_f@.len() == shape.down_f.len(),
        shape.down_ef.len() == 0,
        dims.len() == columns.len(),
        forall|i: int|
            #![trigger dims[i]]
            0 <= i < dims.len() ==> pow2(dims[i].n_vars as nat) == n_rows,
        forall|i: int|
            #![trigger dims[i]]
            0 <= i < dims.len() ==> dims[i].committed_size >= 1,
        forall|c: usize|
            #![trigger public.contains_key(c)]
            public.contains_key(c) && c < dims.len() ==> {
                &&& dims[c as int].log_public_data_size matches Some(l)
                    && public[c]@.len() == pow2(l as nat)
                &&& public[c]@.len() <= columns[c as int]@.len()
                &&& forall|i: int|
                    #![trigger public[c]@[i]]
                    0 <= i < public[c]@.len() ==> public[c]@[i] == columns[c as int]@[i]
            },
        forall|c: usize|
            #![trigger public.contains_key(c)]
            public.contains_key(c) ==> c < dims.len(),
    ];
    let errors = seq![
        SetupError::ExtensionColumns,
        SetupError::ExtensionShiftedValues,
        SetupError::NoColumns,
        SetupError::RowCountMismatch,
        SetupError::ColumnCount,
        SetupError::ExtensionAir,
        SetupError::RowsNotPowerOfTwo,
        SetupError::ShiftedValueCount,
        SetupError::ExtensionShifts,
        SetupError::LayoutWidth,
        SetupError::LayoutHeight,
        SetupError::NothingCommitted,
        SetupError::PublicData,
        SetupError::PublicColumn,
    ];
    let log = ceil_log2(n_rows) as usize;
    assert(columns.len() > 0 ==> n_rows == columns_f@[0].len());
    assert(held[2] ==> (held[3] <==> same_lengths(columns)));
    powers_of_two(n_rows);
    if held[2] && held[6] {
        lemma_log_fits(columns_f@[0].len());
        assert(held[10] <==> layout_height_is(dims, log)) by {
            assert forall|i: int| #![trigger dims[i]] 0 <= i < dims.len() implies (pow2(
                dims[i].n_vars as nat,
            ) == n_rows <==> dims[i].n_vars == log) by {
                if pow2(dims[i].n_vars as nat) == n_rows {
                    logarithm_of_power(dims[i].n_vars as nat);
                }
            }
        }
    }
    assert(held[11] <==> all_have_committed(dims));
    if held[9] {
        lemma_public_data(columns, *layout);
    }
    assert(held[13] <==> public_columns_exist(dims.len(), public));
    assert(prover_verdict(
        shape,
        *layout,
        columns,
        n_columns_ef,
        last_row_shifted_f@.len(),
        n_last_row_shifted_ef,
    ) == r);
    assert forall|i: int| #![trigger errors[i]] 0 <= i < 14 implies (r == Err::<usize, SetupError>(
        errors[i],
    ) <==> !held[i] && forall|j: int| #![trigger held[j]] 0 <= j < i ==> held[j]) by {
        lemma_first(held, i);
    }
    lemma_first(held, 14);
}

/// Which columns are public, and how far, is up to the layout: where inputs are
/// accepted, they are accepted with any public data that is taken from the columns
/// themselves, each from its own.
pub proof fn own_prefixes_are_accepted<A: Air>(
    air: &A,
    layout: &AirSnarkTraceLayout<Felt>,
    other: &AirSnarkTraceLayout<Felt>,
    columns_f: &Vec<Vec<Felt>>,
    last_row_shifted_f: &Vec<Felt>,
    log: usize,
    r: Result<usize, SetupError>,
)
    requires
        call_ensures(
            check_prover_inputs::<A>,
            (air, layout, columns_f, 0, last_row_shifted_f, 0),
            Ok(log),
        ),
        call_ensures(
            check_prover_inputs::<A>,
            (air, other, columns_f, 0, last_row_shifted_f, 0),
            r,
        ),
        other.dims_f@.len() == layout.dims_f@.len(),
        forall|i: int|
            0 <= i < layout.dims_f@.len() ==> (#[trigger] other.dims_f@[i]).n_vars
                == layout.dims_f@[i].n_vars && other.dims_f@[i].committed_size > 0,
        forall|c: usize|
            #[trigger] other.public_data_f@.contains_key(c) ==> c < columns_f@.len() && (
            other.dims_f@[c as int].log_public_data_size matches Some(l) && pow2(l as nat)
                <= columns_f@[c as int]@.len() && other.public_data_f@[c]@
                == columns_f@[c as int]@.take(pow2(l as nat) as int)),
    ensures
        r == Ok::<usize, SetupError>(log),
{
    let columns = columns_f@;
    let height = ceil_log2(columns[0]@.len()) as usize;
    assert(layout_height_is(layout.dims_f@, height));
    assert(layout_height_is(other.dims_f@, height)) by {
        assert forall|i: int| 0 <= i < other.dims_f@.len() implies (
        #[trigger] other.dims_f@[i]).n_vars == height by {
            assert(layout.dims_f@[i].n_vars == height);
        }
    }
    assert(all_have_committed(other.dims_f@));
}

/// An AIR is over base-field columns only where it has no extension-field columns
/// and shifts none.
pub proof fn base_field_means_no_extension_columns<A: Air>(air: &A, r: bool)
    requires
        call_ensures(is_base_field_only::<A>, (air,), r),
    ensures
        r <==> air.shape().n_columns_ef == 0 && air.shape().down_ef.len() == 0,
{
}

/// What the layout of a verifier must meet, in the order in which it is checked, for
/// a trace of `2^log_n_rows` rows. It is accepted where all of it holds; else the
/// fault tells what is the first that does not hold.
pub proof fn verifier_layouts_are_checked_in_order<A: Air>(
    air: &A,
    layout: &AirSnarkTraceLayout<Felt>,
    log_n_rows: usize,
    r: Result<(), LayoutFault>,
)
    requires
        call_ensures(check_verifier_layout::<A>, (air, layout, log_n_rows), r),
    ensures
        ({
            let dims = layout.dims_f@;
            let public = layout.public_data_f@;
            let width = dims.len() == air.shape().n_columns_f;
            let height = forall|i: int|
                #![trigger dims[i]]
                0 <= i < dims.len() ==> dims[i].n_vars == log_n_rows;
            let committed = forall|i: int|
                #![trigger dims[i]]
                0 <= i < dims.len() ==> dims[i].committed_size >= 1;
            let declared = forall|c: usize|
                #![trigger public.contains_key(c)]
                public.contains_key(c) && c < dims.len() ==> (
                dims[c as int].log_public_data_size matches Some(l) && public[c]@.len() == pow2(
                    l as nat,
                ));
            let known = forall|c: usize|
                #![trigger public.contains_key(c)]
                public.contains_key(c) ==> c < dims.len();
            &&& r is Ok <==> width && height && committed && declared && known
            &&& r == Err::<(), LayoutFault>(LayoutFault::Setup(SetupError::LayoutWidth)) <==> !width
            &&& r == Err::<(), LayoutFault>(LayoutFault::Setup(SetupError::LayoutHeight)) <==> width
                && !height
            &&& r == Err::<(), LayoutFault>(LayoutFault::InvalidProof) <==> width && height && !(
            committed && declared)
            &&& r == Err::<(), LayoutFault>(LayoutFault::Setup(SetupError::PublicColumn)) <==> width
                && height && committed && declared && !known
        }),
{
    let dims = layout.dims_f@;
    let public = layout.public_data_f@;
    assert(layout_height_is(dims, log_n_rows) <==> forall|i: int|
        #![trigger dims[i]]
        0 <= i < dims.len() ==> dims[i].n_vars == log_n_rows);
    assert(all_have_committed(dims) <==> forall|i: int|
        #![trigger dims[i]]
        0 <= i < dims.len() ==> dims[i].committed_size >= 1);
    assert(public_lengths_fit(dims, public) <==> forall|c: usize|
        #![trigger public.contains_key(c)]
        public.contains_key(c) && c < dims.len() ==> (
        dims[c as int].log_public_data_size matches Some(l) && public[c]@.len() == pow2(l as nat)));
}

/// A prover and a verifier agree: with the same AIR and layout, the verifier accepts
/// the layout at the height that the prover finds.
pub proof fn prover_and_verifier_checks_agree<A: Air>(
    air: &A,
    layout: &AirSnarkTraceLayout<Felt>,
    columns_f: &Vec<Vec<Felt>>,
    n_columns_ef: usize,
    last_row_shifted_f: &Vec<Felt>,
    n_last_row_shifted_ef: usize,
    log: usize,
    base: bool,
    r: Result<(), LayoutFault>,
)
    requires
        call_ensures(
            check_prover_inputs::<A>,
            (air, layout, columns_f, n_columns_ef, last_row_shifted_f, n_last_row_shifted_ef),
            Ok(log),
        ),
        call_ensures(is_base_field_only::<A>, (air,), base),
        call_ensures(check_verifier_layout::<A>, (air, layout, log), r),
    ensures
        base,
        r is Ok,
{
}

} // verus!
