//! What a prover and a verifier of the single-AIR SNARK check of their inputs.

use crate::air::{Air, AirShape};
use crate::field::Felt;
use crate::snark::{
    ceil_log2, full_dims, is_power_of_two, lemma_not_beyond_bits, row_log, AirSnarkTraceLayout,
    ColDims,
};
use std::collections::BTreeMap;
use vstd::arithmetic::power2::pow2;
use vstd::bits::{lemma_usize_pow2_no_overflow, lemma_usize_shl_is_mul};
use vstd::prelude::*;

verus! {

broadcast use vstd::std_specs::btree::group_btree_axioms;

/// Why inputs do not fit together.
#[derive(Debug, Clone, Copy, PartialEq, Eq, Structural)]
pub enum SetupError {
    /// Extension-field trace columns are not supported.
    ExtensionColumns,
    /// Extension-field shifted values are not supported.
    ExtensionShiftedValues,
    /// There are no columns to take the number of rows from.
    NoColumns,
    /// The columns differ in length.
    RowCountMismatch,
    /// There are not as many columns as the AIR has.
    ColumnCount,
    /// The AIR has extension-field columns.
    ExtensionAir,
    /// The number of rows is no power of two.
    RowsNotPowerOfTwo,
    /// There are not as many shifted values as the AIR asks for.
    ShiftedValueCount,
    /// The AIR shifts extension-field columns.
    ExtensionShifts,
    /// The layout has not as many columns as the AIR.
    LayoutWidth,
    /// The layout has another number of rows.
    LayoutHeight,
    /// A column has no committed rows.
    NothingCommitted,
    /// The public data of a column is undeclared, of another length, or no prefix
    /// of the column.
    PublicData,
    /// There is public data for a column that does not exist.
    PublicColumn,
}

/// Every column of the layout has `2^n_vars` rows.
pub open spec fn layout_height_is(dims: Seq<ColDims<Felt>>, n_vars: usize) -> bool {
    forall|i: int| 0 <= i < dims.len() ==> (#[trigger] dims[i]).n_vars == n_vars
}

/// Every column of the layout has committed rows.
pub open spec fn all_have_committed(dims: Seq<ColDims<Felt>>) -> bool {
    forall|i: int| 0 <= i < dims.len() ==> (#[trigger] dims[i]).committed_size > 0
}

/// The public data of a column has the length that its dimensions declare.
pub open spec fn public_length_fits(dims: ColDims<Felt>, data: Seq<Felt>) -> bool {
    match dims.log_public_data_size {
        None => false,
        Some(l) => data.len() == pow2(l as nat),
    }
}

/// The public data of every column that exists has its declared length.
pub open spec fn public_lengths_fit(
    dims: Seq<ColDims<Felt>>,
    public: Map<usize, Vec<Felt>>,
) -> bool {
    forall|c: usize|
        #[trigger] public.contains_key(c) && c < dims.len() ==> public_length_fits(
            dims[c as int],
            public[c]@,
        )
}

/// The public data of every column that exists is a prefix of the column.
pub open spec fn public_prefixes(
    columns: Seq<Vec<Felt>>,
    public: Map<usize, Vec<Felt>>,
) -> bool {
    forall|c: usize|
        #[trigger] public.contains_key(c) && c < columns.len() ==> is_prefix(
            public[c]@,
            columns[c as int]@,
        )
}

/// `data` is a prefix of `column`.
pub open spec fn is_prefix(data: Seq<Felt>, column: Seq<Felt>) -> bool {
    data.len() <= column.len() && data == column.take(data.len() as int)
}

/// Public data is given for columns that exist only.
pub open spec fn public_columns_exist(n: nat, public: Map<usize, Vec<Felt>>) -> bool {
    forall|c: usize| #[trigger] public.contains_key(c) ==> c < n
}

/// All columns have the same length as the first.
pub open spec fn same_lengths(columns: Seq<Vec<Felt>>) -> bool {
    forall|i: int| 0 <= i < columns.len() ==> (#[trigger] columns[i])@.len() == columns[0]@.len()
}

/// What a prover finds of its inputs: the logarithm of the number of rows, or the
/// first thing that does not fit.
pub open spec fn prover_verdict(
    shape: AirShape,
    layout: AirSnarkTraceLayout<Felt>,
    columns: Seq<Vec<Felt>>,
    n_columns_ef: usize,
    n_shifted_f: nat,
    n_shifted_ef: usize,
) -> Result<usize, SetupError> {
    let dims = layout.dims_f@;
    let public = layout.public_data_f@;
    if n_columns_ef != 0 {
        Err(SetupError::ExtensionColumns)
    } else if n_shifted_ef != 0 {
        Err(SetupError::ExtensionShiftedValues)
    } else if columns.len() == 0 {
        Err(SetupError::NoColumns)
    } else if !same_lengths(columns) {
        Err(SetupError::RowCountMismatch)
    } else if columns.len() != shape.n_columns_f {
        Err(SetupError::ColumnCount)
    } else if shape.n_columns_ef != 0 {
        Err(SetupError::ExtensionAir)
    } else if !is_power_of_two(columns[0]@.len()) {
        Err(SetupError::RowsNotPowerOfTwo)
    } else if n_shifted_f != shape.down_f.len() {
        Err(SetupError::ShiftedValueCount)
    } else if shape.down_ef.len() != 0 {
        Err(SetupError::ExtensionShifts)
    } else if dims.len() != columns.len() {
        Err(SetupError::LayoutWidth)
    } else if !layout_height_is(dims, ceil_log2(columns[0]@.len()) as usize) {
        Err(SetupError::LayoutHeight)
    } else if !all_have_committed(dims) {
        Err(SetupError::NothingCommitted)
    } else if !public_lengths_fit(dims, public) || !public_prefixes(columns, public) {
        Err(SetupError::PublicData)
    } else if !public_columns_exist(dims.len(), public) {
        Err(SetupError::PublicColumn)
    } else {
        Ok(ceil_log2(columns[0]@.len()) as usize)
    }
}

fn check_lengths(columns: &Vec<Vec<Felt>>) -> (r: bool)
    requires
        columns@.len() > 0,
    ensures
        r == same_lengths(columns@),
{
    let n_rows: usize = columns[0].len();
    let mut i: usize = 0;
    while i < columns.len()
        invariant
            i <= columns@.len(),
            n_rows == columns@[0]@.len(),
            forall|j: int| 0 <= j < i ==> (#[trigger] columns@[j])@.len() == n_rows,
        decreases columns@.len() - i,
    {
        if columns[i].len() != n_rows {
            return false;
        }
        i = i + 1;
    }
    true
}

fn check_height(dims: &Vec<ColDims<Felt>>, n_vars: usize) -> (r: bool)
    ensures
        r == layout_height_is(dims@, n_vars),
{
    let mut i: usize = 0;
    while i < dims.len()
        invariant
            i <= dims@.len(),
            forall|j: int| 0 <= j < i ==> (#[trigger] dims@[j]).n_vars == n_vars,
        decreases dims@.len() - i,
    {
        if dims[i].n_vars != n_vars {
            return false;
        }
        i = i + 1;
    }
    true
}

fn check_committed(dims: &Vec<ColDims<Felt>>) -> (r: bool)
    ensures
        r == all_have_committed(dims@),
{
    let mut i: usize = 0;
    while i < dims.len()
        invariant
            i <= dims@.len(),
            forall|j: int| 0 <= j < i ==> (#[trigger] dims@[j]).committed_size > 0,
        decreases dims@.len() - i,
    {
        if dims[i].committed_size == 0 {
            return false;
        }
        i = i + 1;
    }
    true
}

/// Whether `len` is `2^log`.
fn is_pow2_of(len: usize, log: usize) -> (r: bool)
    ensures
        r == (len == pow2(log as nat)),
{
    if log >= usize::BITS as usize {
        proof {
            lemma_not_beyond_bits(len, log as nat);
        }
        return false;
    }
    proof {
        lemma_usize_pow2_no_overflow(log as nat);
        lemma_usize_shl_is_mul(1usize, log);
    }
    len == 1usize << log
}

fn check_public_length(dims: &ColDims<Felt>, data: &Vec<Felt>) -> (r: bool)
    ensures
        r == public_length_fits(*dims, data@),
{
    match dims.log_public_data_size {
        None => false,
        Some(log_public) => is_pow2_of(data.len(), log_public),
    }
}

fn check_prefix(data: &Vec<Felt>, column: &Vec<Felt>) -> (r: bool)
    ensures
        r == is_prefix(data@, column@),
{
    if data.len() > column.len() {
        return false;
    }
    let mut i: usize = 0;
    while i < data.len()
        invariant
            i <= data@.len() <= column@.len(),
            forall|j: int| 0 <= j < i ==> data@[j] == column@[j],
        decreases data@.len() - i,
    {
        if data[i] != column[i] {
            assert(data@[i as int] != column@.take(data@.len() as int)[i as int]);
            return false;
        }
        i = i + 1;
    }
    assert(data@ =~= column@.take(data@.len() as int));
    true
}

fn check_public_lengths(dims: &Vec<ColDims<Felt>>, public: &BTreeMap<usize, Vec<Felt>>) -> (r: bool)
    ensures
        r == public_lengths_fit(dims@, public@),
{
    let mut c: usize = 0;
    while c < dims.len()
        invariant
            c <= dims@.len(),
            forall|k: usize|
                #[trigger] public@.contains_key(k) && k < c ==> public_length_fits(
                    dims@[k as int],
                    public@[k]@,
                ),
        decreases dims@.len() - c,
    {
        if let Some(data) = public.get(&c) {
            if !check_public_length(&dims[c], data) {
                assert(public@.contains_key(c));
                return false;
            }
        }
        c = c + 1;
    }
    true
}

fn check_public_prefixes(columns: &Vec<Vec<Felt>>, public: &BTreeMap<usize, Vec<Felt>>) -> (r: bool)
    ensures
        r == public_prefixes(columns@, public@),
{
    let mut c: usize = 0;
    while c < columns.len()
        invariant
            c <= columns@.len(),
            forall|k: usize|
                #[trigger] public@.contains_key(k) && k < c ==> is_prefix(
                    public@[k]@,
                    columns@[k as int]@,
                ),
        decreases columns@.len() - c,
    {
        if let Some(data) = public.get(&c) {
            if !check_prefix(data, &columns[c]) {
                assert(public@.contains_key(c));
                return false;
            }
        }
        c = c + 1;
    }
    true
}

fn check_public_columns(n: usize, public: &BTreeMap<usize, Vec<Felt>>) -> (r: bool)
    ensures
        r == public_columns_exist(n as nat, public@),
{
    for kv in it: public.iter()
        invariant
            forall|i: int| 0 <= i < it.index() ==> *(#[trigger] it.seq()[i]).0 < n,
    {
        let (c, _data) = kv;
        if *c >= n {
            assert(public@.contains_key(*c));
            return false;
        }
    }
    true
}

/// Check the inputs of a prover: the AIR, the layout, the trace columns and the
/// values of the row after the last one. The result is the logarithm of the
/// number of rows.
pub fn check_prover_inputs<A: Air>(
    air: &A,
    layout: &AirSnarkTraceLayout<Felt>,
    columns_f: &Vec<Vec<Felt>>,
    n_columns_ef: usize,
    last_row_shifted_f: &Vec<Felt>,
    n_last_row_shifted_ef: usize,
) -> (r: Result<usize, SetupError>)
    ensures
        r == prover_verdict(
            air.shape(),
            *layout,
            columns_f@,
            n_columns_ef,
            last_row_shifted_f@.len(),
            n_last_row_shifted_ef,
        ),
{
    if n_columns_ef != 0 {
        return Err(SetupError::ExtensionColumns);
    }
    if n_last_row_shifted_ef != 0 {
        return Err(SetupError::ExtensionShiftedValues);
    }
    if columns_f.len() == 0 {
        return Err(SetupError::NoColumns);
    }
    let n_rows: usize = columns_f[0].len();
    if !check_lengths(columns_f) {
        return Err(SetupError::RowCountMismatch);
    }
    if columns_f.len() != air.n_columns_f_air() {
        return Err(SetupError::ColumnCount);
    }
    if air.n_columns_ef_air() != 0 {
        return Err(SetupError::ExtensionAir);
    }
    let log_n_rows: usize = match row_log(n_rows) {
        Some(log) => log,
        None => {
            return Err(SetupError::RowsNotPowerOfTwo);
        },
    };
    if last_row_shifted_f.len() != air.down_column_indexes_f().len() {
        return Err(SetupError::ShiftedValueCount);
    }
    if air.down_column_indexes_ef().len() != 0 {
        return Err(SetupError::ExtensionShifts);
    }
    if layout.dims_f.len() != columns_f.len() {
        return Err(SetupError::LayoutWidth);
    }
    if !check_height(&layout.dims_f, log_n_rows) {
        return Err(SetupError::LayoutHeight);
    }
    if !check_committed(&layout.dims_f) {
        return Err(SetupError::NothingCommitted);
    }
    if !check_public_lengths(&layout.dims_f, &layout.public_data_f) || !check_public_prefixes(
        columns_f,
        &layout.public_data_f,
    ) {
        return Err(SetupError::PublicData);
    }
    if !check_public_columns(layout.dims_f.len(), &layout.public_data_f) {
        return Err(SetupError::PublicColumn);
    }
    Ok(log_n_rows)
}

/// What is wrong with the layout that a verifier is given: a proof for it is
/// invalid, or it does not belong to the AIR at all.
#[derive(Debug, Clone, Copy, PartialEq, Eq, Structural)]
pub enum LayoutFault {
    InvalidProof,
    Setup(SetupError),
}

/// A verifier handles AIRs over base-field columns only.
pub open spec fn base_field_only(shape: AirShape) -> bool {
    shape.n_columns_ef == 0 && shape.down_ef.len() == 0
}

/// Whether the AIR is over base-field columns only.
pub fn is_base_field_only<A: Air>(air: &A) -> (r: bool)
    ensures
        r == base_field_only(air.shape()),
{
    air.n_columns_ef_air() == 0 && air.down_column_indexes_ef().len() == 0
}

/// What a verifier finds of its layout, for a trace of `2^log_n_rows` rows.
pub open spec fn layout_verdict(
    shape: AirShape,
    layout: AirSnarkTraceLayout<Felt>,
    log_n_rows: usize,
) -> Result<(), LayoutFault> {
    let dims = layout.dims_f@;
    let public = layout.public_data_f@;
    if dims.len() != shape.n_columns_f {
        Err(LayoutFault::Setup(SetupError::LayoutWidth))
    } else if !layout_height_is(dims, log_n_rows) {
        Err(LayoutFault::Setup(SetupError::LayoutHeight))
    } else if !all_have_committed(dims) {
        Err(LayoutFault::InvalidProof)
    } else if !public_lengths_fit(dims, public) {
        Err(LayoutFault::InvalidProof)
    } else if !public_columns_exist(dims.len(), public) {
        Err(LayoutFault::Setup(SetupError::PublicColumn))
    } else {
        Ok(())
    }
}

/// Check the layout of a verifier.
pub fn check_verifier_layout<A: Air>(
    air: &A,
    layout: &AirSnarkTraceLayout<Felt>,
    log_n_rows: usize,
) -> (r: Result<(), LayoutFault>)
    ensures
        r == layout_verdict(air.shape(), *layout, log_n_rows),
{
    if layout.dims_f.len() != air.n_columns_f_air() {
        return Err(LayoutFault::Setup(SetupError::LayoutWidth));
    }
    if !check_height(&layout.dims_f, log_n_rows) {
        return Err(LayoutFault::Setup(SetupError::LayoutHeight));
    }
    if !check_committed(&layout.dims_f) {
        return Err(LayoutFault::InvalidProof);
    }
    if !check_public_lengths(&layout.dims_f, &layout.public_data_f) {
        return Err(LayoutFault::InvalidProof);
    }
    if !check_public_columns(layout.dims_f.len(), &layout.public_data_f) {
        return Err(LayoutFault::Setup(SetupError::PublicColumn));
    }
    Ok(())
}

/// Whatever a prover accepts, a verifier with the same AIR and layout accepts.
pub proof fn verifier_accepts_what_prover_accepts(
    shape: AirShape,
    layout: AirSnarkTraceLayout<Felt>,
    columns: Seq<Vec<Felt>>,
    n_columns_ef: usize,
    n_shifted_f: nat,
    n_shifted_ef: usize,
)
    requires
        prover_verdict(shape, layout, columns, n_columns_ef, n_shifted_f, n_shifted_ef) is Ok,
    ensures
        base_field_only(shape),
        n_shifted_f == shape.down_f.len(),
        is_power_of_two(columns[0]@.len()),
        layout_verdict(shape, layout, ceil_log2(columns[0]@.len()) as usize) == Ok::<
            (),
            LayoutFault,
        >(()),
{
}

/// A verifier accepts the layout in which every column is committed in full.
pub proof fn all_committed_is_accepted(
    shape: AirShape,
    layout: AirSnarkTraceLayout<Felt>,
    log_n_rows: usize,
)
    requires
        log_n_rows < usize::BITS,
        layout.dims_f@ == Seq::new(
            shape.n_columns_f as nat,
            |i: int| full_dims::<Felt>(log_n_rows),
        ),
        layout.public_data_f@ == Map::<usize, Vec<Felt>>::empty(),
    ensures
        layout_verdict(shape, layout, log_n_rows) == Ok::<(), LayoutFault>(()),
{
    lemma_usize_pow2_no_overflow(log_n_rows as nat);
}

} // verus!
