//! The BLAKE3 precompile as a table of a virtual machine: its bus interactions,
//! its padding rows, the rows that its calls add, and its constraints.

use crate::air::{table_asserts, BusClaim, TableBuilder};
use crate::blake3::{FULL_ROUNDS, INPUT_LIMBS, INPUT_WORDS, OUTPUT_LIMBS, OUTPUT_WORDS, U32_LIMBS};
use crate::blake3_air::{
    bits_at, core_of, input_claims, num_cols_blake3, output_claims, pair_at, table_claims,
    Blake3Cols, ColIndex, BLAKE3_COL_INPUT_LIMBS, BLAKE3_COL_MULTIPLICITY, BLAKE3_COL_NU_A,
    BLAKE3_COL_NU_B, BLAKE3_COL_NU_C, BLAKE3_COL_OUTPUT_LIMBS, BLAKE3_COL_P3_START, OUTPUTS_AT,
    TABLE_CELLS,
};
use crate::blake3_eval::{
    assert_bits_gated, assert_limbs_gated, eval_blake3, lemma_cols_parts, pack_word,
};
use crate::field::{Felt, Ring, RingModel};
use vstd::prelude::*;

verus! {

pub const BLAKE3_HASH_64_NAME: &'static str = "blake3_hash_64";

/// The domain separator of BLAKE3 calls on the bus.
pub const BLAKE3_DOMAINSEP: usize = 6;

pub const QUARTER_ROUND_CONSTRAINTS: usize = 144;

pub const ROUND_CONSTRAINTS: usize = 8 * QUARTER_ROUND_CONSTRAINTS;

pub const FINAL_OUTPUT_CONSTRAINTS: usize = 528;

pub const INPUT_CONSTRAINTS: usize = INPUT_WORDS * (32 + U32_LIMBS);

pub const OUTPUT_CONSTRAINTS: usize = OUTPUT_WORDS * U32_LIMBS;

/// The side of the bus that an interaction is on.
#[derive(Debug, Clone, Copy, PartialEq, Eq, Structural)]
pub enum BusDirection {
    Pull,
    Push,
}

/// How often an interaction takes place on a row.
#[derive(Debug, Clone, Copy, PartialEq, Eq, Structural)]
pub enum BusMultiplicity {
    Column(ColIndex),
}

/// A value that enters the bus fingerprint.
#[derive(Debug, Clone, Copy, PartialEq, Eq, Structural)]
pub enum BusData {
    Column(ColIndex),
    Constant(usize),
}

/// An interaction of every row of a table with a bus.
#[derive(Debug)]
pub struct BusInteraction {
    pub direction: BusDirection,
    pub multiplicity: BusMultiplicity,
    pub domainsep: BusData,
    pub data: Vec<BusData>,
}

/// What a table takes part in: a bus, or lookups of consecutive memory cells.
#[derive(Debug)]
pub enum TableInteraction {
    Bus(BusInteraction),
    /// The columns `values .. values + len` are the memory cells from the address
    /// in column `address` on.
    ConsecutiveMemory { address: ColIndex, values: ColIndex, len: usize },
}

/// The tables of the machine.
#[derive(Debug, Clone, Copy, PartialEq, Eq, Structural)]
pub enum Table {
    Blake3,
}

/// The BLAKE3 table. With `BUS` its constraints include the virtual bus column.
#[derive(Debug, Clone, Copy, PartialEq, Eq, PartialOrd, Ord, Hash)]
pub struct Blake3Precompile<const BUS: bool>;

/// How a builder changes when a bus claim is added.
pub open spec fn bus_added<T>(
    before: TableBuilder<T>,
    after: TableBuilder<T>,
    multiplicity: T,
    domainsep: T,
    data: Seq<T>,
) -> bool {
    &&& after.flat == before.flat
    &&& after.declared == before.declared
    &&& after.asserted == before.asserted
    &&& after.bus@.len() == before.bus@.len() + 1
    &&& after.bus@.drop_last() == before.bus@
    &&& after.bus@.last().multiplicity == multiplicity
    &&& after.bus@.last().domainsep == domainsep
    &&& after.bus@.last().data@ == data
}

/// Add a bus claim, for the virtual bus column.
pub fn eval_bus_virtual<T>(
    builder: &mut TableBuilder<T>,
    multiplicity: T,
    domainsep: T,
    data: Vec<T>,
)
    ensures
        bus_added(*old(builder), *final(builder), multiplicity, domainsep, data@),
{
    builder.bus.push(BusClaim { multiplicity, domainsep, data });
    assert(builder.bus@.drop_last() =~= old(builder).bus@);
}

/// Claim that the input bits are bits and agree with the input limbs.
fn eval_inputs<T: Ring + Copy>(builder: &mut TableBuilder<T>, cols: &Blake3Cols<T>)
    requires
        old(builder).flat@.len() == TABLE_CELLS,
        cols.row() == core_of(old(builder).flat@),
    ensures
        table_asserts(*old(builder), *final(builder), input_claims(old(builder).flat@, 16)),
{
    let ghost flat = builder.flat@;
    let ghost start = builder.asserted@;
    let multiplicity = builder.flat[BLAKE3_COL_MULTIPLICITY];
    let mut word: usize = 0;
    while word < INPUT_WORDS
        invariant
            word <= 16,
            flat == old(builder).flat@,
            start == old(builder).asserted@,
            multiplicity == flat[0],
            flat.len() == TABLE_CELLS,
            cols.row() == core_of(flat),
            table_asserts(*old(builder), *builder, input_claims(flat, word as int)),
        decreases 16 - word,
    {
        let limbs = [
            builder.flat[BLAKE3_COL_INPUT_LIMBS + 2 * word],
            builder.flat[BLAKE3_COL_INPUT_LIMBS + 2 * word + 1],
        ];
        proof {
            lemma_cols_parts(*cols);
            assert(bits_at(core_of(flat), 0, word as int) == cols.inputs@[word as int]@);
            assert(limbs@ =~= pair_at(flat, BLAKE3_COL_INPUT_LIMBS as int, word as int));
        }
        assert_bits_gated(builder, &multiplicity, &cols.inputs[word]);
        assert_limbs_gated(builder, &multiplicity, &limbs, &pack_word(&cols.inputs[word]));
        word = word + 1;
        assert(builder.asserted@ =~= start + input_claims(flat, word as int));
    }
}

/// Claim that the output bits agree with the output limbs.
fn eval_outputs<T: Ring + Copy>(builder: &mut TableBuilder<T>, cols: &Blake3Cols<T>)
    requires
        old(builder).flat@.len() == TABLE_CELLS,
        cols.row() == core_of(old(builder).flat@),
    ensures
        table_asserts(*old(builder), *final(builder), output_claims(old(builder).flat@, 8)),
{
    let ghost flat = builder.flat@;
    let ghost start = builder.asserted@;
    let multiplicity = builder.flat[BLAKE3_COL_MULTIPLICITY];
    let mut word: usize = 0;
    while word < OUTPUT_WORDS
        invariant
            word <= 8,
            flat == old(builder).flat@,
            start == old(builder).asserted@,
            multiplicity == flat[0],
            flat.len() == TABLE_CELLS,
            cols.row() == core_of(flat),
            table_asserts(*old(builder), *builder, output_claims(flat, word as int)),
        decreases 8 - word,
    {
        let bits = if word < 4 {
            cols.outputs[0][word]
        } else {
            cols.outputs[1][word - 4]
        };
        let limbs = [
            builder.flat[BLAKE3_COL_OUTPUT_LIMBS + 2 * word],
            builder.flat[BLAKE3_COL_OUTPUT_LIMBS + 2 * word + 1],
        ];
        proof {
            lemma_cols_parts(*cols);
            assert(bits_at(core_of(flat), OUTPUTS_AT as int, word as int) == bits@);
            assert(limbs@ =~= pair_at(flat, BLAKE3_COL_OUTPUT_LIMBS as int, word as int));
        }
        assert_limbs_gated(builder, &multiplicity, &limbs, &pack_word(&bits));
        word = word + 1;
        assert(builder.asserted@ =~= start + output_claims(flat, word as int));
    }
}

/// What a row of the table claims: its bus interaction, as a bus claim or as
/// declared values, and its constraints.
pub open spec fn row_claimed<T: RingModel>(
    bus: bool,
    before: TableBuilder<T>,
    after: TableBuilder<T>,
) -> bool {
    let flat = before.flat@;
    &&& after.flat == before.flat
    &&& after.asserted@ == before.asserted@ + table_claims(flat)
    &&& if bus {
        &&& after.declared == before.declared
        &&& after.bus@.len() == before.bus@.len() + 1
        &&& after.bus@.drop_last() == before.bus@
        &&& after.bus@.last().multiplicity == flat[0]
        &&& after.bus@.last().domainsep == T::elem(BLAKE3_DOMAINSEP as nat)
        &&& after.bus@.last().data@ == flat.subrange(1, 4)
    } else {
        &&& after.declared@ == before.declared@ + flat.subrange(0, 4)
        &&& after.bus == before.bus
    }
}

impl<const BUS: bool> Blake3Precompile<BUS> {
    pub fn name(&self) -> (r: &'static str)
        ensures
            r@ == "blake3"@,
    {
        "blake3"
    }

    pub fn table(&self) -> (r: Table)
        ensures
            r == Table::Blake3,
    {
        Table::Blake3
    }

    pub fn n_columns_total(&self) -> (r: usize)
        ensures
            r == TABLE_CELLS,
    {
        num_cols_blake3()
    }

    /// The call that a row answers, and its memory: sixteen cells at each of two
    /// addresses for the input, sixteen for the output.
    pub fn bus_interactions(&self) -> (r: Vec<TableInteraction>)
        ensures
            r@.len() == 4,
            r@[0] matches TableInteraction::Bus(b) && b.direction == BusDirection::Pull
                && b.multiplicity == BusMultiplicity::Column(BLAKE3_COL_MULTIPLICITY)
                && b.domainsep == BusData::Constant(BLAKE3_DOMAINSEP) && b.data@ == seq![
                BusData::Column(BLAKE3_COL_NU_A),
                BusData::Column(BLAKE3_COL_NU_B),
                BusData::Column(BLAKE3_COL_NU_C),
            ],
            r@[1] == (TableInteraction::ConsecutiveMemory {
                address: BLAKE3_COL_NU_A,
                values: BLAKE3_COL_INPUT_LIMBS,
                len: 16,
            }),
            r@[2] == (TableInteraction::ConsecutiveMemory {
                address: BLAKE3_COL_NU_B,
                values: (BLAKE3_COL_INPUT_LIMBS + 16) as usize,
                len: 16,
            }),
            r@[3] == (TableInteraction::ConsecutiveMemory {
                address: BLAKE3_COL_NU_C,
                values: BLAKE3_COL_OUTPUT_LIMBS,
                len: 16,
            }),
    {
        let call = BusInteraction {
            direction: BusDirection::Pull,
            multiplicity: BusMultiplicity::Column(BLAKE3_COL_MULTIPLICITY),
            domainsep: BusData::Constant(BLAKE3_DOMAINSEP),
            data: vec![
                BusData::Column(BLAKE3_COL_NU_A),
                BusData::Column(BLAKE3_COL_NU_B),
                BusData::Column(BLAKE3_COL_NU_C),
            ],
        };
        let mut buses: Vec<TableInteraction> = Vec::new();
        buses.push(TableInteraction::Bus(call));
        buses.push(
            TableInteraction::ConsecutiveMemory {
                address: BLAKE3_COL_NU_A,
                values: BLAKE3_COL_INPUT_LIMBS,
                len: INPUT_LIMBS / 2,
            },
        );
        buses.push(
            TableInteraction::ConsecutiveMemory {
                address: BLAKE3_COL_NU_B,
                values: BLAKE3_COL_INPUT_LIMBS + INPUT_LIMBS / 2,
                len: INPUT_LIMBS / 2,
            },
        );
        buses.push(
            TableInteraction::ConsecutiveMemory {
                address: BLAKE3_COL_NU_C,
                values: BLAKE3_COL_OUTPUT_LIMBS,
                len: OUTPUT_LIMBS,
            },
        );
        buses
    }

    /// A row of multiplicity zero whose three addresses point at a vector of
    /// zeros.
    pub fn padding_row(&self, zero_vec_ptr: usize, _null_hash_ptr: usize, _ending_pc: usize) -> (r:
        Vec<Felt>)
        ensures
            r@ == Seq::new(
                TABLE_CELLS as nat,
                |k: int|
                    if 1 <= k <= 3 {
                        Felt::elem(zero_vec_ptr as nat)
                    } else {
                        Felt::elem(0)
                    },
            ),
    {
        let mut row: Vec<Felt> = Vec::with_capacity(num_cols_blake3());
        let zero = Felt::zero();
        let mut k: usize = 0;
        while k < num_cols_blake3()
            invariant
                k <= TABLE_CELLS,
                zero == Felt::elem(0),
                row@ =~= Seq::new(k as nat, |j: int| Felt::elem(0)),
            decreases TABLE_CELLS - k,
        {
            row.push(zero);
            k = k + 1;
        }
        row[BLAKE3_COL_NU_A] = Felt::from_usize(zero_vec_ptr);
        row[BLAKE3_COL_NU_B] = Felt::from_usize(zero_vec_ptr);
        row[BLAKE3_COL_NU_C] = Felt::from_usize(zero_vec_ptr);
        row
    }

    /// A bound on the degree of every constraint. Gating each of them by the
    /// multiplicity keeps padding rows simple and raises the degree by one.
    pub fn degree_air(&self) -> (r: usize)
        ensures
            r == 4,
    {
        4
    }

    pub fn n_columns(&self) -> (r: usize)
        ensures
            r == TABLE_CELLS,
    {
        num_cols_blake3()
    }

    /// Number of constraints of a row: those it asserts, and two more for the
    /// virtual bus column.
    pub fn n_constraints(&self) -> (r: usize)
        ensures
            r == 9153 + if BUS {
                2int
            } else {
                0
            },
    {
        let bus: usize = if BUS {
            2
        } else {
            0
        };
        bus + 1 + INPUT_CONSTRAINTS + FULL_ROUNDS * ROUND_CONSTRAINTS + FINAL_OUTPUT_CONSTRAINTS
            + OUTPUT_CONSTRAINTS
    }

    pub fn n_shift_columns(&self) -> (r: usize)
        ensures
            r == 0,
    {
        0
    }

    /// Claim everything of a row.
    pub fn eval<T: Ring + Copy>(&self, builder: &mut TableBuilder<T>)
        requires
            old(builder).flat@.len() == TABLE_CELLS,
        ensures
            row_claimed(BUS, *old(builder), *final(builder)),
    {
        let ghost flat = builder.flat@;
        let multiplicity = builder.flat[BLAKE3_COL_MULTIPLICITY];
        let nu_a = builder.flat[BLAKE3_COL_NU_A];
        let nu_b = builder.flat[BLAKE3_COL_NU_B];
        let nu_c = builder.flat[BLAKE3_COL_NU_C];
        let cols = Blake3Cols::read(builder.flat.as_slice(), BLAKE3_COL_P3_START);
        if BUS {
            eval_bus_virtual(
                builder,
                multiplicity,
                T::from_usize(BLAKE3_DOMAINSEP),
                vec![nu_a, nu_b, nu_c],
            );
            assert(builder.bus@.last().data@ =~= flat.subrange(1, 4));
        } else {
            builder.declared.push(multiplicity);
            builder.declared.push(nu_a);
            builder.declared.push(nu_b);
            builder.declared.push(nu_c);
            assert(builder.declared@ =~= old(builder).declared@ + flat.subrange(0, 4));
        }
        builder.assert_zero(multiplicity.bool_check());
        eval_inputs(builder, &cols);
        eval_blake3(builder, &multiplicity, &cols);
        eval_outputs(builder, &cols);
        assert(builder.asserted@ =~= old(builder).asserted@ + table_claims(flat));
    }
}

} // verus!
