//! What the calls of the BLAKE3 precompile and the rows of its table come down to, of
//! every result that a call can have: the recorded row, the memory and the bus tell
//! the same story.

use crate::air::TableBuilder;
use crate::bits::all_zero;
use crate::blake3::{compress, INPUT_LIMBS, INPUT_WORDS, OUTPUT_LIMBS, OUTPUT_WORDS};
use crate::blake3_air::{table_claims, word_bit};
use crate::blake3_execution::{Blake3Execution, MemoryReply, MemoryRequest, Stage};
use crate::blake3_row_laws::{filled_row, filled_row_satisfies, padding_satisfies};
use crate::blake3_shape_laws::table_constraint_count;
use crate::blake3_table::{
    Blake3Precompile, BusData, BusDirection, BusMultiplicity, TableInteraction,
};
use crate::blake3_trace::{
    fill_trace_blake3, hash_fields, join_words, lemma_longest, lemma_longest_is_attained, longest,
    padded, row_limbs,
};
use crate::field::{Felt, Ring, RingModel, KOALA_BEAR_PRIME};
use vstd::prelude::*;

verus! {

/// The cells of a memory from an address on are the values.
pub open spec fn cells_are(memory: spec_fn(int) -> Felt, address: int, values: Seq<Felt>) -> bool {
    forall|i: int| 0 <= i < values.len() ==> memory(address + i) == #[trigger] values[i]
}

/// What a call asks of the memory, from start to end: sixteen cells at the first
/// address, sixteen at the second, and then the limbs of the hash are written at the
/// third.
pub proof fn call_reads_two_halves_and_writes_the_hash<E>(
    arg_a: Felt,
    arg_b: Felt,
    arg_c: Felt,
    start: Blake3Execution,
    first: Vec<Felt>,
    half: Blake3Execution,
    second: Vec<Felt>,
    read: Blake3Execution,
    done: Blake3Execution,
    requests: Seq<Option<MemoryRequest>>,
    limbs: &[Felt; INPUT_LIMBS],
    words: [u32; INPUT_WORDS],
    fields: [Felt; OUTPUT_LIMBS],
)
    requires
        call_ensures(Blake3Execution::start, (arg_a, arg_b, arg_c), start),
        first@.len() == 16,
        second@.len() == 16,
        call_ensures(Blake3Execution::step::<E>, (start, MemoryReply::Values(first)), Ok(half)),
        call_ensures(Blake3Execution::step::<E>, (half, MemoryReply::Values(second)), Ok(read)),
        call_ensures(Blake3Execution::step::<E>, (read, MemoryReply::Written), Ok(done)),
        requests.len() == 4,
        call_ensures(Blake3Execution::request, (&start,), requests[0]),
        call_ensures(Blake3Execution::request, (&half,), requests[1]),
        call_ensures(Blake3Execution::request, (&read,), requests[2]),
        call_ensures(Blake3Execution::request, (&done,), requests[3]),
        limbs@ == first@ + second@,
        call_ensures(join_words, (limbs,), words),
        call_ensures(hash_fields, (words,), fields),
    ensures
        requests[0] == Some(MemoryRequest::Read { address: arg_a@ as usize, len: 16 }),
        requests[1] == Some(MemoryRequest::Read { address: arg_b@ as usize, len: 16 }),
        requests[2] matches Some(MemoryRequest::Write { address, values }) && address
            == arg_c@ as usize && values@ == fields@,
        requests[3] is None,
        done.stage == Stage::Done,
        done.arg_a == arg_a,
        done.arg_b == arg_b,
        done.arg_c == arg_c,
        done.input@ == first@ + second@,
{
    assert(read.input@ =~= first@ + second@);
    assert(limbs@ == read.input@);
}

/// A memory that fails ends the call, at whatever stage, with its error.
pub proof fn failing_memory_ends_the_call<E>(
    call: Blake3Execution,
    e: E,
    r: Result<Blake3Execution, E>,
)
    requires
        call_ensures(Blake3Execution::step::<E>, (call, MemoryReply::Failed(e)), r),
    ensures
        r == Err::<Blake3Execution, E>(e),
{
}

/// The row of a finished call, column by column: multiplicity one, the three
/// addresses in their order, the limbs that were read, the limbs of their hash, and
/// zeros. Every column grows by that one value.
pub proof fn recorded_row_is_the_row_of_the_call(
    call: &Blake3Execution,
    columns: &mut Vec<Vec<Felt>>,
    limbs: &[Felt; INPUT_LIMBS],
    words: [u32; INPUT_WORDS],
    fields: [Felt; OUTPUT_LIMBS],
    c: int,
)
    requires
        call.input@.len() == 32,
        call_ensures(Blake3Execution::record, (call, columns), ()),
        limbs@ == call.input@,
        call_ensures(join_words, (limbs,), words),
        call_ensures(hash_fields, (words,), fields),
        0 <= c < 8564,
    ensures
        final(columns)@.len() == old(columns)@.len(),
        final(columns)@[c]@.len() == old(columns)@[c]@.len() + 1,
        final(columns)@[c]@.drop_last() == old(columns)@[c]@,
        c == 0 ==> final(columns)@[c]@.last()@ == 1,
        c == 1 ==> final(columns)@[c]@.last() == call.arg_a,
        c == 2 ==> final(columns)@[c]@.last() == call.arg_b,
        c == 3 ==> final(columns)@[c]@.last() == call.arg_c,
        4 <= c < 36 ==> final(columns)@[c]@.last() == call.input@[c - 4],
        36 <= c < 52 ==> final(columns)@[c]@.last() == fields@[c - 36],
        52 <= c ==> final(columns)@[c]@.last()@ == 0,
{
    broadcast use crate::field::lemma_of_int;

    assert(final(columns)@[c]@.drop_last() =~= old(columns)@[c]@);
}

/// The lookups of a recorded row find in the memory what the call read and wrote:
/// each says that the columns of its values hold the cells from the address in its
/// address column on, and they do, in a memory that answers the three requests of
/// the call. There are three of them, one for each address, and the call on the bus
/// names the three addresses in their order, once.
pub proof fn lookups_match_the_memory_of_the_call<const BUS: bool>(
    table: &Blake3Precompile<BUS>,
    interactions: Vec<TableInteraction>,
    call: &Blake3Execution,
    columns: &mut Vec<Vec<Felt>>,
    output: Vec<Felt>,
    memory: spec_fn(int) -> Felt,
    read: &Blake3Execution,
    i: int,
)
    requires
        call_ensures(Blake3Precompile::<BUS>::bus_interactions, (table,), interactions),
        call_ensures(Blake3Execution::record, (call, columns), ()),
        call.input@.len() == 32,
        read.stage == Stage::WriteOutput,
        read.input@ == call.input@,
        read.arg_c == call.arg_c,
        call_ensures(
            Blake3Execution::request,
            (read,),
            Some(MemoryRequest::Write { address: call.arg_c@ as usize, values: output }),
        ),
        cells_are(memory, call.arg_a@, call.input@.take(16)),
        cells_are(memory, call.arg_b@, call.input@.skip(16)),
        cells_are(memory, call.arg_c@, output@),
        0 <= i < interactions@.len(),
    ensures
        interactions@.len() == 4,
        interactions@[i] matches TableInteraction::ConsecutiveMemory { address, values, len }
            ==> len == 16 && forall|j: int|
            0 <= j < len ==> memory(final(columns)@[address as int]@.last()@ + j) == (
            #[trigger] final(columns)@[values + j])@.last(),
        interactions@[i] is ConsecutiveMemory <==> i > 0,
        i > 0 ==> final(columns)@[interactions@[i]->address as int]@.last() == seq![
            call.arg_a,
            call.arg_b,
            call.arg_c,
        ][i - 1],
        interactions@[0] matches TableInteraction::Bus(bus) && bus.direction == BusDirection::Pull
            && bus.domainsep == BusData::Constant(6) && (
        bus.multiplicity matches BusMultiplicity::Column(m)
            && final(columns)@[m as int]@.last()@ == 1) && bus.data@.len() == 3 && forall|k: int|
            0 <= k < 3 ==> ((#[trigger] bus.data@[k]) matches BusData::Column(d)
                && final(columns)@[d as int]@.last() == seq![
                call.arg_a,
                call.arg_b,
                call.arg_c,
            ][k]),
{
    broadcast use crate::field::lemma_of_int;

    if i > 0 {
        let address = interactions@[i]->address as int;
        let values = interactions@[i]->values as int;
        assert forall|j: int| 0 <= j < 16 implies memory(
            final(columns)@[address]@.last()@ + j,
        ) == (#[trigger] final(columns)@[values + j])@.last() by {
            if i == 1 {
                assert(call.input@.take(16)[j] == call.input@[j]);
            } else if i == 2 {
                assert(call.input@.skip(16)[j] == call.input@[16 + j]);
            } else {
                assert(output@[j] == final(columns)@[36 + j]@.last());
            }
        }
    }
}

/// What a row claims of the bus is what its table declares: the multiplicity and the
/// data of the bus interaction, read from their columns. Without the virtual bus
/// column the same four columns are declared. The constraints come on top of what was
/// claimed before.
pub proof fn rows_claim_their_bus_interaction<const BUS: bool, T: Ring + Copy>(
    table: &Blake3Precompile<BUS>,
    interactions: Vec<TableInteraction>,
    builder: &mut TableBuilder<T>,
)
    requires
        call_ensures(Blake3Precompile::<BUS>::bus_interactions, (table,), interactions),
        old(builder).flat@.len() == 8564,
        call_ensures(Blake3Precompile::<BUS>::eval::<T>, (table, builder), ()),
    ensures
        final(builder).flat@ == old(builder).flat@,
        final(builder).asserted@.len() == old(builder).asserted@.len() + 9153,
        final(builder).asserted@.take(old(builder).asserted@.len() as int)
            == old(builder).asserted@,
        final(builder).asserted@.skip(old(builder).asserted@.len() as int) == table_claims(
            old(builder).flat@,
        ),
        BUS ==> {
            &&& final(builder).declared@ == old(builder).declared@
            &&& final(builder).bus@.len() == old(builder).bus@.len() + 1
            &&& final(builder).bus@.drop_last() == old(builder).bus@
            &&& interactions@[0] matches TableInteraction::Bus(bus) && {
                let claim = final(builder).bus@.last();
                let flat = old(builder).flat@;
                &&& bus.multiplicity matches BusMultiplicity::Column(m) && claim.multiplicity
                    == flat[m as int]
                &&& bus.domainsep matches BusData::Constant(d) && claim.domainsep == T::elem(
                    d as nat,
                )
                &&& claim.data@.len() == bus.data@.len()
                &&& forall|k: int|
                    #![trigger bus.data@[k]]
                    0 <= k < bus.data@.len() ==> (bus.data@[k] matches BusData::Column(c)
                        && claim.data@[k] == flat[c as int])
            }
        },
        !BUS ==> {
            &&& final(builder).bus@ == old(builder).bus@
            &&& final(builder).declared@ == old(builder).declared@ + seq![
                old(builder).flat@[0],
                old(builder).flat@[1],
                old(builder).flat@[2],
                old(builder).flat@[3],
            ]
        },
{
    let (before, after) = (old(builder).asserted@, final(builder).asserted@);
    let flat = old(builder).flat@;
    table_constraint_count(flat);
    assert(after == before + table_claims(flat));
    assert(after.take(before.len() as int) =~= before);
    assert(after.skip(before.len() as int) =~= table_claims(flat));
    assert(flat.subrange(0, 4) =~= seq![flat[0], flat[1], flat[2], flat[3]]);
    assert(flat.subrange(1, 4) =~= seq![flat[1], flat[2], flat[3]]);
}

/// The table declares as many constraints as a row asserts, and two more where it has
/// the virtual bus column.
pub proof fn declared_constraints_are_asserted<const BUS: bool, T: Ring + Copy>(
    table: &Blake3Precompile<BUS>,
    n: usize,
    builder: &mut TableBuilder<T>,
)
    requires
        call_ensures(Blake3Precompile::<BUS>::n_constraints, (table,), n),
        old(builder).flat@.len() == 8564,
        call_ensures(Blake3Precompile::<BUS>::eval::<T>, (table, builder), ()),
    ensures
        n == final(builder).asserted@.len() - old(builder).asserted@.len() + if BUS {
            2int
        } else {
            0
        },
{
    table_constraint_count(old(builder).flat@);
}

/// A padding row needs no hash: all of its constraints are zero, it takes part in the
/// bus zero times, and where a vector of zeros stands at its pointer all of its
/// lookups hold.
pub proof fn padding_rows_fit_in<const BUS: bool>(
    table: &Blake3Precompile<BUS>,
    interactions: Vec<TableInteraction>,
    zero_vec_ptr: usize,
    null_hash_ptr: usize,
    ending_pc: usize,
    row: Vec<Felt>,
    memory: spec_fn(int) -> Felt,
    i: int,
)
    requires
        call_ensures(Blake3Precompile::<BUS>::bus_interactions, (table,), interactions),
        call_ensures(
            Blake3Precompile::<BUS>::padding_row,
            (table, zero_vec_ptr, null_hash_ptr, ending_pc),
            row,
        ),
        zero_vec_ptr < KOALA_BEAR_PRIME,
        cells_are(memory, zero_vec_ptr as int, Seq::new(16, |j: int| Felt::elem(0))),
        0 <= i < interactions@.len(),
    ensures
        row@.len() == 8564,
        all_zero(table_claims(row@)),
        interactions@[i] matches TableInteraction::ConsecutiveMemory { address, values, len }
            ==> row@[address as int]@ == zero_vec_ptr && forall|j: int|
            0 <= j < len ==> memory(row@[address as int]@ + j) == #[trigger] row@[values + j],
        interactions@[i] matches TableInteraction::Bus(bus) ==> (
        bus.multiplicity matches BusMultiplicity::Column(m) && row@[m as int]@ == 0),
{
    broadcast use crate::field::lemma_of_int;

    padding_satisfies(row@);
    if i > 0 {
        let address = interactions@[i]->address as int;
        let values = interactions@[i]->values as int;
        assert forall|j: int| 0 <= j < 16 implies memory(row@[address]@ + j)
            == #[trigger] row@[values + j] by {
            assert(Seq::new(16, |j: int| Felt::elem(0))[j] == Felt::elem(0));
        }
    }
}

/// A message word is made of two limbs, bit by bit: the low limb gives its bits where
/// they stand, and the low sixteen bits of the high limb stand above them.
pub proof fn joined_words_hold_both_limbs(
    limbs: &[Felt; INPUT_LIMBS],
    words: [u32; INPUT_WORDS],
    w: int,
    j: int,
)
    requires
        call_ensures(join_words, (limbs,), words),
        0 <= w < 16,
        0 <= j < 32,
    ensures
        word_bit(words@[w], j) <==> word_bit(limbs@[2 * w]@ as u32, j) || (j >= 16 && word_bit(
            limbs@[2 * w + 1]@ as u32,
            j - 16,
        )),
        limbs@[2 * w]@ < 0x1_0000 && limbs@[2 * w + 1]@ < 0x1_0000 ==> words@[w]
            == limbs@[2 * w]@ + 0x1_0000 * limbs@[2 * w + 1]@,
{
    broadcast use crate::field::lemma_felt_range;

    let (low, high) = (limbs@[2 * w]@ as u32, limbs@[2 * w + 1]@ as u32);
    let x = words@[w];
    let i = j as u32;
    if j < 16 {
        assert((x >> i) & 1 == (low >> i) & 1) by (bit_vector)
            requires
                x == low | (high << 16),
                i < 16,
        ;
    } else {
        let k = (j - 16) as u32;
        assert(((x >> i) & 1 == 1) <==> ((low >> i) & 1 == 1) || ((high >> k) & 1 == 1))
            by (bit_vector)
            requires
                x == low | (high << 16),
                16 <= i < 32,
                k == i - 16,
        ;
    }
    if low < 0x1_0000 && high < 0x1_0000 {
        assert(x == low + 0x1_0000 * high) by (bit_vector)
            requires
                x == low | (high << 16),
                low < 0x1_0000,
                high < 0x1_0000,
        ;
    }
}

/// The limbs of a hash are its words: low half first.
pub proof fn hash_limbs_make_up_the_hash(
    words: [u32; INPUT_WORDS],
    fields: [Felt; OUTPUT_LIMBS],
    hash: [u32; OUTPUT_WORDS],
    i: int,
)
    requires
        call_ensures(hash_fields, (words,), fields),
        call_ensures(compress, (words,), hash),
        0 <= i < 8,
    ensures
        fields@[2 * i]@ < 0x1_0000,
        fields@[2 * i + 1]@ < 0x1_0000,
        hash@[i] == fields@[2 * i]@ + 0x1_0000 * fields@[2 * i + 1]@,
{
    broadcast use crate::field::lemma_of_int;

    assert((2 * i) / 2 == i && (2 * i + 1) / 2 == i);
}

/// Filling a trace makes every column as long as the longest one. What stood in a
/// column stays, but for the output and the computation; short columns go on with
/// zeros; and the output limbs of every row are those of the hash of its input limbs.
pub proof fn filling_continues_and_hashes(
    trace: &mut Vec<Vec<Felt>>,
    c: int,
    r: int,
    limbs: &[Felt; INPUT_LIMBS],
    words: [u32; INPUT_WORDS],
    fields: [Felt; OUTPUT_LIMBS],
)
    requires
        old(trace)@.len() >= 8564,
        call_ensures(fill_trace_blake3, (trace,), ()),
        0 <= c < old(trace)@.len(),
        0 <= r < final(trace)@[c]@.len(),
        forall|i: int| 0 <= i < 32 ==> #[trigger] limbs@[i] == final(trace)@[4 + i]@[r],
        call_ensures(join_words, (limbs,), words),
        call_ensures(hash_fields, (words,), fields),
    ensures
        final(trace)@.len() == old(trace)@.len(),
        forall|d: int|
            0 <= d < old(trace)@.len() ==> old(trace)@[d]@.len() <= (
            #[trigger] final(trace)@[d])@.len() && final(trace)@[d]@.len()
                == final(trace)@[c]@.len(),
        exists|d: int|
            0 <= d < old(trace)@.len() && (#[trigger] old(trace)@[d])@.len()
                == final(trace)@[c]@.len(),
        c < 36 || 8564 <= c ==> {
            &&& r < old(trace)@[c]@.len() ==> final(trace)@[c]@[r] == old(trace)@[c]@[r]
            &&& r >= old(trace)@[c]@.len() ==> final(trace)@[c]@[r]@ == 0
        },
        36 <= c < 52 ==> final(trace)@[c]@[r] == fields@[c - 36],
{
    broadcast use crate::field::lemma_of_int;

    let before = old(trace)@;
    let n = longest(before, before.len() as int);
    lemma_longest_is_attained(before, before.len() as int);
    assert forall|d: int| 0 <= d < before.len() implies before[d]@.len() <= (
    #[trigger] final(trace)@[d])@.len() && final(trace)@[d]@.len() == n by {
        lemma_longest(before, before.len() as int, d);
    }
    assert(final(trace)@[c]@.len() == n);
    assert(limbs@ =~= row_limbs(before, r)) by {
        assert forall|i: int| 0 <= i < 32 implies limbs@[i] == row_limbs(before, r)[i] by {
            assert(final(trace)@[4 + i]@[r] == padded(before[4 + i]@, r));
        }
    }
}

/// Every constraint is zero on the rows of a filled trace whose multiplicity is zero,
/// and on those whose multiplicity is one and whose input limbs are sixteen-bit
/// numbers.
pub proof fn filled_traces_satisfy_the_table(trace: &mut Vec<Vec<Felt>>, r: int, row: Seq<Felt>)
    requires
        old(trace)@.len() >= 8564,
        call_ensures(fill_trace_blake3, (trace,), ()),
        0 <= r < final(trace)@[0]@.len(),
        row.len() == 8564,
        forall|c: int| 0 <= c < 8564 ==> #[trigger] row[c] == final(trace)@[c]@[r],
        row[0]@ == 0 || row[0]@ == 1,
        row[0]@ == 1 ==> forall|k: int| 4 <= k < 36 ==> (#[trigger] row[k])@ < 0x1_0000,
    ensures
        all_zero(table_claims(row)),
{
    let before = old(trace)@;
    assert(row =~= filled_row(before, r)) by {
        assert forall|c: int| 0 <= c < 8564 implies row[c] == filled_row(before, r)[c] by {
            assert(final(trace)@[c]@.len() == longest(before, before.len() as int));
            assert(final(trace)@[0]@.len() == longest(before, before.len() as int));
        }
    }
    assert forall|k: int| 0 <= k < 32 && row[0]@ == 1 implies (#[trigger] row_limbs(
        before,
        r,
    )[k])@ < 0x1_0000 by {
        assert(row[4 + k] == row_limbs(before, r)[k]);
    }
    filled_row_satisfies(before, r);
}

} // verus!
