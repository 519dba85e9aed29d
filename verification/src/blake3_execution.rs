//! A call of the BLAKE3 precompile: which memory it reads and writes, and the
//! row that it adds to the trace.

use crate::blake3::{INPUT_LIMBS, OUTPUT_LIMBS};
use crate::blake3_air::{
    num_cols_blake3, BLAKE3_COL_INPUT_LIMBS, BLAKE3_COL_MULTIPLICITY, BLAKE3_COL_NU_A,
    BLAKE3_COL_NU_B, BLAKE3_COL_NU_C, BLAKE3_COL_OUTPUT_LIMBS, BLAKE3_COL_P3_START, TABLE_CELLS,
};
use crate::blake3_trace::{hash_fields, hash_limbs, join_words, words_of};
use crate::field::{Felt, Ring, RingModel};
use vstd::prelude::*;

verus! {

/// What a call asks of the memory next.
#[derive(Debug)]
pub enum MemoryRequest {
    Read { address: usize, len: usize },
    Write { address: usize, values: Vec<Felt> },
}

/// What the memory answers.
#[derive(Debug)]
pub enum MemoryReply<E> {
    Values(Vec<Felt>),
    Written,
    Failed(E),
}

/// How far a call has come.
#[derive(Debug, Clone, Copy, PartialEq, Eq, Structural)]
pub enum Stage {
    ReadFirst,
    ReadSecond,
    WriteOutput,
    Done,
}

/// A call with addresses `arg_a` and `arg_b` of the two halves of the input and
/// `arg_c` of the output.
#[derive(Debug)]
pub struct Blake3Execution {
    pub arg_a: Felt,
    pub arg_b: Felt,
    pub arg_c: Felt,
    pub input: Vec<Felt>,
    pub stage: Stage,
}

/// The row that a finished call adds: the computation is left blank.
pub open spec fn executed_row(arg_a: Felt, arg_b: Felt, arg_c: Felt, input: Seq<Felt>) -> Seq<
    Felt,
> {
    Seq::new(
        TABLE_CELLS as nat,
        |k: int|
            if k == BLAKE3_COL_MULTIPLICITY {
                Felt::elem(1)
            } else if k == BLAKE3_COL_NU_A {
                arg_a
            } else if k == BLAKE3_COL_NU_B {
                arg_b
            } else if k == BLAKE3_COL_NU_C {
                arg_c
            } else if k < BLAKE3_COL_OUTPUT_LIMBS {
                input[k - BLAKE3_COL_INPUT_LIMBS]
            } else if k < BLAKE3_COL_P3_START {
                hash_limbs::<Felt>(words_of(input))[k - BLAKE3_COL_OUTPUT_LIMBS]
            } else {
                Felt::elem(0)
            },
    )
}

impl Blake3Execution {
    /// The limbs read so far fit the stage.
    pub open spec fn wf(self) -> bool {
        self.input@.len() == match self.stage {
            Stage::ReadFirst => 0nat,
            Stage::ReadSecond => 16nat,
            Stage::WriteOutput => 32nat,
            Stage::Done => 32nat,
        }
    }

    /// The answers that the request of this stage can get.
    pub open spec fn expects<E>(self, reply: MemoryReply<E>) -> bool {
        match reply {
            MemoryReply::Values(v) => v@.len() == 16 && (self.stage == Stage::ReadFirst
                || self.stage == Stage::ReadSecond),
            MemoryReply::Written => self.stage == Stage::WriteOutput,
            MemoryReply::Failed(_) => self.stage != Stage::Done,
        }
    }

    /// A call that has done nothing yet.
    pub fn start(arg_a: Felt, arg_b: Felt, arg_c: Felt) -> (r: Self)
        ensures
            r.wf(),
            r.arg_a == arg_a,
            r.arg_b == arg_b,
            r.arg_c == arg_c,
            r.stage == Stage::ReadFirst,
    {
        Blake3Execution { arg_a, arg_b, arg_c, input: Vec::new(), stage: Stage::ReadFirst }
    }

    /// The input limbs, once all of them are read.
    fn limbs(&self) -> (r: [Felt; INPUT_LIMBS])
        requires
            self.input@.len() == 32,
        ensures
            r@ == self.input@,
    {
        let mut r = [Felt::zero(); INPUT_LIMBS];
        let mut i: usize = 0;
        while i < INPUT_LIMBS
            invariant
                i <= 32,
                self.input@.len() == 32,
                forall|j: int| 0 <= j < i ==> #[trigger] r@[j] == self.input@[j],
            decreases 32 - i,
        {
            r[i] = self.input[i];
            i = i + 1;
        }
        assert(r@ =~= self.input@);
        r
    }

    /// What to ask of the memory: half of the input from each of the first two
    /// addresses, then the limbs of the hash are written to the third.
    pub fn request(&self) -> (r: Option<MemoryRequest>)
        requires
            self.wf(),
        ensures
            match self.stage {
                Stage::ReadFirst => r == Some(
                    MemoryRequest::Read { address: self.arg_a@ as usize, len: 16 },
                ),
                Stage::ReadSecond => r == Some(
                    MemoryRequest::Read { address: self.arg_b@ as usize, len: 16 },
                ),
                Stage::WriteOutput => r matches Some(MemoryRequest::Write { address, values })
                    && address == self.arg_c@ && values@
                    == hash_limbs::<Felt>(words_of(self.input@)),
                Stage::Done => r is None,
            },
    {
        match self.stage {
            Stage::ReadFirst => Some(
                MemoryRequest::Read { address: self.arg_a.to_usize(), len: INPUT_LIMBS / 2 },
            ),
            Stage::ReadSecond => Some(
                MemoryRequest::Read { address: self.arg_b.to_usize(), len: INPUT_LIMBS / 2 },
            ),
            Stage::WriteOutput => {
                let fields = hash_fields(join_words(&self.limbs()));
                let mut values: Vec<Felt> = Vec::with_capacity(OUTPUT_LIMBS);
                let mut i: usize = 0;
                while i < OUTPUT_LIMBS
                    invariant
                        i <= 16,
                        fields@.len() == 16,
                        values@ =~= fields@.take(i as int),
                    decreases 16 - i,
                {
                    values.push(fields[i]);
                    i = i + 1;
                }
                assert(values@ =~= fields@);
                Some(MemoryRequest::Write { address: self.arg_c.to_usize(), values })
            },
            Stage::Done => None,
        }
    }

    /// Take the answer to the request. A failure ends the call, and nothing of it
    /// is recorded.
    pub fn step<E>(self, reply: MemoryReply<E>) -> (r: Result<Self, E>)
        requires
            self.wf(),
            self.expects(reply),
        ensures
            match reply {
                MemoryReply::Failed(e) => r == Err::<Self, E>(e),
                MemoryReply::Values(v) => r matches Ok(next) && next.wf() && next.arg_a
                    == self.arg_a && next.arg_b == self.arg_b && next.arg_c == self.arg_c
                    && next.input@ == self.input@ + v@ && next.stage == (if self.stage
                    == Stage::ReadFirst {
                    Stage::ReadSecond
                } else {
                    Stage::WriteOutput
                }),
                MemoryReply::Written => r matches Ok(next) && next.wf() && next.arg_a == self.arg_a
                    && next.arg_b == self.arg_b && next.arg_c == self.arg_c && next.input@
                    == self.input@ && next.stage == Stage::Done,
            },
    {
        let mut next = self;
        match reply {
            MemoryReply::Failed(e) => Err(e),
            MemoryReply::Values(v) => {
                let mut values = v;
                next.input.append(&mut values);
                next.stage = if next.stage == Stage::ReadFirst {
                    Stage::ReadSecond
                } else {
                    Stage::WriteOutput
                };
                Ok(next)
            },
            MemoryReply::Written => {
                next.stage = Stage::Done;
                Ok(next)
            },
        }
    }

    /// The value of column `k` of the row of a finished call.
    fn row_value(&self, output: &[Felt; OUTPUT_LIMBS], k: usize) -> (r: Felt)
        requires
            self.input@.len() == 32,
            output@ == hash_limbs::<Felt>(words_of(self.input@)),
            k < TABLE_CELLS,
        ensures
            r == executed_row(self.arg_a, self.arg_b, self.arg_c, self.input@)[k as int],
    {
        if k == BLAKE3_COL_MULTIPLICITY {
            Felt::one()
        } else if k == BLAKE3_COL_NU_A {
            self.arg_a
        } else if k == BLAKE3_COL_NU_B {
            self.arg_b
        } else if k == BLAKE3_COL_NU_C {
            self.arg_c
        } else if k < BLAKE3_COL_OUTPUT_LIMBS {
            self.input[k - BLAKE3_COL_INPUT_LIMBS]
        } else if k < BLAKE3_COL_P3_START {
            output[k - BLAKE3_COL_OUTPUT_LIMBS]
        } else {
            Felt::zero()
        }
    }

    /// Add the row of a finished call to the columns of the trace.
    pub fn record(&self, columns: &mut Vec<Vec<Felt>>)
        requires
            self.wf(),
            self.stage == Stage::Done,
            old(columns)@.len() >= TABLE_CELLS,
        ensures
            final(columns)@.len() == old(columns)@.len(),
            forall|c: int|
                0 <= c < TABLE_CELLS ==> (#[trigger] final(columns)@[c])@ == old(
                    columns,
                )@[c]@.push(
                    executed_row(self.arg_a, self.arg_b, self.arg_c, self.input@)[c],
                ),
            forall|c: int|
                TABLE_CELLS <= c < old(columns)@.len() ==> #[trigger] final(columns)@[c] == old(
                    columns,
                )@[c],
            final(columns)@[BLAKE3_COL_NU_A as int]@.last() == self.arg_a,
            final(columns)@[BLAKE3_COL_NU_B as int]@.last() == self.arg_b,
            final(columns)@[BLAKE3_COL_NU_C as int]@.last() == self.arg_c,
    {
        let ghost row = executed_row(self.arg_a, self.arg_b, self.arg_c, self.input@);
        let output = hash_fields(join_words(&self.limbs()));
        let mut k: usize = 0;
        while k < num_cols_blake3()
            invariant
                k <= TABLE_CELLS,
                self.input@.len() == 32,
                output@ == hash_limbs::<Felt>(words_of(self.input@)),
                row == executed_row(self.arg_a, self.arg_b, self.arg_c, self.input@),
                columns@.len() == old(columns)@.len(),
                columns@.len() >= TABLE_CELLS,
                forall|c: int|
                    0 <= c < k ==> (#[trigger] columns@[c])@ == old(columns)@[c]@.push(row[c]),
                forall|c: int|
                    k <= c < columns@.len() ==> #[trigger] columns@[c] == old(columns)@[c],
            decreases TABLE_CELLS - k,
        {
            let value = self.row_value(&output, k);
            assert(columns@[k as int] == old(columns)@[k as int]);
            columns[k].push(value);
            k = k + 1;
        }
    }
}

} // verus!
