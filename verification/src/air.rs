//! What the proof system asks of an AIR, and the row that its constraints read.

use vstd::prelude::*;

verus! {

/// The shape of an AIR: the sizes that a prover and a verifier agree on before
/// any constraint is evaluated.
pub struct AirShape {
    pub n_columns_f: usize,
    pub n_columns_ef: usize,
    pub degree: usize,
    pub n_constraints: usize,
    pub down_f: Seq<usize>,
    pub down_ef: Seq<usize>,
}

/// An arithmetic intermediate representation over two consecutive rows.
pub trait Air {
    /// The sizes that the methods below report.
    spec fn shape(&self) -> AirShape;

    /// Number of base-field columns.
    fn n_columns_f_air(&self) -> (r: usize)
        ensures
            r == self.shape().n_columns_f,
    ;

    /// Number of extension-field columns.
    fn n_columns_ef_air(&self) -> (r: usize)
        ensures
            r == self.shape().n_columns_ef,
    ;

    /// A bound on the degree of every constraint.
    fn degree(&self) -> (r: usize)
        ensures
            r == self.shape().degree,
    ;

    /// Number of constraints per row.
    fn n_constraints(&self) -> (r: usize)
        ensures
            r == self.shape().n_constraints,
    ;

    /// The base-field columns whose next-row value the constraints read.
    fn down_column_indexes_f(&self) -> (r: Vec<usize>)
        ensures
            r@ == self.shape().down_f,
    ;

    /// The extension-field columns whose next-row value the constraints read.
    fn down_column_indexes_ef(&self) -> (r: Vec<usize>)
        ensures
            r@ == self.shape().down_ef,
    ;
}

/// One row of a trace with the next-row values that an AIR asks for, and the
/// values that its constraints claim to be zero, in order.
pub struct RowBuilder<T> {
    pub up: Vec<T>,
    pub down: Vec<T>,
    pub asserted: Vec<T>,
}

impl<T> RowBuilder<T> {
    /// A builder that has asserted nothing yet.
    pub fn new(up: Vec<T>, down: Vec<T>) -> (r: Self)
        ensures
            r.up == up,
            r.down == down,
            r.asserted@ == Seq::<T>::empty(),
    {
        RowBuilder { up, down, asserted: Vec::new() }
    }

    /// The current row.
    pub fn up_f(&self) -> (r: &Vec<T>)
        ensures
            *r == self.up,
    {
        &self.up
    }

    /// The next-row values.
    pub fn down_f(&self) -> (r: &Vec<T>)
        ensures
            *r == self.down,
    {
        &self.down
    }

    /// Claim that a value is zero.
    pub fn assert_zero(&mut self, x: T)
        ensures
            final(self).up == old(self).up,
            final(self).down == old(self).down,
            final(self).asserted@ == old(self).asserted@.push(x),
    {
        self.asserted.push(x);
    }
}

/// How a builder changes when it asserts `claims`.
pub open spec fn asserts<T>(before: RowBuilder<T>, after: RowBuilder<T>, claims: Seq<T>) -> bool {
    &&& after.up == before.up
    &&& after.down == before.down
    &&& after.asserted@ == before.asserted@ + claims
}

/// What a row pulls from or pushes to a bus: the bus fingerprint is taken of the
/// domain separator and the data, and enters with the multiplicity.
pub struct BusClaim<T> {
    pub multiplicity: T,
    pub domainsep: T,
    pub data: Vec<T>,
}

/// One row of a table, and what its constraints claim of it: the values claimed
/// to be zero in order, the values declared, and the bus claims.
pub struct TableBuilder<T> {
    pub flat: Vec<T>,
    pub asserted: Vec<T>,
    pub declared: Vec<T>,
    pub bus: Vec<BusClaim<T>>,
}

impl<T> TableBuilder<T> {
    /// A builder that has claimed nothing yet.
    pub fn new(flat: Vec<T>) -> (r: Self)
        ensures
            r.flat == flat,
            r.asserted@ == Seq::<T>::empty(),
            r.declared@ == Seq::<T>::empty(),
            r.bus@ == Seq::<BusClaim<T>>::empty(),
    {
        TableBuilder { flat, asserted: Vec::new(), declared: Vec::new(), bus: Vec::new() }
    }

    /// Claim that a value is zero.
    pub fn assert_zero(&mut self, x: T)
        ensures
            table_asserts(*old(self), *final(self), seq![x]),
    {
        self.asserted.push(x);
        assert(self.asserted@ =~= old(self).asserted@ + seq![x]);
    }
}

/// How a table builder changes when it asserts `claims`.
pub open spec fn table_asserts<T>(
    before: TableBuilder<T>,
    after: TableBuilder<T>,
    claims: Seq<T>,
) -> bool {
    &&& after.flat == before.flat
    &&& after.declared == before.declared
    &&& after.bus == before.bus
    &&& after.asserted@ == before.asserted@ + claims
}

/// The `N` values from `at` on.
pub fn read_array<T: Copy, const N: usize>(row: &[T], at: usize) -> (r: [T; N])
    requires
        at < row.len(),
        at + N <= row.len(),
    ensures
        forall|k: int| 0 <= k < N ==> #[trigger] r@[k] == row@[at + k],
{
    let mut r = [row[at]; N];
    let mut k: usize = 0;
    while k < N
        invariant
            k <= N,
            at + N <= row.len(),
            forall|j: int| 0 <= j < k ==> #[trigger] r@[j] == row@[at + j],
        decreases N - k,
    {
        r[k] = row[at + k];
        k = k + 1;
    }
    r
}

} // verus!
