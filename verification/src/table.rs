//! The trajectory table: four equal-length numeric columns.
//!
//! A sample has a spatial position `(x, y, z)` and a time `t`, all held as
//! exact integers in units of 1/1000000 of a data unit.  Raw columns may
//! carry missing cells; building a table replaces every missing cell with
//! zero and keeps every row, so the height of the table equals the raw row
//! count.  Columns of unequal length cannot form a table.

use vstd::prelude::*;

verus! {

/// Why a table could not be built.
#[derive(Clone, Copy, Debug, PartialEq, Eq, Structural)]
pub enum TableError {
    /// The four raw columns did not all have the same length.
    ColumnLengthMismatch,
    /// The input held no line that could serve as a header.
    NoHeader,
    /// The header named no column `x`, `y`, `z` or `t`.
    MissingColumn,
    /// A non-empty cell in a selected column was not a decimal number.
    BadCell,
}

/// A raw column with every missing cell replaced by zero.
pub open spec fn filled(col: Seq<Option<i64>>) -> Seq<i64> {
    col.map(
        |i: int, v: Option<i64>|
            match v {
                Option::Some(value) => value,
                Option::None => 0i64,
            },
    )
}

/// The trajectory table.  Positions are in the columns `x`, `y`, `z` and
/// times in `t`, all in units of 1/1000000; the four columns always have
/// the same length.
#[derive(Debug)]
pub struct TrajTable {
    pub x: Vec<i64>,
    pub y: Vec<i64>,
    pub z: Vec<i64>,
    pub t: Vec<i64>,
}

impl TrajTable {
    /// The table's invariant: four columns of one common length.
    pub open spec fn wf(self) -> bool {
        &&& self.x@.len() == self.y@.len()
        &&& self.x@.len() == self.z@.len()
        &&& self.x@.len() == self.t@.len()
    }

    /// The number of rows.
    pub open spec fn spec_height(self) -> nat {
        self.x@.len()
    }

    pub fn height(&self) -> (h: usize)
        ensures
            h == self.spec_height(),
    {
        self.x.len()
    }

    /// Build a table from four raw columns, replacing every missing cell
    /// with zero.  Succeeds exactly when the columns have equal lengths,
    /// and then keeps every row: the height equals the raw row count.
    pub fn from_columns(
        x: Vec<Option<i64>>,
        y: Vec<Option<i64>>,
        z: Vec<Option<i64>>,
        t: Vec<Option<i64>>,
    ) -> (r: Result<TrajTable, TableError>)
        ensures
            r is Ok <==> (x@.len() == y@.len() && x@.len() == z@.len() && x@.len() == t@.len()),
            r is Err ==> r == Result::<TrajTable, TableError>::Err(TableError::ColumnLengthMismatch),
            r matches Ok(table) ==> {
                &&& table.wf()
                &&& table.spec_height() == x@.len()
                &&& table.x@ == filled(x@)
                &&& table.y@ == filled(y@)
                &&& table.z@ == filled(z@)
                &&& table.t@ == filled(t@)
            },
    {
        if x.len() != y.len() || x.len() != z.len() || x.len() != t.len() {
            return Err(TableError::ColumnLengthMismatch);
        }
        Ok(
            TrajTable {
                x: fill_nulls(x),
                y: fill_nulls(y),
                z: fill_nulls(z),
                t: fill_nulls(t),
            },
        )
    }
}

/// Replace every missing cell of one raw column with zero, keeping the
/// column's length and every present value.
pub fn fill_nulls(col: Vec<Option<i64>>) -> (r: Vec<i64>)
    ensures
        r@ == filled(col@),
{
    let mut r: Vec<i64> = Vec::new();
    let n = col.len();
    let mut i: usize = 0;
    while i < n
        invariant
            i <= n,
            n == col@.len(),
            r@ == filled(col@).take(i as int),
        decreases n - i,
    {
        match col[i] {
            Some(value) => r.push(value),
            None => r.push(0),
        }
        proof {
            assert(r@ =~= filled(col@).take(i + 1));
        }
        i = i + 1;
    }
    proof {
        assert(r@ =~= filled(col@));
    }
    r
}

} // verus!
