//! The typed columnar data store that feeds the classifier: a table of
//! typed cells addressed by column name, with an explicit column order.

use vstd::prelude::*;

use crate::KnnError;

verus! {

/// One typed cell of the table.
///
/// `Real` carries the IEEE-754 bit pattern (`f64::to_bits`) of a 64-bit
/// float; this crate never computes with it, it only stores and routes it,
/// so the payload is kept as the raw bits.  `Integer` is widened to a real
/// number by the consumer only when a numeric feature vector is required.
#[derive(Debug, PartialEq, Eq)]
pub enum ColumnVal {
    /// Free-text string.
    Text(String),
    /// Boolean flag.
    Flag(bool),
    /// Floating-point number, stored as its bit pattern.
    Real(u64),
    /// Integer number.
    Integer(i64),
}

/// A numeric cell as extracted for a feature vector: either the bit
/// pattern of a real number or an integer still awaiting widening.
#[derive(Debug, Clone, Copy, PartialEq, Eq, Structural)]
pub enum NumericVal {
    /// Floating-point number, stored as its bit pattern.
    Real(u64),
    /// Integer number, to be widened to a real by the consumer.
    Integer(i64),
}

/// Whether a cell may enter a numeric feature vector.
pub open spec fn is_numeric(c: ColumnVal) -> bool {
    match c {
        ColumnVal::Real(_) => true,
        ColumnVal::Integer(_) => true,
        _ => false,
    }
}

/// The numeric payload of a numeric cell.
pub open spec fn numeric_of(c: ColumnVal) -> NumericVal {
    match c {
        ColumnVal::Real(b) => NumericVal::Real(b),
        ColumnVal::Integer(n) => NumericVal::Integer(n),
        _ => NumericVal::Integer(0),
    }
}

#[derive(Debug)]
struct Column {
    name: String,
    cells: Vec<ColumnVal>,
}

/// The typed, column-oriented in-memory table.
///
/// Columns are kept in a single ordered sequence of (name, cells) pairs:
/// the sequence order is the canonical column order, and well-formedness
/// demands unique names and one cell per row in every column.
#[derive(Debug)]
pub struct DataFrame {
    num_rows: usize,
    columns: Vec<Column>,
}

impl Clone for DataFrame {
    /// An independent copy: same row count, same column order, equal
    /// cells, and no sharing with the original.
    fn clone(&self) -> (r: Self)
        ensures
            r.row_count() == self.row_count(),
            r.col_count() == self.col_count(),
            forall|c: int| 0 <= c < self.col_count() ==> #[trigger] r.name_at(c) == self.name_at(c),
            forall|c: int|
                0 <= c < self.col_count() ==> #[trigger] r.cells_at(c) == self.cells_at(c),
            self.wf() ==> r.wf(),
    {
        let mut columns: Vec<Column> = Vec::new();
        let n = self.columns.len();
        for c in 0..n
            invariant
                n == self.col_count(),
                columns@.len() == c,
                forall|c2: int|
                    0 <= c2 < c ==> (#[trigger] columns@[c2]).name@ == self.columns@[c2].name@
                        && columns@[c2].cells@ == self.columns@[c2].cells@,
        {
            let col = &self.columns[c];
            columns.push(Column { name: col.name.clone(), cells: clone_cells(&col.cells) });
        }
        let r = DataFrame { num_rows: self.num_rows, columns };
        proof {
            assert forall|c: int|
                0 <= c < self.col_count() implies #[trigger] r.name_at(c) == self.name_at(c)
                && r.cells_at(c) == self.cells_at(c) by {
                assert(r.columns@[c].name@ == self.columns@[c].name@);
            }
            if self.wf() {
                assert forall|c: int|
                    0 <= c < r.col_count() implies #[trigger] r.cells_at(c).len()
                    == r.row_count() by {
                    assert(r.cells_at(c) == self.cells_at(c));
                    assert(self.cells_at(c).len() == self.row_count());
                }
                assert forall|c1: int, c2: int|
                    0 <= c1 < c2 < r.col_count() implies r.name_at(c1) != r.name_at(c2) by {
                    assert(r.name_at(c1) == self.name_at(c1));
                    assert(r.name_at(c2) == self.name_at(c2));
                    assert(self.name_at(c1) != self.name_at(c2));
                }
            }
        }
        r
    }
}

/// Element-wise copy of a column's cells; the copy holds equal values.
fn clone_cells(cells: &Vec<ColumnVal>) -> (r: Vec<ColumnVal>)
    ensures
        r@ == cells@,
{
    let mut r: Vec<ColumnVal> = Vec::new();
    for i in 0..cells.len()
        invariant
            r@ =~= cells@.take(i as int),
    {
        let c = match &cells[i] {
            ColumnVal::Text(s) => ColumnVal::Text(s.clone()),
            ColumnVal::Flag(b) => ColumnVal::Flag(*b),
            ColumnVal::Real(b) => ColumnVal::Real(*b),
            ColumnVal::Integer(n) => ColumnVal::Integer(*n),
        };
        assert(c == cells@[i as int]);
        r.push(c);
    }
    proof {
        assert(cells@.take(cells@.len() as int) =~= cells@);
    }
    r
}

impl DataFrame {
    /// Number of rows.
    pub closed spec fn row_count(self) -> int {
        self.num_rows as int
    }

    /// Number of columns.
    pub closed spec fn col_count(self) -> int {
        self.columns@.len() as int
    }

    /// Name of the column at position `c` of the column order.
    pub closed spec fn name_at(self, c: int) -> Seq<char> {
        self.columns@[c].name@
    }

    /// Cells of the column at position `c`, one per row.
    pub closed spec fn cells_at(self, c: int) -> Seq<ColumnVal> {
        self.columns@[c].cells@
    }

    /// Well-formedness: every column holds exactly one cell per row, and
    /// column names are unique.
    pub open spec fn wf(self) -> bool {
        &&& forall|c: int|
            0 <= c < self.col_count() ==> #[trigger] self.cells_at(c).len() == self.row_count()
        &&& forall|c1: int, c2: int|
            0 <= c1 < c2 < self.col_count() ==> self.name_at(c1) != self.name_at(c2)
    }

    /// Whether some column bears this name.
    pub open spec fn has_column(self, name: Seq<char>) -> bool {
        exists|c: int| 0 <= c < self.col_count() && #[trigger] self.name_at(c) == name
    }

    /// The position of the column bearing this name (meaningful when
    /// `has_column(name)` holds; unique in a well-formed table).
    pub open spec fn col_index_of(self, name: Seq<char>) -> int {
        choose|c: int| 0 <= c < self.col_count() && #[trigger] self.name_at(c) == name
    }

    /// Creates an empty table: no columns, no rows.
    pub fn new() -> (df: DataFrame)
        ensures
            df.wf(),
            df.row_count() == 0,
            df.col_count() == 0,
    {
        DataFrame { num_rows: 0, columns: Vec::new() }
    }

    /// Number of rows.
    pub fn num_rows(&self) -> (n: usize)
        ensures
            n == self.row_count(),
    {
        self.num_rows
    }

    /// Number of columns.
    pub fn num_columns(&self) -> (n: usize)
        ensures
            n == self.col_count(),
    {
        self.columns.len()
    }

    /// The position of the column bearing this name, if any.
    pub fn find_column(&self, name: &String) -> (r: Option<usize>)
        requires
            self.wf(),
        ensures
            match r {
                Some(c) => c < self.col_count() && self.name_at(c as int) == name@,
                None => !self.has_column(name@),
            },
    {
        let n = self.columns.len();
        for c in 0..n
            invariant
                n == self.col_count(),
                forall|c2: int| 0 <= c2 < c ==> #[trigger] self.name_at(c2) != name@,
        {
            if self.columns[c].name.eq(name) {
                return Some(c);
            }
        }
        None
    }

    /// The cell at column `col` of the column order, row `row`.
    pub fn cell(&self, col: usize, row: usize) -> (c: &ColumnVal)
        requires
            self.wf(),
            col < self.col_count(),
            row < self.row_count(),
        ensures
            *c == self.cells_at(col as int)[row as int],
    {
        &self.columns[col].cells[row]
    }

    /// Adds an empty column named `name` at the end of the column order.
    /// Columns are laid out before any row arrives: the call succeeds only
    /// on a table that still has no rows and no column of that name, and
    /// otherwise leaves the table unchanged.
    pub fn push_column(&mut self, name: String) -> (added: bool)
        requires
            old(self).wf(),
        ensures
            final(self).wf(),
            added <==> (old(self).row_count() == 0 && !old(self).has_column(name@)),
            added ==> final(self).row_count() == 0,
            added ==> final(self).col_count() == old(self).col_count() + 1,
            added ==> final(self).name_at(old(self).col_count()) == name@,
            added ==> final(self).cells_at(old(self).col_count()) == Seq::<ColumnVal>::empty(),
            added ==> forall|c: int|
                0 <= c < old(self).col_count() ==> #[trigger] final(self).name_at(c) == old(
                    self,
                ).name_at(c) && final(self).cells_at(c) == old(self).cells_at(c),
            !added ==> *final(self) == *old(self),
    {
        if self.num_rows != 0 {
            return false;
        }
        match self.find_column(&name) {
            Some(_) => false,
            None => {
                let ghost oldself = *self;
                let ghost nm = name@;
                self.columns.push(Column { name, cells: Vec::new() });
                proof {
                    assert forall|c1: int, c2: int|
                        0 <= c1 < c2 < self.col_count() implies self.name_at(c1) != self.name_at(
                        c2,
                    ) by {
                        assert(self.name_at(c1) == oldself.name_at(c1));
                        if c2 < self.col_count() - 1 {
                            assert(self.name_at(c2) == oldself.name_at(c2));
                        } else {
                            assert(!(0 <= c1 < oldself.col_count() && oldself.name_at(c1) == nm));
                        }
                    }
                    assert forall|c: int|
                        0 <= c < self.col_count() implies #[trigger] self.cells_at(c).len()
                        == self.row_count() by {
                        if c < self.col_count() - 1 {
                            assert(self.cells_at(c) == oldself.cells_at(c));
                            assert(oldself.cells_at(c).len() == oldself.row_count());
                        } else {
                            assert(self.cells_at(c).len() == 0);
                        }
                    }
                }
                true
            },
        }
    }

    /// Appends one row: cell `c` of `row` goes to the column at position
    /// `c` of the column order.  The call succeeds only when the row holds
    /// exactly one cell per column, and otherwise leaves the table
    /// unchanged.
    pub fn append_row(&mut self, row: Vec<ColumnVal>) -> (added: bool)
        requires
            old(self).wf(),
            old(self).row_count() < usize::MAX,
        ensures
            final(self).wf(),
            added <==> row@.len() == old(self).col_count(),
            added ==> final(self).row_count() == old(self).row_count() + 1,
            added ==> final(self).col_count() == old(self).col_count(),
            added ==> forall|c: int|
                0 <= c < old(self).col_count() ==> #[trigger] final(self).name_at(c) == old(
                    self,
                ).name_at(c),
            added ==> forall|c: int|
                0 <= c < old(self).col_count() ==> #[trigger] final(self).cells_at(c) == old(
                    self,
                ).cells_at(c).push(row@[c]),
            !added ==> *final(self) == *old(self),
    {
        if row.len() != self.columns.len() {
            return false;
        }
        let ghost row0 = row@;
        let ghost cols0 = self.columns@;
        let ghost nr0 = self.num_rows;
        let mut row = row;
        let mut c = self.columns.len();
        while c > 0
            invariant
                c <= cols0.len(),
                row@ == row0.take(c as int),
                row0.len() == cols0.len(),
                self.num_rows == nr0 < usize::MAX,
                self.columns@.len() == cols0.len(),
                forall|c2: int| 0 <= c2 < c ==> self.columns@[c2] == cols0[c2],
                forall|c2: int|
                    c <= c2 < cols0.len() ==> #[trigger] self.columns@[c2].name == cols0[c2].name,
                forall|c2: int|
                    c <= c2 < cols0.len() ==> #[trigger] self.columns@[c2].cells@
                        == cols0[c2].cells@.push(row0[c2]),
            decreases c,
        {
            c = c - 1;
            proof {
                assert(row0.take(c + 1).last() == row0[c as int]);
                assert(row0.take(c + 1).drop_last() =~= row0.take(c as int));
            }
            let val = row.pop().unwrap();
            let ghost cols_before = self.columns@;
            let mut col = self.columns.remove(c);
            proof {
                assert(col == cols0[c as int]);
            }
            col.cells.push(val);
            let ghost col_after = col;
            self.columns.insert(c, col);
            proof {
                cols_before.remove_ensures(c as int);
                cols_before.remove(c as int).insert_ensures(c as int, col_after);
                assert(self.columns@ =~= cols_before.update(c as int, col_after));
                assert(col_after.name == cols0[c as int].name);
                assert(col_after.cells@ == cols0[c as int].cells@.push(row0[c as int]));
                assert forall|c2: int|
                    c < c2 < cols0.len() implies self.columns@[c2] == cols_before[c2] by {
                }
                assert forall|c2: int|
                    c <= c2 < cols0.len() implies #[trigger] self.columns@[c2].name
                    == cols0[c2].name by {
                    if c2 != c {
                        assert(cols_before[c2].name == cols0[c2].name);
                    }
                }
                assert forall|c2: int|
                    c <= c2 < cols0.len() implies #[trigger] self.columns@[c2].cells@
                    == cols0[c2].cells@.push(row0[c2]) by {
                    if c2 != c {
                        assert(cols_before[c2].cells@ == cols0[c2].cells@.push(row0[c2]));
                    }
                }
            }
        }
        self.num_rows = self.num_rows + 1;
        proof {
            assert forall|c2: int|
                0 <= c2 < self.col_count() implies #[trigger] self.cells_at(c2).len()
                == self.row_count() by {
                assert(self.columns@[c2].cells@ == cols0[c2].cells@.push(row0[c2]));
                assert(old(self).cells_at(c2).len() == old(self).row_count());
            }
            assert forall|c1: int, c2: int|
                0 <= c1 < c2 < self.col_count() implies self.name_at(c1) != self.name_at(c2) by {
                assert(self.columns@[c1].name == cols0[c1].name);
                assert(self.columns@[c2].name == cols0[c2].name);
                assert(old(self).name_at(c1) != old(self).name_at(c2));
            }
            assert forall|c2: int|
                0 <= c2 < old(self).col_count() implies #[trigger] self.name_at(c2) == old(
                self,
            ).name_at(c2) by {
                assert(self.columns@[c2].name == cols0[c2].name);
            }
            assert forall|c2: int|
                0 <= c2 < old(self).col_count() implies #[trigger] self.cells_at(c2) == old(
                self,
            ).cells_at(c2).push(row0[c2]) by {
                assert(self.columns@[c2].cells@ == cols0[c2].cells@.push(row0[c2]));
            }
        }
        true
    }

    /// Restricts the table to the named columns, in the given order,
    /// replacing its contents with an independent projection (no aliasing
    /// of the previous columns).  Fails with `UnknownColumn` when some
    /// requested name is absent, and with `DuplicateColumn` when all are
    /// present but one is requested twice; on failure the table is left
    /// unchanged.
    pub fn restrict_columns(&mut self, column_names: Vec<String>) -> (result: Result<
        (),
        KnnError,
    >)
        requires
            old(self).wf(),
        ensures
            final(self).wf(),
            match result {
                Ok(()) => {
                    &&& forall|j: int|
                        0 <= j < column_names@.len() ==> old(self).has_column(
                            (#[trigger] column_names@[j])@,
                        )
                    &&& forall|j1: int, j2: int|
                        0 <= j1 < j2 < column_names@.len() ==> (#[trigger] column_names@[j1])@ != (
                        #[trigger] column_names@[j2])@
                    &&& final(self).row_count() == old(self).row_count()
                    &&& final(self).col_count() == column_names@.len()
                    &&& forall|j: int|
                        0 <= j < column_names@.len() ==> final(self).name_at(j) == (
                        #[trigger] column_names@[j])@
                    &&& forall|j: int|
                        0 <= j < column_names@.len() ==> #[trigger] final(self).cells_at(j) == old(
                            self,
                        ).cells_at(old(self).col_index_of(column_names@[j]@))
                },
                Err(e) => {
                    &&& *final(self) == *old(self)
                    &&& (e == KnnError::UnknownColumn || e == KnnError::DuplicateColumn)
                    &&& e == KnnError::UnknownColumn ==> exists|j: int|
                        0 <= j < column_names@.len() && !old(self).has_column(
                            (#[trigger] column_names@[j])@,
                        )
                    &&& e == KnnError::DuplicateColumn ==> (forall|j: int|
                        0 <= j < column_names@.len() ==> old(self).has_column(
                            (#[trigger] column_names@[j])@,
                        )) && (exists|j1: int, j2: int|
                        0 <= j1 < j2 < column_names@.len() && (#[trigger] column_names@[j1])@ == (
                        #[trigger] column_names@[j2])@)
                },
            },
    {
        let m = column_names.len();
        for j in 0..m
            invariant
                m == column_names@.len(),
                self.wf(),
                forall|j2: int|
                    0 <= j2 < j ==> self.has_column((#[trigger] column_names@[j2])@),
        {
            if self.find_column(&column_names[j]).is_none() {
                return Err(KnnError::UnknownColumn);
            }
        }
        for j1 in 0..m
            invariant
                m == column_names@.len(),
                self.wf(),
                forall|j2: int| 0 <= j2 < m ==> self.has_column((#[trigger] column_names@[j2])@),
                forall|a: int, b: int|
                    0 <= a < b < m && a < j1 ==> (#[trigger] column_names@[a])@ != (
                    #[trigger] column_names@[b])@,
        {
            for j2 in (j1 + 1)..m
                invariant
                    j1 < m == column_names@.len(),
                    self.wf(),
                    forall|j3: int|
                        0 <= j3 < m ==> self.has_column((#[trigger] column_names@[j3])@),
                    forall|b: int|
                        j1 < b < j2 ==> (#[trigger] column_names@[b])@ != column_names@[j1 as int]@,
            {
                if column_names[j1].eq(&column_names[j2]) {
                    return Err(KnnError::DuplicateColumn);
                }
            }
        }
        let mut new_columns: Vec<Column> = Vec::new();
        for j in 0..m
            invariant
                m == column_names@.len(),
                self.wf(),
                forall|j2: int|
                    0 <= j2 < m ==> self.has_column((#[trigger] column_names@[j2])@),
                new_columns@.len() == j,
                forall|j2: int|
                    0 <= j2 < j ==> (#[trigger] new_columns@[j2]).name@ == column_names@[j2]@
                        && new_columns@[j2].cells@ == self.cells_at(
                        self.col_index_of(column_names@[j2]@),
                    ),
        {
            let c = match self.find_column(&column_names[j]) {
                Some(c) => c,
                None => {
                    // unreachable: the first pass saw every name
                    return Err(KnnError::UnknownColumn);
                },
            };
            proof {
                let c2 = self.col_index_of(column_names@[j as int]@);
                assert(0 <= c2 < self.col_count() && self.name_at(c2) == column_names@[j as int]@);
                if c as int != c2 {
                    assert(self.name_at(c as int) != self.name_at(c2));
                }
            }
            let col = &self.columns[c];
            new_columns.push(
                Column { name: column_names[j].clone(), cells: clone_cells(&col.cells) },
            );
        }
        self.columns = new_columns;
        Ok(())
    }

    /// Extracts every row as a numeric feature vector in column order:
    /// each cell must be `Real` or `Integer`, and comes out as its
    /// `NumericVal` payload (the consumer widens `Integer` to a real
    /// number).  Fails with `UnsupportedCellVariant` exactly when some
    /// cell of the table is `Text` or `Flag`.
    pub fn numeric_rows(&self) -> (result: Result<Vec<Vec<NumericVal>>, KnnError>)
        requires
            self.wf(),
        ensures
            match result {
                Ok(rows) => {
                    &&& forall|c: int, r: int|
                        0 <= c < self.col_count() && 0 <= r < self.row_count() ==> is_numeric(
                            #[trigger] self.cells_at(c)[r],
                        )
                    &&& rows@.len() == self.row_count()
                    &&& forall|r: int|
                        0 <= r < self.row_count() ==> (#[trigger] rows@[r])@.len()
                            == self.col_count()
                    &&& forall|r: int, c: int|
                        #![trigger rows@[r], self.cells_at(c)]
                        0 <= r < self.row_count() && 0 <= c < self.col_count() ==> rows@[r]@[c]
                            == numeric_of(self.cells_at(c)[r])
                },
                Err(e) => {
                    &&& e == KnnError::UnsupportedCellVariant
                    &&& exists|c: int, r: int|
                        0 <= c < self.col_count() && 0 <= r < self.row_count() && !is_numeric(
                            #[trigger] self.cells_at(c)[r],
                        )
                },
            },
    {
        let nrows = self.num_rows;
        let ncols = self.columns.len();
        let mut rows: Vec<Vec<NumericVal>> = Vec::new();
        for r in 0..nrows
            invariant
                self.wf(),
                nrows == self.row_count(),
                ncols == self.col_count(),
                rows@.len() == r,
                forall|c: int, r2: int|
                    0 <= c < ncols && 0 <= r2 < r ==> is_numeric(#[trigger] self.cells_at(c)[r2]),
                forall|r2: int| 0 <= r2 < r ==> (#[trigger] rows@[r2])@.len() == ncols,
                forall|r2: int, c: int|
                    #![trigger rows@[r2], self.cells_at(c)]
                    0 <= r2 < r && 0 <= c < ncols ==> rows@[r2]@[c] == numeric_of(
                        self.cells_at(c)[r2],
                    ),
        {
            let mut row: Vec<NumericVal> = Vec::new();
            for c in 0..ncols
                invariant
                    self.wf(),
                    r < nrows == self.row_count(),
                    ncols == self.col_count(),
                    row@.len() == c,
                    forall|c2: int|
                        0 <= c2 < c ==> is_numeric(#[trigger] self.cells_at(c2)[r as int]),
                    forall|c2: int|
                        0 <= c2 < c ==> row@[c2] == numeric_of(
                            #[trigger] self.cells_at(c2)[r as int],
                        ),
            {
                proof {
                    assert(self.cells_at(c as int).len() == self.row_count());
                }
                let col = &self.columns[c];
                let cell = &col.cells[r];
                match cell {
                    ColumnVal::Real(b) => row.push(NumericVal::Real(*b)),
                    ColumnVal::Integer(n) => row.push(NumericVal::Integer(*n)),
                    _ => {
                        proof {
                            assert(!is_numeric(self.cells_at(c as int)[r as int]));
                        }
                        return Err(KnnError::UnsupportedCellVariant);
                    },
                }
            }
            rows.push(row);
        }
        Ok(rows)
    }

    /// Reads the column at position `col` of the column order as a boolean
    /// label column.  Fails with `UnsupportedCellVariant` exactly when some
    /// cell of that column is not a `Flag`.
    pub fn bool_column(&self, col: usize) -> (result: Result<Vec<bool>, KnnError>)
        requires
            self.wf(),
            col < self.col_count(),
        ensures
            match result {
                Ok(v) => {
                    &&& v@.len() == self.row_count()
                    &&& forall|r: int|
                        0 <= r < self.row_count() ==> #[trigger] self.cells_at(col as int)[r]
                            == ColumnVal::Flag(v@[r])
                },
                Err(e) => {
                    &&& e == KnnError::UnsupportedCellVariant
                    &&& exists|r: int|
                        0 <= r < self.row_count() && !(#[trigger] self.cells_at(col as int)[r]
                            is Flag)
                },
            },
    {
        let nrows = self.num_rows;
        let mut v: Vec<bool> = Vec::new();
        for r in 0..nrows
            invariant
                self.wf(),
                col < self.col_count(),
                nrows == self.row_count(),
                v@.len() == r,
                forall|r2: int|
                    0 <= r2 < r ==> #[trigger] self.cells_at(col as int)[r2] == ColumnVal::Flag(
                        v@[r2],
                    ),
        {
            proof {
                assert(self.cells_at(col as int).len() == self.row_count());
            }
            let column = &self.columns[col];
            let cell = &column.cells[r];
            match cell {
                ColumnVal::Flag(b) => v.push(*b),
                _ => {
                    proof {
                        assert(!(self.cells_at(col as int)[r as int] is Flag));
                    }
                    return Err(KnnError::UnsupportedCellVariant);
                },
            }
        }
        Ok(v)
    }
}

} // verus!
