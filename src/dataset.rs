use vstd::prelude::*;

verus! {

/// Why a table cannot serve as training data.
#[derive(Clone, Copy, Debug, PartialEq, Eq, Structural)]
pub enum DataFormatError {
    /// The table has no rows.
    EmptyTable,
    /// The first row has fewer than two columns: no feature beside the target.
    TooFewColumns,
    /// The row at this index does not have as many columns as the first row.
    RaggedRow { row: usize },
}

/// Every row of `rows` has exactly `width` columns.
pub open spec fn all_rows_have_width<T>(rows: Seq<Vec<T>>, width: int) -> bool {
    forall|i: int| 0 <= i < rows.len() ==> (#[trigger] rows[i])@.len() == width
}

/// `r` is the first row whose width differs from `width`.
pub open spec fn is_first_ragged_row<T>(rows: Seq<Vec<T>>, width: int, r: int) -> bool {
    &&& 0 <= r < rows.len()
    &&& rows[r]@.len() != width
    &&& all_rows_have_width(rows.take(r), width)
}

/// A non-empty table whose rows all have the width of the first, at least
/// two columns.
pub open spec fn is_valid_table<T>(rows: Seq<Vec<T>>) -> bool {
    &&& rows.len() > 0
    &&& rows[0]@.len() >= 2
    &&& all_rows_have_width(rows, rows[0]@.len() as int)
}

/// `e` is the error that the table `rows` is rejected with: an empty table,
/// then a first row that is too narrow, then the first row whose width
/// differs from the first row's.
pub open spec fn is_table_error<T>(rows: Seq<Vec<T>>, e: DataFormatError) -> bool {
    if rows.len() == 0 {
        e == DataFormatError::EmptyTable
    } else if rows[0]@.len() < 2 {
        e == DataFormatError::TooFewColumns
    } else {
        exists|k: int|
            is_first_ragged_row(rows, rows[0]@.len() as int, k) && e == (DataFormatError::RaggedRow {
                row: k as usize,
            })
    }
}

/// A table of training data: one feature vector and one target per row.
pub struct DataSet<T> {
    inputs: Vec<Vec<T>>,
    targets: Vec<T>,
}

impl<T: Copy> DataSet<T> {
    /// The feature vectors, in row order.
    pub closed spec fn inputs_view(&self) -> Seq<Seq<T>> {
        self.inputs@.map_values(|r: Vec<T>| r@)
    }

    /// The targets, in row order.
    pub closed spec fn targets_view(&self) -> Seq<T> {
        self.targets@
    }

    /// The number of features of each row.
    pub open spec fn dim(&self) -> int {
        self.inputs_view()[0].len() as int
    }

    /// At least one row and one feature, every feature vector of the same
    /// length, and one target per feature vector.
    pub open spec fn wf(&self) -> bool {
        &&& self.inputs_view().len() >= 1
        &&& self.targets_view().len() == self.inputs_view().len()
        &&& self.dim() >= 1
        &&& forall|i: int|
            0 <= i < self.inputs_view().len() ==> (#[trigger] self.inputs_view()[i]).len()
                == self.dim()
    }

    /// The data set holds the table `rows`: for each row, all columns but the
    /// last as the feature vector and the last as the target.
    pub open spec fn holds_table(&self, rows: Seq<Vec<T>>) -> bool {
        &&& self.inputs_view().len() == rows.len()
        &&& self.targets_view().len() == rows.len()
        &&& forall|i: int|
            0 <= i < rows.len() ==> (#[trigger] self.inputs_view()[i]) == rows[i]@.take(
                rows[i]@.len() - 1,
            ) && self.targets_view()[i] == rows[i]@[rows[i]@.len() - 1]
    }

    /// Splits a table whose last column is the target and whose other columns
    /// are the features.
    pub fn from_rows(rows: &Vec<Vec<T>>) -> (r: Result<DataSet<T>, DataFormatError>)
        ensures
            r is Ok <==> is_valid_table(rows@),
            r is Ok ==> r->Ok_0.wf() && r->Ok_0.holds_table(rows@),
            r is Err ==> is_table_error(rows@, r->Err_0),
    {
        if rows.len() == 0 {
            return Err(DataFormatError::EmptyTable);
        }
        let width = rows[0].len();
        if width < 2 {
            return Err(DataFormatError::TooFewColumns);
        }
        let dim = width - 1;
        let mut inputs: Vec<Vec<T>> = Vec::new();
        let mut targets: Vec<T> = Vec::new();
        let mut i: usize = 0;
        while i < rows.len()
            invariant
                0 <= i <= rows@.len(),
                width == rows@[0]@.len(),
                width >= 2,
                dim + 1 == width,
                inputs@.len() == i,
                targets@.len() == i,
                all_rows_have_width(rows@.take(i as int), width as int),
                forall|k: int|
                    0 <= k < i ==> (#[trigger] inputs@[k])@ == rows@[k]@.take(dim as int)
                        && targets@[k] == rows@[k]@[dim as int],
            decreases rows@.len() - i,
        {
            let row = &rows[i];
            if row.len() != width {
                assert(is_first_ragged_row(rows@, width as int, i as int));
                assert(!all_rows_have_width(rows@, width as int));
                return Err(DataFormatError::RaggedRow { row: i });
            }
            let mut features: Vec<T> = Vec::new();
            let mut j: usize = 0;
            while j < dim
                invariant
                    0 <= j <= dim,
                    row@.len() == dim + 1,
                    features@ == row@.take(j as int),
                decreases dim - j,
            {
                features.push(row[j]);
                j = j + 1;
                assert(features@ =~= row@.take(j as int));
            }
            inputs.push(features);
            targets.push(row[dim]);
            i = i + 1;
            assert(rows@.take(i as int).drop_last() =~= rows@.take(i - 1));
        }
        assert(rows@.take(i as int) =~= rows@);
        let d = DataSet { inputs, targets };
        assert forall|k: int| 0 <= k < rows@.len() implies (#[trigger] d.inputs_view()[k])
            == rows@[k]@.take(rows@[k]@.len() - 1) && d.targets_view()[k] == rows@[k]@[rows@[k]@.len()
            - 1] by {
            assert(rows@[k]@.len() == width);
            assert(d.inputs_view()[k] == d.inputs@[k]@);
        }
        assert(d.holds_table(rows@));
        assert(d.inputs_view()[0].len() == dim);
        Ok(d)
    }

    /// The feature vectors, in row order.
    pub fn inputs(&self) -> (r: &Vec<Vec<T>>)
        ensures
            r@.len() == self.inputs_view().len(),
            forall|i: int| 0 <= i < r@.len() ==> (#[trigger] r@[i])@ == self.inputs_view()[i],
    {
        &self.inputs
    }

    /// The targets, in row order.
    pub fn targets(&self) -> (r: &Vec<T>)
        ensures
            r@ == self.targets_view(),
    {
        &self.targets
    }

    /// The number of rows.
    pub fn n_rows(&self) -> (r: usize)
        ensures
            r == self.inputs_view().len(),
    {
        self.inputs.len()
    }

    /// The number of features of each row.
    pub fn n_features(&self) -> (r: usize)
        requires
            self.wf(),
        ensures
            r == self.dim(),
    {
        self.inputs[0].len()
    }
}

} // verus!
