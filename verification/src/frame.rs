//! Columns and frames: named sequences of typed cells, and ordered
//! collections of such columns that agree in length and differ in name.

use crate::datatypes::{
    clone_cell, conforms, value_conforms, value_fits, AnyValue, CellView, DataType,
    DataTypeView,
};
use crate::error::FrameError;
use vstd::prelude::*;

verus! {

/// The mathematical value of a column.
pub ghost struct SeriesView {
    pub name: Seq<char>,
    pub dtype: DataTypeView,
    pub values: Seq<CellView>,
}

impl SeriesView {
    /// The cells are cells of the column's type.
    pub open spec fn wf(self) -> bool {
        conforms(self.dtype, self.values)
    }
}

/// A named column of one type. Every cell it holds is a cell of that type.
#[derive(Debug, PartialEq, Eq)]
pub struct Series {
    name: String,
    dtype: DataType,
    values: Vec<Option<AnyValue>>,
}

/// A copy of a sequence of cells.
pub fn clone_cells(cells: &Vec<Option<AnyValue>>) -> (r: Vec<Option<AnyValue>>)
    ensures
        r.deep_view() == cells.deep_view(),
{
    let mut out: Vec<Option<AnyValue>> = Vec::with_capacity(cells.len());
    let mut i: usize = 0;
    while i < cells.len()
        invariant
            i <= cells.len(),
            out.len() == i,
            forall|k: int| 0 <= k < i ==> out@[k].deep_view() == cells@[k].deep_view(),
        decreases cells.len() - i,
    {
        out.push(clone_cell(&cells[i]));
        i += 1;
    }
    assert(out.deep_view() =~= cells.deep_view());
    out
}

impl View for Series {
    type V = SeriesView;

    closed spec fn view(&self) -> SeriesView {
        SeriesView { name: self.name@, dtype: self.dtype@, values: self.values.deep_view() }
    }
}

impl Clone for Series {
    fn clone(&self) -> (r: Series)
        ensures
            r@ == self@,
    {
        proof {
            use_type_invariant(self);
        }
        Series {
            name: self.name.clone(),
            dtype: self.dtype.clone(),
            values: clone_cells(&self.values),
        }
    }
}

impl Series {
    #[verifier::type_invariant]
    closed spec fn inv(&self) -> bool {
        conforms(self.dtype@, self.values.deep_view())
    }

    /// Makes a column, if every cell is a cell of the given type.
    pub fn new(name: &str, dtype: DataType, values: Vec<Option<AnyValue>>) -> (r: Result<
        Series,
        FrameError,
    >)
        ensures
            match r {
                Ok(s) => conforms(dtype@, values.deep_view()) && s@ == (SeriesView {
                    name: name@,
                    dtype: dtype@,
                    values: values.deep_view(),
                }),
                Err(e) => e == FrameError::SchemaMismatch && !conforms(dtype@, values.deep_view()),
            },
    {
        let mut i: usize = 0;
        while i < values.len()
            invariant
                i <= values.len(),
                conforms(dtype@, values.deep_view().take(i as int)),
            decreases values.len() - i,
        {
            match &values[i] {
                Some(v) => {
                    if !value_fits(&dtype, v) {
                        assert(values.deep_view()[i as int] == Some(v@));
                        return Err(FrameError::SchemaMismatch);
                    }
                },
                None => {},
            }
            assert forall|k: int| 0 <= k < i + 1 implies match #[trigger] values.deep_view().take(
                i + 1,
            )[k] {
                Some(v) => value_conforms(dtype@, v),
                None => true,
            } by {
                if k < i {
                    assert(values.deep_view().take(i as int)[k] == values.deep_view()[k]);
                }
            }
            i += 1;
        }
        assert(values.deep_view().take(i as int) =~= values.deep_view());
        Ok(Series { name: name.to_owned(), dtype, values })
    }

    /// Makes a column of cells that are known to be cells of its type.
    pub(crate) fn from_parts(name: String, dtype: DataType, values: Vec<Option<AnyValue>>) -> (r:
        Series)
        requires
            conforms(dtype@, values.deep_view()),
        ensures
            r@ == (SeriesView { name: name@, dtype: dtype@, values: values.deep_view() }),
    {
        Series { name, dtype, values }
    }

    /// The column's name.
    pub fn name(&self) -> (r: &String)
        ensures
            r@ == self@.name,
    {
        &self.name
    }

    /// The column's type.
    pub fn dtype(&self) -> (r: &DataType)
        ensures
            r@ == self@.dtype,
    {
        &self.dtype
    }

    /// The number of cells.
    pub fn len(&self) -> (r: usize)
        ensures
            r == self@.values.len(),
    {
        self.values.len()
    }

    /// The cells, in order.
    pub fn values(&self) -> (r: &Vec<Option<AnyValue>>)
        ensures
            r.deep_view() == self@.values,
            self@.wf(),
    {
        proof {
            use_type_invariant(self);
        }
        &self.values
    }
}

/// The mathematical value of a frame.
pub ghost struct DataFrameView {
    pub columns: Seq<SeriesView>,
}

impl DataFrameView {
    /// The number of rows.
    pub open spec fn height(self) -> nat {
        if self.columns.len() == 0 {
            0
        } else {
            self.columns[0].values.len()
        }
    }

    /// The names of the columns, in order.
    pub open spec fn names(self) -> Seq<Seq<char>> {
        self.columns.map_values(|c: SeriesView| c.name)
    }

    /// The columns are well formed, agree in length and differ in name.
    pub open spec fn wf(self) -> bool {
        &&& forall|i: int| 0 <= i < self.columns.len() ==> (#[trigger] self.columns[i]).wf()
        &&& forall|i: int|
            0 <= i < self.columns.len() ==> (#[trigger] self.columns[i]).values.len()
                == self.height()
        &&& forall|i: int, j: int|
            0 <= i < j < self.columns.len() ==> (#[trigger] self.columns[i]).name
                != (#[trigger] self.columns[j]).name
    }

    /// The position of the column with the given name.
    pub open spec fn index_of(self, name: Seq<char>) -> Option<int> {
        if exists|i: int| 0 <= i < self.columns.len() && (#[trigger] self.columns[i]).name == name {
            Some(
                choose|i: int|
                    0 <= i < self.columns.len() && (#[trigger] self.columns[i]).name == name,
            )
        } else {
            None
        }
    }
}

/// The columns agree in length.
pub open spec fn same_heights(columns: Seq<SeriesView>) -> bool {
    forall|i: int|
        0 <= i < columns.len() ==> (#[trigger] columns[i]).values.len() == columns[0].values.len()
}

/// The columns differ in name.
pub open spec fn distinct_names(columns: Seq<SeriesView>) -> bool {
    forall|i: int, j: int|
        0 <= i < j < columns.len() ==> (#[trigger] columns[i]).name != (#[trigger] columns[j]).name
}

/// The mathematical values of a sequence of columns.
pub open spec fn series_views(columns: Seq<Series>) -> Seq<SeriesView> {
    columns.map_values(|s: Series| s@)
}

/// An ordered collection of columns that agree in length and differ in name.
#[derive(Debug, PartialEq, Eq)]
pub struct DataFrame {
    columns: Vec<Series>,
}

impl View for DataFrame {
    type V = DataFrameView;

    closed spec fn view(&self) -> DataFrameView {
        DataFrameView { columns: series_views(self.columns@) }
    }
}

/// A copy of a sequence of columns.
pub fn clone_columns(columns: &Vec<Series>) -> (r: Vec<Series>)
    ensures
        series_views(r@) == series_views(columns@),
{
    let mut out: Vec<Series> = Vec::with_capacity(columns.len());
    let mut i: usize = 0;
    while i < columns.len()
        invariant
            i <= columns.len(),
            out.len() == i,
            forall|k: int| 0 <= k < i ==> out@[k]@ == columns@[k]@,
        decreases columns.len() - i,
    {
        out.push(columns[i].clone());
        i += 1;
    }
    assert(series_views(out@) =~= series_views(columns@));
    out
}

impl Clone for DataFrame {
    fn clone(&self) -> (r: DataFrame)
        ensures
            r@ == self@,
    {
        proof {
            use_type_invariant(self);
        }
        DataFrame { columns: clone_columns(&self.columns) }
    }
}

impl DataFrame {
    #[verifier::type_invariant]
    closed spec fn inv(&self) -> bool {
        self@.wf()
    }

    /// Makes a frame of the given columns, if they agree in length and
    /// differ in name.
    pub fn new(columns: Vec<Series>) -> (r: Result<DataFrame, FrameError>)
        ensures
            match r {
                Ok(df) => df@.columns == series_views(columns@) && df@.wf(),
                Err(e) => if same_heights(series_views(columns@)) {
                    e == FrameError::Duplicate && !distinct_names(series_views(columns@))
                } else {
                    e == FrameError::ShapeMismatch
                },
            },
    {
        let ghost views = series_views(columns@);
        let mut i: usize = 0;
        while i < columns.len()
            invariant
                i <= columns.len(),
                views == series_views(columns@),
                forall|k: int| 0 <= k < i ==> (#[trigger] views[k]).wf(),
                forall|k: int|
                    0 <= k < i ==> (#[trigger] views[k]).values.len() == views[0].values.len(),
            decreases columns.len() - i,
        {
            let col = &columns[i];
            let cells = col.values();
            assert(views[i as int] == col@);
            if col.len() != columns[0].len() {
                assert(views[0] == columns@[0]@);
                return Err(FrameError::ShapeMismatch);
            }
            i += 1;
        }
        let mut i: usize = 0;
        while i < columns.len()
            invariant
                i <= columns.len(),
                views == series_views(columns@),
                same_heights(views),
                forall|k: int| 0 <= k < columns@.len() ==> (#[trigger] views[k]).wf(),
                forall|k: int, j: int|
                    0 <= k < j < i ==> (#[trigger] views[k]).name != (#[trigger] views[j]).name,
            decreases columns.len() - i,
        {
            let mut j: usize = 0;
            while j < i
                invariant
                    j <= i,
                    i < columns.len(),
                    views == series_views(columns@),
                    same_heights(views),
                    forall|k: int| 0 <= k < j ==> (#[trigger] views[k]).name != views[i as int].name,
                decreases i - j,
            {
                assert(views[j as int] == columns@[j as int]@);
                assert(views[i as int] == columns@[i as int]@);
                if *columns[j].name() == *columns[i].name() {
                    assert(views[j as int].name == views[i as int].name);
                    return Err(FrameError::Duplicate);
                }
                j += 1;
            }
            i += 1;
        }
        Ok(DataFrame { columns })
    }

    /// Makes a frame of columns that are known to agree in length and to
    /// differ in name.
    pub(crate) fn from_columns(columns: Vec<Series>) -> (r: DataFrame)
        requires
            (DataFrameView { columns: series_views(columns@) }).wf(),
        ensures
            r@.columns == series_views(columns@),
            r@.wf(),
    {
        DataFrame { columns }
    }

    /// Recalls that a frame is well formed. Does nothing when run.
    pub fn well_formed(&self)
        ensures
            self@.wf(),
    {
        proof {
            use_type_invariant(self);
        }
    }

    /// The columns, in order.
    pub fn columns(&self) -> (r: &Vec<Series>)
        ensures
            series_views(r@) == self@.columns,
            r@.len() == self@.columns.len(),
            forall|i: int| 0 <= i < r@.len() ==> (#[trigger] r@[i])@ == self@.columns[i],
            self@.wf(),
    {
        proof {
            use_type_invariant(self);
        }
        &self.columns
    }

    /// The number of columns.
    pub fn width(&self) -> (r: usize)
        ensures
            r == self@.columns.len(),
    {
        self.columns.len()
    }

    /// The number of rows.
    pub fn height(&self) -> (r: usize)
        ensures
            r == self@.height(),
    {
        if self.columns.len() == 0 {
            0
        } else {
            self.columns[0].len()
        }
    }

    /// The position of the column with the given name, if there is one.
    pub fn find_idx_by_name(&self, name: &str) -> (r: Option<usize>)
        ensures
            match r {
                Some(i) => self@.index_of(name@) == Some(i as int) && i < self@.columns.len()
                    && self@.columns[i as int].name == name@,
                None => self@.index_of(name@) is None,
            },
    {
        proof {
            use_type_invariant(self);
        }
        let wanted: String = name.to_owned();
        let mut i: usize = 0;
        while i < self.columns.len()
            invariant
                i <= self.columns.len(),
                wanted@ == name@,
                self@.wf(),
                forall|k: int| 0 <= k < i ==> (#[trigger] self@.columns[k]).name != name@,
            decreases self.columns.len() - i,
        {
            assert(self@.columns[i as int] == self.columns@[i as int]@);
            if *self.columns[i].name() == wanted {
                proof {
                    assert(self@.columns[i as int].name == name@);
                    let c = choose|c: int|
                        0 <= c < self@.columns.len() && (#[trigger] self@.columns[c]).name
                            == name@;
                    if c < i {
                        assert(self@.columns[c].name != self@.columns[i as int].name);
                    } else if c > i {
                        assert(self@.columns[i as int].name != self@.columns[c].name);
                    }
                }
                return Some(i);
            }
            i += 1;
        }
        None
    }
}

} // verus!
