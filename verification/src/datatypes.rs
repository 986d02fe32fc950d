//! The values a column can hold and the types that describe them.

use vstd::prelude::*;

verus! {

/// The scale of an integer timestamp: how many ticks make a second.
#[derive(Copy, Debug, PartialEq, Eq, Structural)]
pub enum TimeUnit {
    Nanoseconds,
    Microseconds,
    Milliseconds,
}

impl Clone for TimeUnit {
    fn clone(&self) -> (r: TimeUnit)
        ensures
            r == *self,
    {
        *self
    }
}

impl TimeUnit {
    /// Ticks in one second.
    pub open spec fn spec_per_second(self) -> int {
        match self {
            TimeUnit::Nanoseconds => 1_000_000_000,
            TimeUnit::Microseconds => 1_000_000,
            TimeUnit::Milliseconds => 1_000,
        }
    }

    /// Ticks in one second.
    pub fn per_second(self) -> (r: i64)
        ensures
            r == self.spec_per_second(),
    {
        match self {
            TimeUnit::Nanoseconds => 1_000_000_000,
            TimeUnit::Microseconds => 1_000_000,
            TimeUnit::Milliseconds => 1_000,
        }
    }

    /// Ticks in one day of twenty-four hours.
    pub open spec fn spec_per_day(self) -> int {
        86_400 * self.spec_per_second()
    }

    /// Ticks in one day of twenty-four hours.
    pub fn per_day(self) -> (r: i64)
        ensures
            r == self.spec_per_day(),
    {
        match self {
            TimeUnit::Nanoseconds => 86_400_000_000_000,
            TimeUnit::Microseconds => 86_400_000_000,
            TimeUnit::Milliseconds => 86_400_000,
        }
    }
}

/// The type of a column. The set is closed: a new type is a new variant.
#[derive(Debug, PartialEq, Eq)]
pub enum DataType {
    Int64,
    /// Floating values, each held by its bit pattern.
    Float64,
    Utf8,
    /// Days since the first of January 1970.
    Date,
    /// Ticks since that day's midnight, in UTC where a time zone is named,
    /// else on a clock without a zone.
    Datetime(TimeUnit, Option<String>),
}

/// The mathematical value of a `DataType`.
pub ghost enum DataTypeView {
    Int64,
    Float64,
    Utf8,
    Date,
    Datetime(TimeUnit, Option<Seq<char>>),
}

impl View for DataType {
    type V = DataTypeView;

    open spec fn view(&self) -> DataTypeView {
        match self {
            DataType::Int64 => DataTypeView::Int64,
            DataType::Float64 => DataTypeView::Float64,
            DataType::Utf8 => DataTypeView::Utf8,
            DataType::Date => DataTypeView::Date,
            DataType::Datetime(tu, tz) => DataTypeView::Datetime(
                *tu,
                match tz {
                    Some(z) => Some(z@),
                    None => None,
                },
            ),
        }
    }
}

impl Clone for DataType {
    fn clone(&self) -> (r: DataType)
        ensures
            r@ == self@,
    {
        match self {
            DataType::Int64 => DataType::Int64,
            DataType::Float64 => DataType::Float64,
            DataType::Utf8 => DataType::Utf8,
            DataType::Date => DataType::Date,
            DataType::Datetime(tu, tz) => DataType::Datetime(
                *tu,
                match tz {
                    Some(z) => Some(z.clone()),
                    None => None,
                },
            ),
        }
    }
}

/// One value of a column.
#[derive(Debug, PartialEq, Eq)]
pub enum AnyValue {
    Int64(i64),
    /// A floating value, held by its bit pattern.
    Float64(u64),
    Utf8(String),
    Date(i32),
    Datetime(i64),
}

/// The mathematical value of an `AnyValue`.
pub ghost enum AnyValueView {
    Int64(i64),
    Float64(u64),
    Utf8(Seq<char>),
    Date(i32),
    Datetime(i64),
}

/// The mathematical value of a cell: a value, or none where it is absent.
pub type CellView = Option<AnyValueView>;

impl View for AnyValue {
    type V = AnyValueView;

    open spec fn view(&self) -> AnyValueView {
        match self {
            AnyValue::Int64(v) => AnyValueView::Int64(*v),
            AnyValue::Float64(v) => AnyValueView::Float64(*v),
            AnyValue::Utf8(s) => AnyValueView::Utf8(s@),
            AnyValue::Date(v) => AnyValueView::Date(*v),
            AnyValue::Datetime(v) => AnyValueView::Datetime(*v),
        }
    }
}

impl DeepView for AnyValue {
    type V = AnyValueView;

    open spec fn deep_view(&self) -> AnyValueView {
        self@
    }
}

impl Clone for AnyValue {
    fn clone(&self) -> (r: AnyValue)
        ensures
            r@ == self@,
    {
        match self {
            AnyValue::Int64(v) => AnyValue::Int64(*v),
            AnyValue::Float64(v) => AnyValue::Float64(*v),
            AnyValue::Utf8(s) => AnyValue::Utf8(s.clone()),
            AnyValue::Date(v) => AnyValue::Date(*v),
            AnyValue::Datetime(v) => AnyValue::Datetime(*v),
        }
    }
}

impl AnyValue {
    /// Whether two values are the same value of the same kind. Floating
    /// values are the same where their bit patterns are.
    pub fn same(&self, other: &AnyValue) -> (r: bool)
        ensures
            r == (self@ == other@),
    {
        match (self, other) {
            (AnyValue::Int64(a), AnyValue::Int64(b)) => *a == *b,
            (AnyValue::Float64(a), AnyValue::Float64(b)) => *a == *b,
            (AnyValue::Utf8(a), AnyValue::Utf8(b)) => *a == *b,
            (AnyValue::Date(a), AnyValue::Date(b)) => *a == *b,
            (AnyValue::Datetime(a), AnyValue::Datetime(b)) => *a == *b,
            _ => false,
        }
    }
}

/// A copy of a cell.
pub fn clone_cell(cell: &Option<AnyValue>) -> (r: Option<AnyValue>)
    ensures
        r.deep_view() == cell.deep_view(),
{
    match cell {
        Some(v) => Some(v.clone()),
        None => None,
    }
}

/// Whether two cells hold the same value, or are both absent.
pub fn same_cell(a: &Option<AnyValue>, b: &Option<AnyValue>) -> (r: bool)
    ensures
        r == (a.deep_view() == b.deep_view()),
{
    match (a, b) {
        (Some(x), Some(y)) => x.same(y),
        (None, None) => true,
        _ => false,
    }
}

/// A value of the given kind is one that a column of type `dtype` holds.
pub open spec fn value_conforms(dtype: DataTypeView, v: AnyValueView) -> bool {
    match (dtype, v) {
        (DataTypeView::Int64, AnyValueView::Int64(_)) => true,
        (DataTypeView::Float64, AnyValueView::Float64(_)) => true,
        (DataTypeView::Utf8, AnyValueView::Utf8(_)) => true,
        (DataTypeView::Date, AnyValueView::Date(_)) => true,
        (DataTypeView::Datetime(_, _), AnyValueView::Datetime(_)) => true,
        _ => false,
    }
}

/// Every value present in `values` is one that a column of type `dtype`
/// holds.
pub open spec fn conforms(dtype: DataTypeView, values: Seq<CellView>) -> bool {
    forall|i: int|
        0 <= i < values.len() ==> match #[trigger] values[i] {
            Some(v) => value_conforms(dtype, v),
            None => true,
        }
}

/// Whether a value is one that a column of type `dtype` holds.
pub fn value_fits(dtype: &DataType, v: &AnyValue) -> (r: bool)
    ensures
        r == value_conforms(dtype@, v@),
{
    match (dtype, v) {
        (DataType::Int64, AnyValue::Int64(_)) => true,
        (DataType::Float64, AnyValue::Float64(_)) => true,
        (DataType::Utf8, AnyValue::Utf8(_)) => true,
        (DataType::Date, AnyValue::Date(_)) => true,
        (DataType::Datetime(_, _), AnyValue::Datetime(_)) => true,
        _ => false,
    }
}

} // verus!
