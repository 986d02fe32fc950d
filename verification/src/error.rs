//! The one error type of the library.

use vstd::prelude::*;

verus! {

/// Why an operation on a frame failed.
#[derive(Clone, Copy, Debug, PartialEq, Eq, Structural)]
pub enum FrameError {
    /// A column holds a value that its type does not admit.
    SchemaMismatch,
    /// The columns of a frame differ in length.
    ShapeMismatch,
    /// Two columns of a frame have the same name.
    Duplicate,
    /// No column has the name asked for.
    ColumnNotFound,
    /// The time column is not in ascending order.
    NotSorted,
    /// The time column is neither a date column nor a datetime column.
    UnsupportedDtype,
    /// The time column holds no value to take the bounds of the grid from.
    NoBoundaries,
    /// Adding a duration to a timestamp left the range of timestamps or of
    /// the calendar.
    DurationAdd,
    /// The step of a grid does not move forward in time.
    InvalidInterval,
    /// The time zone is not known, or a wall-clock time of the grid does not
    /// name exactly one instant in it.
    TimeZone,
    /// A day lies outside the range of dates.
    DateOutOfRange,
}

impl FrameError {
    /// What went wrong, in words.
    pub open spec fn spec_message(self) -> Seq<char> {
        match self {
            FrameError::SchemaMismatch => "a column holds a value that is not of its type"@,
            FrameError::ShapeMismatch => "the columns of a frame differ in length"@,
            FrameError::Duplicate => "two columns of a frame have the same name"@,
            FrameError::ColumnNotFound => "column not found"@,
            FrameError::NotSorted => "argument in operation 'upsample' is not sorted"@,
            FrameError::UnsupportedDtype => "upsample not allowed for index column of this dtype"@,
            FrameError::NoBoundaries =>
                "cannot determine upsample boundaries: all elements are null"@,
            FrameError::DurationAdd => "adding a duration left the range of timestamps"@,
            FrameError::InvalidInterval => "interval must be positive"@,
            FrameError::TimeZone => "unknown time zone, or a local time that is not one instant"@,
            FrameError::DateOutOfRange => "a day lies outside the range of dates"@,
        }
    }

    /// What went wrong, in words.
    pub fn message(&self) -> (r: String)
        ensures
            r@ == self.spec_message(),
    {
        match self {
            FrameError::SchemaMismatch => "a column holds a value that is not of its type"
                .to_owned(),
            FrameError::ShapeMismatch => "the columns of a frame differ in length".to_owned(),
            FrameError::Duplicate => "two columns of a frame have the same name".to_owned(),
            FrameError::ColumnNotFound => "column not found".to_owned(),
            FrameError::NotSorted => "argument in operation 'upsample' is not sorted".to_owned(),
            FrameError::UnsupportedDtype => "upsample not allowed for index column of this dtype"
                .to_owned(),
            FrameError::NoBoundaries =>
                "cannot determine upsample boundaries: all elements are null".to_owned(),
            FrameError::DurationAdd => "adding a duration left the range of timestamps".to_owned(),
            FrameError::InvalidInterval => "interval must be positive".to_owned(),
            FrameError::TimeZone => "unknown time zone, or a local time that is not one instant"
                .to_owned(),
            FrameError::DateOutOfRange => "a day lies outside the range of dates".to_owned(),
        }
    }
}

} // verus!
