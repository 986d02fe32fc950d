//! Index-producing sorts and calendar-aware upsampling for columnar frames.
//!
//! Every executable function carries a contract that is proved against a
//! mathematical model of the data it handles.

pub mod arg_sort;
pub mod calendar;
pub mod concat;
pub mod datatypes;
pub mod date_range;
pub mod duration;
pub mod error;
pub mod fill_null;
pub mod frame;
pub mod group_by;
pub mod join;
pub mod ordering;
pub mod timezone;
pub mod upsample;
