//! A small schedule library: records of activity days (a calendar date plus
//! a duration in minutes), their canonical comma-delimited text form, and
//! the batch conversion of persisted lines back into records.
//!
//! Every record operation carries a contract: the codec is proved to
//! round-trip, parsing errors are pinned to the exact inputs that cause
//! them, and the batch parser is proved to fail fast on the first invalid
//! line.

pub mod batch;
pub mod date;
pub mod duration;
pub mod num;
pub mod record;
pub mod text;
