//! A timetable compiler: raw academic session rows, carrying a compact
//! day-and-time encoding, are parsed into weekly periods, aggregated into
//! courses, and compiled into a recurring-event calendar document with
//! stable, content-derived event identities.
//!
//! Every function here carries a contract; parsing, date arithmetic,
//! aggregation and document assembly are all verified against them. The
//! only outside calls are the XXH3 digest behind the event identities and
//! the clock behind the creation stamp.

pub mod calendar;
pub mod courses;
pub mod dates;
pub mod errors;
pub mod periods;
pub mod text;
