//! Conversions between a calendar-independent day count and civil dates in the
//! proleptic Gregorian calendar and the Chinese lunisolar calendar.

pub mod chinese;
pub mod date;
pub mod time_scales;

pub use date::{Date, YearType};
