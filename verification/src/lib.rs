//! Conversion between two representations of a recurring transit service
//! calendar: a weekly pattern (seven weekday flags plus an inclusive validity
//! range) and a per-date exception overlay (explicit add or remove of a single
//! date). The read path expands weekly patterns into canonical date sets and
//! merges exceptions onto them in input order; the write path turns a
//! compressed pattern back into output rows.

pub mod catalog;
pub mod date;
pub mod records;
pub mod serialize;
