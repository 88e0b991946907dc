//! Parser for NEM12 interval-metering files: comma-delimited, line-oriented
//! documents made of a header, meter blocks with their interval readings and
//! events, exchange records and a terminal marker.

pub mod calendar;
pub mod charset;
pub mod codes;
pub mod common;
pub mod error;
pub mod number;
pub mod nem12;
