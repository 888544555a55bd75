//! Reading and writing of fixed-width records, described by specs of records and fields.
pub mod names;
pub mod spec;
pub mod padding;
pub mod error;
pub mod io;
pub mod padder;
pub mod parser;
pub mod formatter;
pub mod data_type;
pub mod record;
pub mod reader;
pub mod writer;
pub mod text;
pub mod line;
pub mod in_memory;
pub mod builder;
pub mod messages;
pub mod round_trip;
