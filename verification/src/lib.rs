//! Inputs and verdicts for statistical constant-time testing.
//!
//! The crate has two halves. The first builds the labelled inputs that a
//! timing runner feeds to the operation under test. The second reads the
//! runner's console log back, turns it into measurement records and decides
//! whether every measured statistic stays inside the accepted band.

pub mod compare;
pub mod field;
pub mod inputs;
pub mod log;
pub mod scan;
pub mod statistic;
pub mod verdict;

pub use compare::cmpct;
pub use field::{barrett_reduce, compress, conditional_sub_u32, decompress, KYBER_Q};
pub use inputs::{
    generate, generate_input_classes, rand_input_vector, Class, DudectInput, NUMBER_OF_SAMPLES,
};
pub use log::{parse, MeasurementRecord, ParseError};
pub use statistic::TStatistic;
pub use verdict::{verify, Verdict};
