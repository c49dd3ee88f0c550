//! Analysis of disassembly listings: instruction streams, function spans,
//! return classification and return-oriented gadget measurements.

pub mod text;
pub mod pattern;
pub mod listing;
pub mod classifier;
pub mod gadgets;
pub mod numbers;
pub mod symbols;
pub mod analysis;
