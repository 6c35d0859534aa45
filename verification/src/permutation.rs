//! The permutation engine: lookup tables, the five transformers of a round,
//! the round controller and the mixing gate.

pub mod absorb;
pub mod add;
pub mod base_conversion;
pub mod circuit;
pub mod flag;
pub mod iota;
pub mod mixing;
pub mod pi;
pub mod rho;
pub mod tables;
pub mod theta;
pub mod witness;
pub mod xi;
