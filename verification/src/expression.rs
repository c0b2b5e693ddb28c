//! The quantified expression tree and its evaluation, one item per call.

pub mod imex;
pub mod imex_iterator;
pub mod imex_val;
pub mod laws;
pub mod model;
pub mod passes;
pub mod quantified_imex_val;
pub mod quantifier;
pub mod utils;
