//! Lazy interleaving of items pulled from several input streams, driven by a
//! pattern that names streams by index, groups sub-patterns and repeats them.

pub mod error;
pub mod expression;
pub mod grammar;
pub mod pattern;
pub mod repeater;
pub mod streams;
pub mod writing;

pub use error::{IMExError, PatternError};
pub use expression::imex::IMEx;
pub use expression::imex_iterator::IMExIterator;
pub use expression::imex_val::IMExVal;
pub use expression::quantified_imex_val::QuantifiedIMExVal;
pub use expression::quantifier::Quantifier;
pub use expression::utils::{IMExIterCounter, ParserCombinator};
pub use pattern::{Pattern, PatternData};
pub use repeater::Repeater;
