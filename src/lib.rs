//! Evaluation of die roll expressions such as `3d6+4` or `2d10 - 1d4 + 7`.
//!
//! An expression is a flat sum of signed terms. Each term is either a die roll
//! (`3d6`: roll three six-sided dice) or a constant modifier (`+4`). Evaluating
//! an expression yields a [`Roll`]: the expression without whitespace, each term
//! with the values it produced, and the total.
pub mod random;
pub mod roll;
pub mod term;
pub mod text;
pub mod tokenize;

pub use random::{roll_range, RangeError};
pub use roll::{roll_dice, Roll, RollIterator};
pub use term::{DieRollTerm, EvaluationError};
pub use tokenize::parse_die_roll_terms;
