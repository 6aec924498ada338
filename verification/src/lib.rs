//! A fuzzy-logic inference toolkit over exact fixed-point arithmetic.
//!
//! Every quantity (a point of the domain, a degree of membership, a weight,
//! a score) is a fixed-point number with six decimal places: the integer
//! `1_000_000` stands for one.  Fuzzy sets are built from a small vocabulary
//! of membership shapes and combined with the Zadeh operators; rules bind a
//! guard over named inputs to a consequence; the engine turns the matching
//! rules into a category, or the consequence sets into a crisp number.
//!
//! All scans over a domain visit exactly the points `min`, `min + step`, ...
//! that do not exceed `max`: with integers there is no drift.  A scan of a
//! domain that is not empty needs a positive step and bounds within
//! `DOMAIN_LIMIT`; membership functions and weights have limits of their own,
//! so that every sum fits the machine's integers.  Each type that has such
//! a limit offers a test for it.

pub mod aggregate;
pub mod engine;
pub mod fixed;
pub mod laws;
pub mod membership;
pub mod rule;
pub mod scan;
pub mod set;

pub use crate::engine::InferenceEngine;
pub use crate::fixed::{DEGREE_LIMIT, DOMAIN_LIMIT, ONE, WEIGHT_LIMIT};
pub use crate::membership::Membership;
pub use crate::rule::{Condition, Consequence, FuzzyRule, Inputs};
pub use crate::set::FuzzySet;
