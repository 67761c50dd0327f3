//! Technology stack selection: a catalog of scored candidates and a project
//! blueprint go in; a ranked, costed and fingerprinted stack plan comes out.
//!
//! Every quantity that the scoring reads (metrics, weights, costs, rates) is a
//! fixed-point integer with `SCALE` steps per unit, so that scores, ties and
//! budgets are computed exactly.
use vstd::prelude::*;

pub mod canonical;
pub mod laws;
pub mod observability;
pub mod ports;
pub mod rules;
pub mod schema;
pub mod selector;
pub mod text;
pub mod util;

verus! {

/// Steps per unit of every fixed-point quantity (metrics, weights, dollars, requests).
pub const SCALE: u64 = 1_000_000;

} // verus!
