//! Undecided-state dynamics (USD) for opinion formation in population protocols.
//!
//! A population of agents holds opinions `1..=k`, or is undecided (`0`). In every
//! interaction an initiator meets a responder: an undecided initiator adopts the
//! responder's opinion, and a decided initiator that meets another decided opinion
//! becomes undecided. The simulation runs until one opinion holds every agent or a
//! step budget is spent.
//!
//! - [`usd`] simulates every agent on its own and keeps a histogram of opinions.
//! - [`usd_fast`] keeps only the histogram, in a dynamic weighted index, and samples
//!   opinions proportionally to their support.
//! - [`algorithm_fast`] adds biased transitions on top of the fast simulation.
//! - [`distribution`] builds initial opinion distributions.
//! - [`search`] holds the integer decisions of the bias experiments.
use vstd::prelude::*;

pub mod counting;
pub mod distribution;
pub mod rules;
pub mod rng;
pub mod weighted_index;
pub mod usd;
pub mod usd_fast;
pub mod algorithm_fast;
pub mod search;

verus! {


} // verus!
