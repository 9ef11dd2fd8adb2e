//! The coach: it holds the plan of a load test, registers agents, drives them
//! through the time slices and collects what they report.

use vstd::prelude::*;

pub mod agent_service;
pub mod clock;
pub mod config;
pub mod control;
pub mod delta;
pub mod distributor;
pub mod load_plan;
pub mod metrics_store;
pub mod ndjson;
pub mod registry;
pub mod state;

verus! {

} // verus!
