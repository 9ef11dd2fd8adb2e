//! The agent of a load test: its share of the plan, its transfers, and what it
//! reports to the coach.

use vstd::prelude::*;

pub mod config;
pub mod file_manager;
pub mod load_plan;
pub mod metrics;
pub mod rate_limit;
pub mod registration;
pub mod session;
pub mod transfer;

verus! {

} // verus!
