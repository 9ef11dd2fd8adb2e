//! The load balancer's side: what it sees of the fleet, what it cleans up and
//! when it scales.

use vstd::prelude::*;

pub mod cleanup;
pub mod group;
pub mod ipvs;
pub mod leases;
pub mod listener;
pub mod listing;
pub mod metrics;
pub mod report;
pub mod scaler;
pub mod snapshot;
pub mod vrrp;
pub mod weight_sync;

verus! {

} // verus!
