//! Verified core of a fleet of FTP services: the load balancer's autoscaler
//! and cleanup passes, the load-test coach and its agents, the network
//! address tools and the signing of cloud API requests.
//!
//! Everything here computes on plain values. Reading files, talking to Redis,
//! to the cloud APIs and to FTP servers is left to the programs that call it.

use vstd::prelude::*;

pub mod coach;
pub mod ftp;
pub mod gym;
pub mod infra;
pub mod json;
pub mod order;
pub mod plug;
pub mod proto;
pub mod pulse;
pub mod scale;
pub mod scrape;
pub mod template;
pub mod text;

verus! {

} // verus!
