//! What every program of the suite shares: addresses, slots, cloud requests
//! and the names of Redis keys.

use vstd::prelude::*;

pub mod asg;
pub mod aws;
pub mod ipv4;
pub mod redis_pool;
pub mod slot_network;
pub mod xml;

verus! {

} // verus!
