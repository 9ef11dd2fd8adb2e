//! The share of one agent in the load of the fleet.

use vstd::prelude::*;

verus! {

/// The connections of agent `index` among `agents`: the total divided evenly,
/// with one more for each of the first agents until the remainder is used up.
pub open spec fn share(total: nat, index: nat, agents: nat) -> nat {
    total / agents + if index < total % agents {
        1nat
    } else {
        0nat
    }
}

/// The connections that the first `n` of `agents` agents have together.
pub open spec fn shares(total: nat, agents: nat, n: nat) -> nat
    decreases n,
{
    if n == 0 {
        0
    } else {
        shares(total, agents, (n - 1) as nat) + share(total, (n - 1) as nat, agents)
    }
}

/// The concurrent connections of one agent.
///
/// The total of the fleet is divided as evenly as possible; the remainder goes
/// to the agents with the lowest index, one each.
pub fn per_agent_connections(total: u32, agent_index: u32, total_agents: u32) -> (n: u32)
    requires
        agent_index < total_agents,
    ensures
        n == share(total as nat, agent_index as nat, total_agents as nat),
        n <= total,
{
    let base: u32 = total / total_agents;
    let remainder: u32 = total % total_agents;
    proof {
        vstd::arithmetic::div_mod::lemma_fundamental_div_mod(total as int, total_agents as int);
        assert(base <= total_agents * base) by (nonlinear_arith)
            requires
                total_agents >= 1,
                base >= 0,
        ;
    }
    if agent_index < remainder {
        base + 1
    } else {
        base
    }
}

/// The bandwidth of one agent in bytes per second; a remainder is dropped.
pub fn per_agent_bandwidth(total_bps: u64, total_agents: u32) -> (bps: u64)
    requires
        total_agents > 0,
    ensures
        bps == total_bps as nat / total_agents as nat,
{
    total_bps / total_agents as u64
}

proof fn lemma_shares(total: nat, agents: nat, n: nat)
    requires
        agents > 0,
        n <= agents,
    ensures
        shares(total, agents, n) == n * (total / agents) + (if n < total % agents {
            n
        } else {
            total % agents
        }),
    decreases n,
{
    if n > 0 {
        lemma_shares(total, agents, (n - 1) as nat);
        let q = total / agents;
        assert(n * q == (n - 1) * q + q) by (nonlinear_arith);
    } else {
        assert(0 * (total / agents) == 0) by (nonlinear_arith);
    }
}

/// The shares of all agents add up to the total of the fleet.
pub proof fn law_connections_sum_to_total(total: nat, agents: nat)
    requires
        agents > 0,
    ensures
        shares(total, agents, agents) == total,
{
    lemma_shares(total, agents, agents);
    vstd::arithmetic::div_mod::lemma_fundamental_div_mod(total as int, agents as int);
}

/// The shares of two agents differ by at most one, and the one with the lower
/// index is not the smaller.
pub proof fn law_connections_are_even(total: nat, agents: nat, i: nat, j: nat)
    requires
        i <= j < agents,
    ensures
        share(total, j, agents) <= share(total, i, agents) <= share(total, j, agents) + 1,
{
}

/// The bandwidths of all agents together stay within that of the fleet, and
/// less than one byte per second and agent is lost.
pub proof fn law_bandwidth_within_total(total: nat, agents: nat)
    requires
        agents > 0,
    ensures
        agents * (total / agents) <= total < agents * (total / agents) + agents,
{
    vstd::arithmetic::div_mod::lemma_fundamental_div_mod(total as int, agents as int);
}

} // verus!
