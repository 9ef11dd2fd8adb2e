//! Registering with the coach.

use vstd::prelude::*;

use crate::gym::config::Config;
use crate::gym::load_plan::AgentPlan;
use crate::proto::{RegisterRequest, RegisterResponse};
use crate::text;

verus! {

/// How often an agent tries to register before it starts over.
pub const MAX_RETRIES: u32 = 8;

/// The pause after a failed attempt, in milliseconds.
pub const RETRY_DELAY_MS: u64 = 3_000;

/// How long connecting may take, in milliseconds.
pub const CONNECT_TIMEOUT_MS: u64 = 5_000;

/// The request of an agent.
pub fn make_request(config: &Config, version: &str) -> (r: RegisterRequest)
    ensures
        r.agent_id@ == config.agent_id@,
        r.agent_version@ == version@,
        r.private_ip@ == config.private_ip@,
        r.instance_id@ == config.instance_id@,
{
    RegisterRequest {
        agent_id: text::copy_str(config.agent_id.as_str()),
        agent_version: text::copy_str(version),
        private_ip: text::copy_str(config.private_ip.as_str()),
        instance_id: text::copy_str(config.instance_id.as_str()),
    }
}

/// Why an answer does not register the agent, in words.
pub open spec fn rejection(r: RegisterResponse) -> Option<Seq<char>> {
    if !r.accepted {
        Some("aerocoach rejected registration: "@ + r.reject_reason@)
    } else if r.load_plan is None {
        Some("aerocoach accepted registration but sent no load plan"@)
    } else {
        None
    }
}

/// Takes in the answer to a request: it must accept the agent and carry a plan.
pub fn check_response(r: RegisterResponse) -> (out: Result<AgentPlan, String>)
    ensures
        match out {
            Ok(plan) => rejection(r) is None && plan.agent_index == r.agent_index && r.load_plan
                == Some(plan.proto),
            Err(e) => rejection(r) == Some(e@),
        },
{
    if !r.accepted {
        let mut message = text::copy_str("aerocoach rejected registration: ");
        message.push_str(r.reject_reason.as_str());
        return Err(message);
    }
    match r.load_plan {
        Some(plan) => Ok(AgentPlan::new(plan, r.agent_index)),
        None => Err(text::copy_str("aerocoach accepted registration but sent no load plan")),
    }
}

/// Whether there is another attempt after attempt `attempt`, counted from 1, has
/// failed.
pub fn tries_again(attempt: u32) -> (yes: bool)
    ensures
        yes == (attempt < MAX_RETRIES),
{
    attempt < MAX_RETRIES
}

/// The error after the last attempt, with the cause of its failure.
pub fn exhausted(cause: &str) -> (out: String)
    ensures
        out@ == "registration failed after 8 attempts: "@ + cause@,
{
    let mut out = text::copy_str("registration failed after 8 attempts: ");
    out.push_str(cause);
    out
}

/// An answer registers the agent exactly where it accepts it and carries a plan.
pub proof fn law_registered_with_a_plan(r: RegisterResponse)
    ensures
        rejection(r) is None <==> r.accepted && r.load_plan is Some,
        !r.accepted ==> (rejection(r) matches Some(m) && m.len() >= r.reject_reason@.len()
            && m.skip(m.len() - r.reject_reason@.len()) == r.reject_reason@),
{
    if !r.accepted {
        let m = rejection(r)->0;
        assert(m.skip(m.len() - r.reject_reason@.len()) =~= r.reject_reason@);
    }
}

} // verus!
