//! The coach's side of the calls that agents make: registering, opening a
//! session, and the reports of a session.

use tokio::sync::mpsc::Sender;

use vstd::prelude::*;

use crate::coach::metrics_store;
use crate::coach::registry;
use crate::coach::registry::EntryView;
use crate::coach::state;
use crate::coach::state::AppState;
use crate::proto;
use crate::proto::{
    AgentReport, BucketView, CoachCommand, RegisterRequest, RegisterResponse, ReportPayload,
    TimeSlice,
};
use crate::text;

verus! {

/// The status code of a refused call.
#[derive(Debug, Clone, Copy, PartialEq, Eq, Structural)]
pub enum RpcCode {
    InvalidArgument,
    NotFound,
    AlreadyExists,
    FailedPrecondition,
}

/// A refused call.
#[derive(Debug)]
pub struct RpcError {
    pub code: RpcCode,
    pub message: String,
}

/// Whether an error has this code and text.
pub open spec fn is_error(e: RpcError, code: RpcCode, message: Seq<char>) -> bool {
    e.code == code && e.message@ == message
}

/// The entries after an agent that is not connected has registered.
pub open spec fn after_register(
    v: Seq<EntryView>,
    id: Seq<char>,
    private_ip: Seq<char>,
    instance_id: Seq<char>,
) -> Seq<EntryView> {
    match registry::agent_at(v, id) {
        Some(i) => v.update(i, v[i].again(private_ip, instance_id)),
        None => v.push(EntryView::fresh(id, v.len() as u32, private_ip, instance_id)),
    }
}

/// Answers a request to take part: only while waiting, only with a plan, and not
/// for an agent that has an open session. The answer has the agent's index and
/// the plan.
pub fn register(s: &mut AppState, req: RegisterRequest) -> (r: Result<RegisterResponse, RpcError>)
    requires
        old(s).wf(),
        old(s).registry.agents().len() < u32::MAX,
    ensures
        final(s).wf(),
        *final(s) == (AppState { registry: final(s).registry, ..*old(s) }),
        if !(old(s).coach_state is Waiting) {
            &&& final(s).registry == old(s).registry
            &&& r matches Err(e) && is_error(
                e,
                RpcCode::FailedPrecondition,
                "aerocoach is in state "@ + state::state_text(old(s).coach_state)
                    + "; registrations are only accepted while WAITING"@,
            )
        } else {
            match old(s).load_plan {
                None => {
                    &&& final(s).registry == old(s).registry
                    &&& r matches Err(e) && is_error(
                        e,
                        RpcCode::FailedPrecondition,
                        "no load plan is loaded; supply one via AEROCOACH_PLAN_FILE or PUT /plan"@,
                    )
                },
                Some(plan) => if registry::agent_at(old(s).registry.agents(), req.agent_id@)
                    matches Some(i) && old(s).registry.agents()[i].connected {
                    &&& final(s).registry.agents() == old(s).registry.agents()
                    &&& r matches Err(e) && is_error(
                        e,
                        RpcCode::AlreadyExists,
                        registry::connected_text(req.agent_id@),
                    )
                } else {
                    &&& final(s).registry.agents() == after_register(
                        old(s).registry.agents(),
                        req.agent_id@,
                        req.private_ip@,
                        req.instance_id@,
                    )
                    &&& r matches Ok(a) && {
                        &&& a.accepted
                        &&& a.reject_reason@.len() == 0
                        &&& a.agent_index == (match registry::agent_at(
                            old(s).registry.agents(),
                            req.agent_id@,
                        ) {
                            Some(i) => i,
                            None => old(s).registry.agents().len() as int,
                        })
                        &&& a.load_plan matches Some(p) && {
                            &&& p.plan_id@ == plan.plan_id@
                            &&& p.start_time_ms == 0
                            &&& p.slice_duration_ms == plan.slice_duration_ms
                            &&& p.total_bandwidth_bps == plan.total_bandwidth_bps
                            &&& p.total_agents == 1
                            &&& p.slices@ == Seq::new(
                                plan.slices@.len(),
                                |i: int|
                                    TimeSlice {
                                        slice_index: plan.slices@[i].slice_index,
                                        total_connections: plan.slices@[i].total_connections,
                                    },
                            )
                            &&& p.file_distribution matches Some(d) && proto::bucket_views(
                                d.buckets@,
                            ) == Seq::new(
                                plan.file_distribution.buckets@.len(),
                                |i: int|
                                    BucketView {
                                        bucket_id: plan.file_distribution.buckets@[i].bucket_id@,
                                        size_min_bytes:
                                            plan.file_distribution.buckets@[i].size_min_bytes,
                                        size_max_bytes:
                                            plan.file_distribution.buckets@[i].size_max_bytes,
                                        percentage: plan.file_distribution.buckets@[i].percentage,
                                    },
                            )
                        }
                    }
                },
            }
        },
{
    if !s.coach_state.is_waiting() {
        let mut message = text::copy_str("aerocoach is in state ");
        message.push_str(s.coach_state.to_string().as_str());
        message.push_str("; registrations are only accepted while WAITING");
        return Err(RpcError { code: RpcCode::FailedPrecondition, message });
    }
    let ghost agents = s.registry.agents();
    match &s.load_plan {
        None => Err(
            RpcError {
                code: RpcCode::FailedPrecondition,
                message: text::copy_str(
                    "no load plan is loaded; supply one via AEROCOACH_PLAN_FILE or PUT /plan",
                ),
            },
        ),
        Some(plan) => {
            let p = plan.to_proto(plan.total_agents_hint());
            proof {
                registry::lemma_find_agent(agents, req.agent_id@, 0);
                assert(p.slices@ =~= Seq::new(
                    plan.slices@.len(),
                    |i: int|
                        TimeSlice {
                            slice_index: plan.slices@[i].slice_index,
                            total_connections: plan.slices@[i].total_connections,
                        },
                ));
                let b = plan.file_distribution.buckets@;
                assert(proto::bucket_views(p.file_distribution->0.buckets@) =~= Seq::new(
                    b.len(),
                    |i: int|
                        BucketView {
                            bucket_id: b[i].bucket_id@,
                            size_min_bytes: b[i].size_min_bytes,
                            size_max_bytes: b[i].size_max_bytes,
                            percentage: b[i].percentage,
                        },
                ));
            }
            match s.registry.register(req.agent_id, req.private_ip, req.instance_id) {
                Ok(agent_index) => Ok(
                    RegisterResponse {
                        accepted: true,
                        reject_reason: String::new(),
                        agent_index,
                        load_plan: Some(p),
                    },
                ),
                Err(message) => Err(RpcError { code: RpcCode::AlreadyExists, message }),
            }
        },
    }
}

/// Checks the first report of a session: it must name an agent, and one that has
/// registered.
pub fn session_check(s: &AppState, agent_id: &str) -> (r: Result<(), RpcError>)
    ensures
        if agent_id@.len() == 0 {
            r matches Err(e) && is_error(
                e,
                RpcCode::InvalidArgument,
                "first AgentReport must contain a non-empty agent_id"@,
            )
        } else if registry::agent_at(s.registry.agents(), agent_id@) is None {
            r matches Err(e) && is_error(
                e,
                RpcCode::NotFound,
                "agent "@ + text::debug_text(agent_id@)
                    + " has not registered; call Register first"@,
            )
        } else {
            r is Ok
        },
{
    if text::chars_of(agent_id).len() == 0 {
        return Err(
            RpcError {
                code: RpcCode::InvalidArgument,
                message: text::copy_str("first AgentReport must contain a non-empty agent_id"),
            },
        );
    }
    if !s.registry.contains(agent_id) {
        let mut message = text::copy_str("agent ");
        message.push_str(text::quoted(agent_id).as_str());
        message.push_str(" has not registered; call Register first");
        return Err(RpcError { code: RpcCode::NotFound, message });
    }
    Ok(())
}

/// Opens a session: attaches the channel to the agent and takes in the first
/// report. Returns the number of the session.
pub fn open_session(s: &mut AppState, first: &AgentReport, tx: Sender<CoachCommand>) -> (gen: u64)
    requires
        old(s).wf(),
        registry::agent_at(old(s).registry.agents(), first.agent_id@) matches Some(i) ==> old(
            s,
        ).registry.agents()[i].session_gen < u64::MAX,
        report_fits(*old(s), *first),
    ensures
        final(s).wf(),
        gen == (match registry::agent_at(old(s).registry.agents(), first.agent_id@) {
            Some(i) => old(s).registry.agents()[i].session_gen + 1,
            None => 0,
        }),
        is_after_report(
            registry::changed(
                old(s).registry.agents(),
                first.agent_id@,
                |e: EntryView| e.opened(registry::handed_over(tx)),
            ),
            *old(s),
            *first,
            *final(s),
        ),
{
    let gen: u64 = s.registry.set_session_channel(first.agent_id.as_str(), tx);
    handle_report(s, first);
    gen
}

/// Whether the totals of the agent stay within their range with a report.
pub open spec fn report_fits(s: AppState, report: AgentReport) -> bool {
    match report.payload {
        Some(ReportPayload::MetricsUpdate(u)) => s.coach_state is Waiting
            || metrics_store::totals_fit(
            s.metrics.totals_of(report.agent_id@),
            proto::record_views(u.completed_transfers@),
        ),
        _ => true,
    }
}

/// Whether `after` is the state after a report, where the agents were `agents`
/// and the rest was as in `before`.
pub open spec fn is_after_report(
    agents: Seq<EntryView>,
    before: AppState,
    report: AgentReport,
    after: AppState,
) -> bool {
    &&& after == (AppState { registry: after.registry, metrics: after.metrics, ..before })
    &&& match report.payload {
        Some(ReportPayload::SliceAck(ack)) => {
            &&& after.metrics == before.metrics
            &&& after.registry.agents() == registry::changed(
                agents,
                report.agent_id@,
                |e: EntryView| EntryView { current_slice: ack.slice_index, ..e },
            )
        },
        Some(ReportPayload::MetricsUpdate(u)) => if before.coach_state is Waiting {
            after.metrics == before.metrics && after.registry.agents() == agents
        } else {
            &&& after.registry.agents() == registry::changed(
                agents,
                report.agent_id@,
                |e: EntryView| EntryView { active_connections: u.active_connections, ..e },
            )
            &&& after.metrics.pending() == before.metrics.pending() + metrics_store::tagged(
                report.agent_id@,
                proto::record_views(u.completed_transfers@),
            )
            &&& after.metrics.totals_of(report.agent_id@) == metrics_store::totals_with(
                before.metrics.totals_of(report.agent_id@),
                proto::record_views(u.completed_transfers@),
            )
            &&& forall|id: Seq<char>|
                id != report.agent_id@ ==> #[trigger] after.metrics.totals_of(id)
                    == before.metrics.totals_of(id)
        },
        Some(ReportPayload::PlanAck) => {
            &&& after.metrics == before.metrics
            &&& after.registry.agents() == registry::changed(
                agents,
                report.agent_id@,
                |e: EntryView| EntryView { plan_acked: true, ..e },
            )
        },
        None => after.metrics == before.metrics && after.registry.agents() == agents,
    }
}

/// Takes in a report. Transfers that are reported while the coach is waiting
/// belong to a run that was reset, and are ignored. Returns whether the clock is
/// to be told: an agent has acknowledged a slice.
pub fn handle_report(s: &mut AppState, report: &AgentReport) -> (acked: bool)
    requires
        old(s).wf(),
        report_fits(*old(s), *report),
    ensures
        final(s).wf(),
        is_after_report(old(s).registry.agents(), *old(s), *report, *final(s)),
        acked == (report.payload matches Some(ReportPayload::SliceAck(_))),
{
    let id = report.agent_id.as_str();
    match &report.payload {
        Some(ReportPayload::SliceAck(ack)) => {
            s.registry.update_slice(id, ack.slice_index);
            true
        },
        Some(ReportPayload::MetricsUpdate(update)) => {
            if s.coach_state.is_waiting() {
                return false;
            }
            s.registry.update_active_connections(id, update.active_connections);
            s.metrics.record_update(text::copy_str(id), update);
            false
        },
        Some(ReportPayload::PlanAck) => {
            s.registry.ack_plan(id);
            false
        },
        None => false,
    }
}

/// Whether a report can be taken in.
pub fn can_handle(s: &AppState, report: &AgentReport) -> (yes: bool)
    ensures
        yes == report_fits(*s, *report),
{
    match &report.payload {
        Some(ReportPayload::MetricsUpdate(update)) => s.coach_state.is_waiting() || s.metrics.fits(
            report.agent_id.as_str(),
            update,
        ),
        _ => true,
    }
}

/// What a report changes. An acknowledged slice is noted for its agent; transfers
/// count unless the coach is waiting; an acknowledged plan is noted. No other agent
/// is concerned, and nothing but agents and metrics changes.
pub proof fn law_report_concerns_its_agent(
    before: AppState,
    report: AgentReport,
    after: AppState,
    i: int,
)
    requires
        before.wf(),
        is_after_report(before.registry.agents(), before, report, after),
        0 <= i < before.registry.agents().len(),
    ensures
        ({
            let b = before.registry.agents()[i];
            let a = after.registry.agents()[i];
            let mine = b.agent_id == report.agent_id@;
            &&& after.coach_state == before.coach_state
            &&& after.load_plan == before.load_plan
            &&& after.registry.agents().len() == before.registry.agents().len()
            &&& !mine ==> a == b
            &&& mine ==> match report.payload {
                Some(ReportPayload::SliceAck(ack)) => a == (EntryView {
                    current_slice: ack.slice_index,
                    ..b
                }),
                Some(ReportPayload::PlanAck) => a == (EntryView { plan_acked: true, ..b }),
                Some(ReportPayload::MetricsUpdate(u)) => a == (if before.coach_state is Waiting {
                    b
                } else {
                    EntryView { active_connections: u.active_connections, ..b }
                }),
                None => a == b,
            }
        }),
{
    let v = before.registry.agents();
    registry::lemma_find_agent(v, report.agent_id@, 0);
    match registry::agent_at(v, report.agent_id@) {
        Some(k) => {
            if k < i {
                assert(v[k].agent_id != v[i].agent_id);
            } else if i < k {
                assert(v[i].agent_id != report.agent_id@);
            }
        },
        None => {},
    }
}

/// An agent that registers keeps the place of its id, or gets the next one; its
/// addresses are those of its request, and no other agent is concerned.
pub proof fn law_registration_concerns_its_agent(
    v: Seq<EntryView>,
    id: Seq<char>,
    ip: Seq<char>,
    instance: Seq<char>,
    i: int,
)
    requires
        v.len() < u32::MAX,
        0 <= i < v.len(),
    ensures
        ({
            let w = after_register(v, id, ip, instance);
            let known = exists|k: int| 0 <= k < v.len() && (#[trigger] v[k]).agent_id == id;
            &&& v[i].agent_id != id ==> w[i] == v[i]
            &&& known ==> w.len() == v.len()
            &&& !known ==> {
                &&& w.len() == v.len() + 1
                &&& w.last().agent_id == id
                &&& w.last().agent_index == v.len()
                &&& w.last().private_ip == ip
                &&& w.last().instance_id == instance
                &&& !w.last().connected
            }
        }),
{
    registry::lemma_find_agent(v, id, 0);
    match registry::agent_at(v, id) {
        Some(k) => {
            assert(v[k].agent_id == id);
        },
        None => {},
    }
}

/// Transfers that are reported during a run or after it raise the totals of their
/// agent by their successes, failures and bytes, and each waits to be recorded once,
/// under the id of the agent. While the coach is waiting they leave no trace. No
/// report changes the totals of another agent.
pub proof fn law_reported_transfers_count_once(
    agents: Seq<EntryView>,
    before: AppState,
    report: AgentReport,
    after: AppState,
    id: Seq<char>,
    i: int,
)
    requires
        report_fits(before, report),
        is_after_report(agents, before, report, after),
    ensures
        id != report.agent_id@ ==> after.metrics.totals_of(id) == before.metrics.totals_of(id),
        match report.payload {
            Some(ReportPayload::MetricsUpdate(u)) => {
                let r = proto::record_views(u.completed_transfers@);
                let t = before.metrics.totals_of(report.agent_id@);
                let v = after.metrics.totals_of(report.agent_id@);
                let n = before.metrics.pending().len();
                &&& before.coach_state is Waiting ==> after.metrics == before.metrics
                &&& !(before.coach_state is Waiting) ==> {
                    &&& v.success_count + v.error_count == t.success_count + t.error_count
                        + r.len()
                    &&& v.success_count == t.success_count + metrics_store::successes(r)
                    &&& v.bytes_transferred == t.bytes_transferred + metrics_store::good_bytes(r)
                    &&& after.metrics.pending().len() == n + r.len()
                    &&& after.metrics.pending().take(n as int) == before.metrics.pending()
                    &&& 0 <= i < r.len() ==> after.metrics.pending()[n + i] == (
                        report.agent_id@,
                        r[i],
                    )
                }
            },
            _ => after.metrics == before.metrics,
        },
{
    match report.payload {
        Some(ReportPayload::MetricsUpdate(u)) => {
            if !(before.coach_state is Waiting) {
                let r = proto::record_views(u.completed_transfers@);
                metrics_store::law_totals_grow(before.metrics.totals_of(report.agent_id@), r);
                let n = before.metrics.pending().len();
                assert(after.metrics.pending().take(n as int) =~= before.metrics.pending());
            }
        },
        _ => {},
    }
}

} // verus!
