//! The session of an agent with the coach: what the agent does about each
//! command, and what it reports.
//!
//! The caller owns the stream and the running transfers. It hands in every
//! command with the number of running transfers and carries out what comes
//! back.

use vstd::prelude::*;

use crate::coach::distributor;
use crate::gym::load_plan;
use crate::gym::load_plan::{make_transfer_filename, AgentPlan};
use crate::gym::metrics;
use crate::gym::metrics::MetricsAccumulator;
use crate::gym::rate_limit;
use crate::gym::rate_limit::RateLimiterConfig;
use crate::gym::transfer::TransferOutcome;
use crate::proto;
use crate::proto::{
    utc_now_ms, AgentReport, CoachCommand, CommandPayload, MetricsUpdate, ReportPayload, SliceAck,
};
use crate::text;

verus! {

/// How many reports can wait to be sent.
pub const REPORT_CHANNEL_CAP: usize = 128;

/// The session of an agent.
#[derive(Debug)]
pub struct AgentSession {
    pub agent_id: String,
    pub plan: AgentPlan,
    pub metrics: MetricsAccumulator,
    /// The number of the last connection.
    pub conn_id: u64,
}

/// What to do at the start of a slice, in this order.
#[derive(Debug)]
pub struct TickOrders {
    /// The acknowledgement; it goes first, so that the clock is not held up.
    pub ack: AgentReport,
    /// What was finished since the last tick.
    pub metrics: Option<AgentReport>,
    /// How many transfers to start.
    pub to_start: u32,
    /// The rate limit of each transfer that starts in this slice: an equal part
    /// of the agent's bandwidth.
    pub rate: Option<RateLimiterConfig>,
}

/// What to do about a command.
#[derive(Debug)]
pub enum SessionAction {
    /// A slice begins.
    Tick(TickOrders),
    /// The plan has changed.
    PlanUpdated,
    /// The run is over: let running transfers finish if `graceful`, abort them
    /// otherwise, then send the last report.
    Shutdown { graceful: bool, reason: String },
    /// The command was empty.
    Nothing,
}

/// One transfer to start.
#[derive(Debug)]
pub struct TransferOrder {
    pub conn_id: u64,
    pub filename: String,
    pub bucket_id: String,
    pub time_slice: u32,
    /// The rate limit, from the plan as it is when the transfer starts.
    pub rate: Option<RateLimiterConfig>,
}

/// The connections that an agent is to have during a slice.
pub open spec fn target(plan: AgentPlan, slice_index: u32) -> nat {
    match load_plan::planned(plan.proto.slices@, slice_index) {
        Some(total) => distributor::share(
            total as nat,
            plan.agent_index as nat,
            load_plan::effective_agents(plan.proto.total_agents),
        ),
        None => 0,
    }
}

/// Whether a report is an acknowledgement of this slice.
pub open spec fn is_ack(r: AgentReport, agent_id: Seq<char>, slice_index: u32) -> bool {
    r.agent_id@ == agent_id && r.payload == Some(
        ReportPayload::SliceAck(SliceAck { slice_index }),
    )
}

/// Whether a report has these transfers.
pub open spec fn is_metrics(
    r: AgentReport,
    agent_id: Seq<char>,
    slice: u32,
    active: u32,
    done: Seq<TransferOutcome>,
) -> bool {
    &&& r.agent_id@ == agent_id
    &&& r.payload matches Some(ReportPayload::MetricsUpdate(u)) && {
        &&& u.current_slice == slice
        &&& u.active_connections == active
        &&& u.queued_connections == 0
        &&& proto::record_views(u.completed_transfers@) == metrics::records(done)
    }
}

/// The acknowledgement of a slice. Its time is read from the system clock.
pub fn make_ack_report(agent_id: &str, slice_index: u32) -> (r: AgentReport)
    ensures
        is_ack(r, agent_id@, slice_index),
{
    AgentReport {
        agent_id: text::copy_str(agent_id),
        timestamp_ms: utc_now_ms(),
        payload: Some(ReportPayload::SliceAck(SliceAck { slice_index })),
    }
}

/// A report of transfers. Its time is read from the system clock.
pub fn make_metrics_report(agent_id: &str, update: MetricsUpdate) -> (r: AgentReport)
    ensures
        r.agent_id@ == agent_id@,
        r.payload == Some(ReportPayload::MetricsUpdate(update)),
{
    AgentReport {
        agent_id: text::copy_str(agent_id),
        timestamp_ms: utc_now_ms(),
        payload: Some(ReportPayload::MetricsUpdate(update)),
    }
}

/// The report that a session starts with: it tells the coach which agent this
/// is, and must be on its way before the coach answers.
pub fn hello(agent_id: &str) -> (r: AgentReport)
    ensures
        is_metrics(r, agent_id@, 0, 0, Seq::empty()),
{
    let completed_transfers = Vec::new();
    assert(proto::record_views(completed_transfers@) =~= metrics::records(Seq::empty()));
    make_metrics_report(
        agent_id,
        MetricsUpdate {
            current_slice: 0,
            active_connections: 0,
            queued_connections: 0,
            completed_transfers,
        },
    )
}

/// Whether orders are those for a slice.
pub open spec fn are_orders_for(
    o: TickOrders,
    s: AgentSession,
    slice_index: u32,
    running: u32,
) -> bool {
    &&& is_ack(o.ack, s.agent_id@, slice_index)
    &&& match o.metrics {
        Some(r) => s.metrics.pending@.len() > 0 && is_metrics(
            r,
            s.agent_id@,
            slice_index,
            running,
            s.metrics.pending@,
        ),
        None => s.metrics.pending@.len() == 0,
    }
    &&& o.to_start == (if target(s.plan, slice_index) > running {
        target(s.plan, slice_index) - running
    } else {
        0
    })
    &&& o.rate == rate_during(s.plan, slice_index)
}

/// The bandwidth of each transfer of a slice: that of the agent, divided among
/// the connections that it is to have. 0 where nothing limits them, or where less
/// than 1 byte per second is left for each.
pub open spec fn transfer_bps(plan: AgentPlan, slice_index: u32) -> nat {
    plan.bandwidth_per_transfer(target(plan, slice_index))
}

/// The rate limit of each transfer of a slice.
pub open spec fn rate_during(plan: AgentPlan, slice_index: u32) -> Option<RateLimiterConfig> {
    if transfer_bps(plan, slice_index) == 0 {
        None
    } else {
        Some(rate_limit::config_for(transfer_bps(plan, slice_index)))
    }
}

impl AgentSession {
    /// A session of an agent with this plan.
    pub fn new(agent_id: String, plan: AgentPlan) -> (s: AgentSession)
        ensures
            s.agent_id == agent_id,
            s.plan == plan,
            s.metrics.pending@.len() == 0,
            s.conn_id == 0,
    {
        AgentSession { agent_id, plan, metrics: MetricsAccumulator::new(), conn_id: 0 }
    }

    /// A slice begins while `running` transfers are running: acknowledge it,
    /// report what was finished, and start as many transfers as are missing.
    /// Where there are too many, the running ones are left to finish.
    pub fn handle_slice_tick(&mut self, slice_index: u32, running: u32) -> (o: TickOrders)
        ensures
            are_orders_for(o, *old(self), slice_index, running),
            final(self).metrics.pending@.len() == 0,
            final(self).agent_id == old(self).agent_id,
            final(self).plan == old(self).plan,
            final(self).conn_id == old(self).conn_id,
    {
        let want: u32 = self.plan.my_connections_for_slice(slice_index);
        let ack = make_ack_report(self.agent_id.as_str(), slice_index);
        let report = match self.metrics.drain_into_update(slice_index, running, false) {
            Some(update) => Some(make_metrics_report(self.agent_id.as_str(), update)),
            None => None,
        };
        let to_start: u32 = if want > running {
            want - running
        } else {
            0
        };
        TickOrders { ack, metrics: report, to_start, rate: self.plan.rate_per_transfer(want) }
    }

    /// Takes in a command while `running` transfers are running.
    pub fn on_command(&mut self, cmd: CoachCommand, running: u32) -> (a: SessionAction)
        ensures
            final(self).agent_id == old(self).agent_id,
            final(self).conn_id == old(self).conn_id,
            match cmd.payload {
                Some(CommandPayload::SliceTick(tick)) => {
                    &&& a matches SessionAction::Tick(o) && are_orders_for(
                        o,
                        *old(self),
                        tick.slice_index,
                        running,
                    )
                    &&& final(self).plan == old(self).plan
                    &&& final(self).metrics.pending@.len() == 0
                },
                Some(CommandPayload::PlanUpdate(u)) => {
                    &&& a is PlanUpdated
                    &&& final(self).metrics == old(self).metrics
                    &&& load_plan::is_updated(old(self).plan, u, final(self).plan)
                },
                Some(CommandPayload::Shutdown(c)) => {
                    &&& a matches SessionAction::Shutdown { graceful, reason } && graceful
                        == c.graceful && reason@ == c.reason@
                    &&& *final(self) == *old(self)
                },
                None => a is Nothing && *final(self) == *old(self),
            },
    {
        match cmd.payload {
            Some(CommandPayload::SliceTick(tick)) => SessionAction::Tick(
                self.handle_slice_tick(tick.slice_index, running),
            ),
            Some(CommandPayload::PlanUpdate(update)) => {
                self.plan.apply_update(update);
                SessionAction::PlanUpdated
            },
            Some(CommandPayload::Shutdown(c)) => SessionAction::Shutdown {
                graceful: c.graceful,
                reason: c.reason,
            },
            None => SessionAction::Nothing,
        }
    }

    /// One transfer to start for a bucket, over the next connection.
    pub fn start_transfer(&mut self, slice_index: u32, bucket_id: &str) -> (o: TransferOrder)
        requires
            old(self).conn_id < u64::MAX,
        ensures
            o.conn_id == old(self).conn_id + 1,
            o.filename@ == load_plan::transfer_filename(old(self).agent_id@, slice_index, o.conn_id),
            o.bucket_id@ == bucket_id@,
            o.time_slice == slice_index,
            o.rate == rate_during(old(self).plan, slice_index),
            *final(self) == (AgentSession { conn_id: o.conn_id, ..*old(self) }),
    {
        let want: u32 = self.plan.my_connections_for_slice(slice_index);
        self.conn_id = self.conn_id + 1;
        let filename = make_transfer_filename(self.agent_id.as_str(), slice_index, self.conn_id);
        TransferOrder {
            conn_id: self.conn_id,
            filename,
            bucket_id: text::copy_str(bucket_id),
            time_slice: slice_index,
            rate: self.plan.rate_per_transfer(want),
        }
    }

    /// Takes in the outcome of a transfer.
    pub fn finished(&mut self, outcome: TransferOutcome)
        ensures
            final(self).metrics.pending@ == old(self).metrics.pending@.push(outcome),
            final(self).agent_id == old(self).agent_id,
            final(self).plan == old(self).plan,
            final(self).conn_id == old(self).conn_id,
    {
        self.metrics.record(outcome);
    }

    /// Whether a transfer that has finished is replaced by a new one, while
    /// `running` others are running: only before the refill threshold of the
    /// slice is reached, and only up to the connections that the plan asks for.
    /// After that the slice is left to wind down.
    pub fn refills(&self, slice_index: u32, running: u32, before_threshold: bool) -> (yes: bool)
        ensures
            yes == (before_threshold && running < target(self.plan, slice_index)),
    {
        before_threshold && running < self.plan.my_connections_for_slice(slice_index)
    }

    /// The last report of a session. It is sent even where nothing was finished,
    /// and says that no connection is left.
    pub fn last_report(&mut self) -> (r: AgentReport)
        ensures
            is_metrics(r, old(self).agent_id@, 0, 0, old(self).metrics.pending@),
            final(self).metrics.pending@.len() == 0,
            final(self).agent_id == old(self).agent_id,
            final(self).plan == old(self).plan,
            final(self).conn_id == old(self).conn_id,
    {
        match self.metrics.drain_into_update(0, 0, true) {
            Some(update) => make_metrics_report(self.agent_id.as_str(), update),
            None => hello(self.agent_id.as_str()),
        }
    }
}

/// The sum of bandwidths.
pub open spec fn total_bps(rates: Seq<nat>) -> nat
    decreases rates.len(),
{
    if rates.len() == 0 {
        0
    } else {
        total_bps(rates.drop_last()) + rates.last()
    }
}

/// The transfers of an agent together stay within the bandwidth of the agent:
/// where no more of them are running than it is to have in a slice, and none has
/// more than its part of that slice. A transfer that was started in a slice with
/// at least as many connections has no more.
pub proof fn law_transfers_share_bandwidth(plan: AgentPlan, slice_index: u32, rates: Seq<nat>)
    requires
        rates.len() <= target(plan, slice_index),
        forall|i: int| 0 <= i < rates.len() ==> #[trigger] rates[i] <= transfer_bps(
            plan,
            slice_index,
        ),
    ensures
        total_bps(rates) <= plan.bandwidth(),
{
    let n = target(plan, slice_index);
    let each = transfer_bps(plan, slice_index);
    lemma_total_bps(rates, each);
    if n > 0 {
        let b = plan.bandwidth();
        assert(rates.len() * each <= n * each <= b) by (nonlinear_arith)
            requires
                rates.len() <= n,
                n > 0,
                each == b / n,
        ;
    }
}

/// More connections leave no more bandwidth for each.
pub proof fn law_more_connections_share_more(plan: AgentPlan, few: nat, many: nat)
    requires
        0 < few <= many,
    ensures
        plan.bandwidth_per_transfer(many) <= plan.bandwidth_per_transfer(few),
{
    let b = plan.bandwidth();
    assert(b / many <= b / few) by (nonlinear_arith)
        requires
            0 < few <= many,
    ;
}

/// What the rate limiters of all transfers of a slice let through together is
/// within 2 % of the bandwidth of the agent.
pub proof fn law_rates_keep_the_ceiling(plan: AgentPlan, slice_index: u32)
    requires
        transfer_bps(plan, slice_index) > 0,
    ensures
        rate_during(plan, slice_index) matches Some(c) && 100 * target(plan, slice_index)
            * rate_limit::rate_of(c) <= 102 * plan.bandwidth(),
{
    let n = target(plan, slice_index);
    let each = transfer_bps(plan, slice_index);
    let b = plan.bandwidth();
    let through = rate_limit::rate_of(rate_limit::config_for(each));
    assert(each <= b && n * each <= b) by (nonlinear_arith)
        requires
            n > 0,
            each == b / n,
    ;
    assert(b <= u64::MAX) by {
        let agents = load_plan::effective_agents(plan.proto.total_agents);
        let total = plan.proto.total_bandwidth_bps as nat;
        assert(total / agents <= total) by (nonlinear_arith)
            requires
                agents > 0,
        ;
    }
    rate_limit::law_rate_not_exceeded(each);
    assert(100 * n * through <= 102 * b) by (nonlinear_arith)
        requires
            100 * through <= 102 * each,
            n * each <= b,
            n >= 0,
    ;
}

proof fn lemma_total_bps(rates: Seq<nat>, each: nat)
    requires
        forall|i: int| 0 <= i < rates.len() ==> #[trigger] rates[i] <= each,
    ensures
        total_bps(rates) <= rates.len() * each,
    decreases rates.len(),
{
    if rates.len() > 0 {
        lemma_total_bps(rates.drop_last(), each);
        assert((rates.len() - 1) * each + each == rates.len() * each) by (nonlinear_arith);
        assert(rates.last() == rates[rates.len() - 1]);
    } else {
        assert(0 * each == 0) by (nonlinear_arith);
    }
}

/// Two transfers use the same remote file only where agent, slice and connection
/// are the same.
pub proof fn law_filenames_are_distinct(
    agent1: Seq<char>,
    slice1: u32,
    conn1: u64,
    agent2: Seq<char>,
    slice2: u32,
    conn2: u64,
)
    requires
        load_plan::transfer_filename(agent1, slice1, conn1) == load_plan::transfer_filename(
            agent2,
            slice2,
            conn2,
        ),
    ensures
        agent1 == agent2,
        slice1 == slice2,
        conn1 == conn2,
{
    let name = load_plan::transfer_filename(agent1, slice1, conn1);
    lemma_filename_parts(agent1, slice1, conn1);
    lemma_filename_parts(agent2, slice2, conn2);
    let s1 = text::pad_left(text::decimal(slice1 as nat), '0', 3);
    let s2 = text::pad_left(text::decimal(slice2 as nat), '0', 3);
    let c1 = text::pad_left(text::decimal(conn1 as nat), '0', 6);
    let c2 = text::pad_left(text::decimal(conn2 as nat), '0', 6);
    text::lemma_padded_value(slice1 as nat, 3);
    text::lemma_padded_value(slice2 as nat, 3);
    text::lemma_padded_value(conn1 as nat, 6);
    text::lemma_padded_value(conn2 as nat, 6);
    let a1 = agent1.push('_');
    let a2 = agent2.push('_');
    let h1 = (a1.push('s') + s1).push('_');
    let h2 = (a2.push('s') + s2).push('_');
    assert(name.take(name.len() - 4) == h1.push('c') + c1);
    text::lemma_digits_behind_mark(h1, h2, 'c', c1, c2);
    assert(h1.drop_last() =~= a1.push('s') + s1);
    assert(h2.drop_last() =~= a2.push('s') + s2);
    text::lemma_digits_behind_mark(a1, a2, 's', s1, s2);
    assert(a1.drop_last() =~= agent1);
    assert(a2.drop_last() =~= agent2);
}

/// The name of a file without its ending, part by part.
proof fn lemma_filename_parts(agent: Seq<char>, slice: u32, conn: u64)
    ensures
        ({
            let name = load_plan::transfer_filename(agent, slice, conn);
            &&& name.len() >= 4
            &&& name.take(name.len() - 4) == (agent.push('_').push('s') + text::pad_left(
                text::decimal(slice as nat),
                '0',
                3,
            )).push('_').push('c') + text::pad_left(text::decimal(conn as nat), '0', 6)
        }),
{
    reveal_strlit("_s");
    reveal_strlit("_c");
    reveal_strlit(".dat");
    let name = load_plan::transfer_filename(agent, slice, conn);
    assert(name.take(name.len() - 4) =~= (agent.push('_').push('s') + text::pad_left(
        text::decimal(slice as nat),
        '0',
        3,
    )).push('_').push('c') + text::pad_left(text::decimal(conn as nat), '0', 6));
}

/// The connections that the first `n` agents of a plan are to have together.
pub open spec fn fleet_target(plan: AgentPlan, slice_index: u32, n: nat) -> nat
    decreases n,
{
    if n == 0 {
        0
    } else {
        fleet_target(plan, slice_index, (n - 1) as nat) + target(
            AgentPlan { agent_index: (n - 1) as u32, ..plan },
            slice_index,
        )
    }
}

/// All agents together have exactly the connections that the plan gives to a
/// slice, and none where it has no such slice.
pub proof fn law_agents_fill_the_slice(plan: AgentPlan, slice_index: u32)
    requires
        plan.proto.total_agents > 0,
    ensures
        fleet_target(plan, slice_index, plan.proto.total_agents as nat) == (
        match load_plan::planned(plan.proto.slices@, slice_index) {
            Some(total) => total as nat,
            None => 0,
        }),
{
    let agents = plan.proto.total_agents as nat;
    lemma_fleet_target(plan, slice_index, agents);
    match load_plan::planned(plan.proto.slices@, slice_index) {
        Some(total) => {
            distributor::law_connections_sum_to_total(total as nat, agents);
        },
        None => {},
    }
}

proof fn lemma_fleet_target(plan: AgentPlan, slice_index: u32, n: nat)
    requires
        plan.proto.total_agents > 0,
        n <= plan.proto.total_agents,
    ensures
        fleet_target(plan, slice_index, n) == (match load_plan::planned(
            plan.proto.slices@,
            slice_index,
        ) {
            Some(total) => distributor::shares(total as nat, plan.proto.total_agents as nat, n),
            None => 0,
        }),
    decreases n,
{
    if n > 0 {
        lemma_fleet_target(plan, slice_index, (n - 1) as nat);
    }
}

/// The connections of two agents of a plan differ by at most one, and the one with
/// the lower index does not have fewer.
pub proof fn law_agents_are_loaded_evenly(plan: AgentPlan, slice_index: u32, i: u32, j: u32)
    requires
        i <= j < plan.proto.total_agents,
    ensures
        ({
            let a = target(AgentPlan { agent_index: i, ..plan }, slice_index);
            let b = target(AgentPlan { agent_index: j, ..plan }, slice_index);
            b <= a <= b + 1
        }),
{
}

/// At a tick an agent starts just as many transfers as are missing: with those
/// that are running it has as many as it is to have, or more where more are
/// running. The tick is acknowledged under the agent's own id.
pub proof fn law_tick_fills_up(o: TickOrders, s: AgentSession, slice_index: u32, running: u32)
    requires
        are_orders_for(o, s, slice_index, running),
    ensures
        running <= target(s.plan, slice_index) ==> running + o.to_start == target(
            s.plan,
            slice_index,
        ),
        running >= target(s.plan, slice_index) ==> o.to_start == 0,
        o.ack.agent_id@ == s.agent_id@,
        o.ack.payload matches Some(ReportPayload::SliceAck(a)) && a.slice_index == slice_index,
        o.metrics is Some <==> s.metrics.pending@.len() > 0,
        o.metrics matches Some(r) ==> r.agent_id@ == s.agent_id@ && (r.payload matches Some(
            ReportPayload::MetricsUpdate(u),
        ) && u.completed_transfers@.len() == s.metrics.pending@.len() && u.current_slice
            == slice_index && u.active_connections == running),
{
    match o.metrics {
        Some(r) => {
            match r.payload {
                Some(ReportPayload::MetricsUpdate(u)) => {
                    assert(proto::record_views(u.completed_transfers@).len()
                        == metrics::records(s.metrics.pending@).len());
                },
                _ => {},
            }
        },
        None => {},
    }
}

/// What a report on transfers tells: the agent, the slice, the running connections
/// and every transfer that is over, in order; none is queued.
pub proof fn law_report_tells_transfers(
    r: AgentReport,
    agent_id: Seq<char>,
    slice: u32,
    active: u32,
    done: Seq<TransferOutcome>,
    i: int,
)
    requires
        is_metrics(r, agent_id, slice, active, done),
        0 <= i < done.len(),
    ensures
        r.agent_id@ == agent_id,
        r.payload matches Some(ReportPayload::MetricsUpdate(u)) && {
            let t = proto::record_views(u.completed_transfers@);
            &&& u.current_slice == slice && u.active_connections == active
            &&& u.queued_connections == 0
            &&& t.len() == done.len()
            &&& t[i].filename == done[i].filename@
            &&& t[i].bucket_id == done[i].bucket_id@
            &&& t[i].bytes_transferred == done[i].bytes_transferred
            &&& t[i].file_size_bytes == done[i].file_size_bytes
            &&& t[i].bandwidth_kibps == done[i].bandwidth_kibps
            &&& t[i].success == done[i].success
            &&& t[i].start_time_ms == done[i].start_time_ms
            &&& t[i].end_time_ms == done[i].end_time_ms
            &&& t[i].time_slice == done[i].time_slice
        },
{
}

/// The transfers that a tick starts have the limit of their slice: none where
/// nothing limits them, and otherwise one whose rate is at most two in a hundred
/// above an even share of the bandwidth of the agent.
pub proof fn law_tick_limits_transfers(
    o: TickOrders,
    s: AgentSession,
    slice_index: u32,
    running: u32,
)
    requires
        are_orders_for(o, s, slice_index, running),
    ensures
        o.rate is None <==> transfer_bps(s.plan, slice_index) == 0,
        o.rate is Some && transfer_bps(s.plan, slice_index) <= u64::MAX ==> 100
            * rate_limit::rate_of(o.rate->0) <= 102 * transfer_bps(s.plan, slice_index),
{
    let bps = transfer_bps(s.plan, slice_index);
    if 0 < bps <= u64::MAX {
        rate_limit::law_rate_not_exceeded(bps);
    }
}

} // verus!
