//! The payload that is sent to the dashboards every few seconds.
//!
//! The engine adds up what the agents have done and derives from it how many
//! bytes moved since the last payload. Rates are smoothed by the caller.

use vstd::prelude::*;

use crate::coach::metrics_store;
use crate::coach::metrics_store::AgentTotals;
use crate::coach::registry::{AgentStatus, StatusView};
use crate::proto::{utc_now_ms, RecordView, TransferRecord};
use crate::text;

verus! {

/// State and totals of one agent.
#[derive(Debug)]
pub struct AgentSnapshot {
    pub agent_id: String,
    pub agent_index: u32,
    pub connected: bool,
    pub current_slice: u32,
    pub active_connections: u32,
    pub bytes_transferred: u64,
    pub success_count: u32,
    pub error_count: u32,
    pub private_ip: String,
    pub instance_id: String,
    pub bytes_in_flight: u64,
    pub plan_acked: bool,
}

/// Whether a snapshot shows this state and these totals.
pub open spec fn shows(a: AgentSnapshot, s: StatusView, t: AgentTotals) -> bool {
    &&& a.agent_id@ == s.agent_id
    &&& a.agent_index == s.agent_index
    &&& a.connected == s.connected
    &&& a.current_slice == s.current_slice
    &&& a.active_connections == s.active_connections
    &&& a.private_ip@ == s.private_ip
    &&& a.instance_id@ == s.instance_id
    &&& a.plan_acked == s.plan_acked
    &&& a.bytes_transferred == t.bytes_transferred
    &&& a.success_count == t.success_count
    &&& a.error_count == t.error_count
    &&& a.bytes_in_flight == t.bytes_in_flight
}

/// One finished transfer with its agent.
#[derive(Debug)]
pub struct TransferDelta {
    pub agent_id: String,
    pub filename: String,
    pub bucket_id: String,
    pub bytes_transferred: u64,
    pub file_size_bytes: u64,
    pub bandwidth_kibps: u32,
    pub success: bool,
    pub error_reason: Option<String>,
    pub start_time_ms: i64,
    pub end_time_ms: i64,
    pub time_slice: u32,
}

/// Whether a delta is this transfer of this agent.
pub open spec fn is_delta_of(d: TransferDelta, agent: Seq<char>, r: RecordView) -> bool {
    &&& d.agent_id@ == agent
    &&& d.filename@ == r.filename
    &&& d.bucket_id@ == r.bucket_id
    &&& d.bytes_transferred == r.bytes_transferred
    &&& d.file_size_bytes == r.file_size_bytes
    &&& d.bandwidth_kibps == r.bandwidth_kibps
    &&& d.success == r.success
    &&& text::opt_text(d.error_reason) == r.error_reason
    &&& d.start_time_ms == r.start_time_ms
    &&& d.end_time_ms == r.end_time_ms
    &&& d.time_slice == r.time_slice
}

/// Sums over all agents.
#[derive(Debug, Clone, Copy, PartialEq, Eq, Structural)]
pub struct GlobalStats {
    pub total_bytes_transferred: u64,
    pub total_success: u32,
    pub total_errors: u32,
    pub active_agents: u32,
    pub active_connections: u32,
}

/// How many bytes moved in how many milliseconds.
#[derive(Debug, Clone, Copy, PartialEq, Eq, Structural)]
pub struct BandwidthSample {
    pub bytes: u64,
    /// At least 1.
    pub elapsed_ms: u64,
}

/// The payload.
#[derive(Debug)]
pub struct DashboardUpdate {
    pub timestamp_ms: i64,
    pub current_slice: u32,
    pub total_slices: u32,
    pub agents: Vec<AgentSnapshot>,
    /// Only the transfers since the last payload.
    pub completed_transfers: Vec<TransferDelta>,
    pub global_stats: GlobalStats,
    pub bandwidth: BandwidthSample,
}

/// Sum of a quantity over the first `n` agents.
pub open spec fn sum(f: spec_fn(int) -> nat, n: nat) -> nat
    decreases n,
{
    if n == 0 {
        0
    } else {
        sum(f, (n - 1) as nat) + f(n - 1)
    }
}

proof fn lemma_sum_prefix(f: spec_fn(int) -> nat, i: nat, n: nat)
    requires
        i <= n,
    ensures
        sum(f, i) <= sum(f, n),
    decreases n,
{
    if i < n {
        lemma_sum_prefix(f, i, (n - 1) as nat);
    }
}

/// Bytes of finished transfers of agent `i`.
pub open spec fn bytes_at(t: Seq<AgentTotals>) -> spec_fn(int) -> nat {
    |i: int| t[i].bytes_transferred as nat
}

/// Bytes of finished and running transfers of agent `i`.
pub open spec fn moved_at(t: Seq<AgentTotals>) -> spec_fn(int) -> nat {
    |i: int| (t[i].bytes_transferred + t[i].bytes_in_flight) as nat
}

/// Transfers of agent `i` that succeeded.
pub open spec fn successes_at(t: Seq<AgentTotals>) -> spec_fn(int) -> nat {
    |i: int| t[i].success_count as nat
}

/// Transfers of agent `i` that failed.
pub open spec fn errors_at(t: Seq<AgentTotals>) -> spec_fn(int) -> nat {
    |i: int| t[i].error_count as nat
}

/// Connections of agent `i`.
pub open spec fn connections_at(s: Seq<AgentStatus>) -> spec_fn(int) -> nat {
    |i: int| s[i].active_connections as nat
}

/// 1 where agent `i` is connected.
pub open spec fn connected_at(s: Seq<AgentStatus>) -> spec_fn(int) -> nat {
    |i: int|
        if s[i].connected {
            1nat
        } else {
            0nat
        }
}

/// Whether all sums fit their types.
pub open spec fn sums_fit(s: Seq<AgentStatus>, t: Seq<AgentTotals>) -> bool {
    &&& s.len() == t.len()
    &&& s.len() <= u32::MAX
    &&& sum(bytes_at(t), t.len()) <= u64::MAX
    &&& sum(moved_at(t), t.len()) <= u64::MAX
    &&& sum(successes_at(t), t.len()) <= u32::MAX
    &&& sum(errors_at(t), t.len()) <= u32::MAX
    &&& sum(connections_at(s), s.len()) <= u32::MAX
}

/// The milliseconds between two payloads, at least 1.
pub open spec fn elapsed_ms(last: i64, now: i64) -> int {
    if now - last >= 1 {
        now - last
    } else {
        1
    }
}

/// What the engine remembers from payload to payload.
#[derive(Debug)]
pub struct DeltaEngine {
    pub last_compute_ms: i64,
    /// Bytes of finished and running transfers of all agents at the last
    /// payload.
    pub prev_total_bytes: u64,
}

fn snapshot_of(s: &AgentStatus, t: &AgentTotals) -> (a: AgentSnapshot)
    ensures
        shows(a, s@, *t),
{
    AgentSnapshot {
        agent_id: text::copy_str(s.agent_id.as_str()),
        agent_index: s.agent_index,
        connected: s.connected,
        current_slice: s.current_slice,
        active_connections: s.active_connections,
        bytes_transferred: t.bytes_transferred,
        success_count: t.success_count,
        error_count: t.error_count,
        private_ip: text::copy_str(s.private_ip.as_str()),
        instance_id: text::copy_str(s.instance_id.as_str()),
        bytes_in_flight: t.bytes_in_flight,
        plan_acked: s.plan_acked,
    }
}

fn delta_of(agent_id: &str, r: &TransferRecord) -> (d: TransferDelta)
    ensures
        is_delta_of(d, agent_id@, r@),
{
    TransferDelta {
        agent_id: text::copy_str(agent_id),
        filename: text::copy_str(r.filename.as_str()),
        bucket_id: text::copy_str(r.bucket_id.as_str()),
        bytes_transferred: r.bytes_transferred,
        file_size_bytes: r.file_size_bytes,
        bandwidth_kibps: r.bandwidth_kibps,
        success: r.success,
        error_reason: text::copy_opt(&r.error_reason),
        start_time_ms: r.start_time_ms,
        end_time_ms: r.end_time_ms,
        time_slice: r.time_slice,
    }
}

impl DeltaEngine {
    /// An engine that starts at the time `now_ms`.
    pub fn new_at(now_ms: i64) -> (e: DeltaEngine)
        ensures
            e.last_compute_ms == now_ms,
            e.prev_total_bytes == 0,
    {
        DeltaEngine { last_compute_ms: now_ms, prev_total_bytes: 0 }
    }

    /// An engine that starts now, at whatever time the system clock says.
    pub fn new() -> (e: DeltaEngine)
        ensures
            e.prev_total_bytes == 0,
    {
        DeltaEngine::new_at(utc_now_ms())
    }

    /// Builds the payload at the time `now_ms`.
    ///
    /// `totals` holds the totals of the agents of `registry_snapshot`, in the
    /// same order, and `drained` the transfers since the last payload. The
    /// bytes that moved are the growth of finished and running transfers
    /// together, which does not jump when a transfer finishes; where that sum
    /// went down, nothing moved.
    pub fn compute_at(
        &mut self,
        now_ms: i64,
        current_slice: u32,
        total_slices: u32,
        registry_snapshot: &Vec<AgentStatus>,
        totals: &Vec<AgentTotals>,
        drained: &Vec<(String, TransferRecord)>,
    ) -> (u: DashboardUpdate)
        requires
            sums_fit(registry_snapshot@, totals@),
        ensures
            final(self).last_compute_ms == now_ms,
            final(self).prev_total_bytes == sum(moved_at(totals@), totals@.len()),
            u.timestamp_ms == now_ms,
            u.current_slice == current_slice,
            u.total_slices == total_slices,
            u.agents@.len() == registry_snapshot@.len(),
            forall|i: int|
                0 <= i < u.agents@.len() ==> shows(
                    #[trigger] u.agents@[i],
                    registry_snapshot@[i]@,
                    totals@[i],
                ),
            u.completed_transfers@.len() == drained@.len(),
            forall|i: int|
                0 <= i < drained@.len() ==> is_delta_of(
                    #[trigger] u.completed_transfers@[i],
                    drained@[i].0@,
                    drained@[i].1@,
                ),
            u.global_stats.total_bytes_transferred == sum(bytes_at(totals@), totals@.len()),
            u.global_stats.total_success == sum(successes_at(totals@), totals@.len()),
            u.global_stats.total_errors == sum(errors_at(totals@), totals@.len()),
            u.global_stats.active_agents == sum(
                connected_at(registry_snapshot@),
                registry_snapshot@.len(),
            ),
            u.global_stats.active_connections == sum(
                connections_at(registry_snapshot@),
                registry_snapshot@.len(),
            ),
            u.bandwidth.elapsed_ms == elapsed_ms(old(self).last_compute_ms, now_ms),
            u.bandwidth.bytes == (if sum(moved_at(totals@), totals@.len())
                >= old(self).prev_total_bytes {
                sum(moved_at(totals@), totals@.len()) - old(self).prev_total_bytes
            } else {
                0
            }),
    {
        let last: i64 = self.last_compute_ms;
        let elapsed: u64 = if now_ms > last {
            (now_ms as i128 - last as i128) as u64
        } else {
            1
        };
        self.last_compute_ms = now_ms;

        let n: usize = registry_snapshot.len();
        let ghost s = registry_snapshot@;
        let ghost t = totals@;
        let mut agents: Vec<AgentSnapshot> = Vec::new();
        let mut total_bytes: u64 = 0;
        let mut total_now: u64 = 0;
        let mut total_success: u32 = 0;
        let mut total_errors: u32 = 0;
        let mut active_agents: u32 = 0;
        let mut active_connections: u32 = 0;
        let mut i: usize = 0;
        while i < n
            invariant
                i <= n,
                n == s.len(),
                s == registry_snapshot@,
                t == totals@,
                sums_fit(s, t),
                agents@.len() == i,
                forall|k: int| 0 <= k < i ==> shows(#[trigger] agents@[k], s[k]@, t[k]),
                total_bytes == sum(bytes_at(t), i as nat),
                total_now == sum(moved_at(t), i as nat),
                total_success == sum(successes_at(t), i as nat),
                total_errors == sum(errors_at(t), i as nat),
                active_agents == sum(connected_at(s), i as nat),
                active_agents <= i,
                active_connections == sum(connections_at(s), i as nat),
            decreases n - i,
        {
            proof {
                let j = (i + 1) as nat;
                lemma_sum_prefix(bytes_at(t), j, t.len());
                lemma_sum_prefix(moved_at(t), j, t.len());
                lemma_sum_prefix(successes_at(t), j, t.len());
                lemma_sum_prefix(errors_at(t), j, t.len());
                lemma_sum_prefix(connections_at(s), j, s.len());
                assert(moved_at(t)(i as int) == t[i as int].bytes_transferred
                    + t[i as int].bytes_in_flight);
            }
            let st = &registry_snapshot[i];
            let to: AgentTotals = totals[i];
            agents.push(snapshot_of(st, &to));
            total_bytes = total_bytes + to.bytes_transferred;
            total_now = total_now + (to.bytes_transferred + to.bytes_in_flight);
            total_success = total_success + to.success_count;
            total_errors = total_errors + to.error_count;
            active_connections = active_connections + st.active_connections;
            if st.connected {
                active_agents = active_agents + 1;
            }
            i = i + 1;
        }
        let bytes: u64 = if total_now >= self.prev_total_bytes {
            total_now - self.prev_total_bytes
        } else {
            0
        };
        self.prev_total_bytes = total_now;

        let mut completed_transfers: Vec<TransferDelta> = Vec::new();
        let mut k: usize = 0;
        while k < drained.len()
            invariant
                k <= drained@.len(),
                completed_transfers@.len() == k,
                forall|j: int|
                    0 <= j < k ==> is_delta_of(
                        #[trigger] completed_transfers@[j],
                        drained@[j].0@,
                        drained@[j].1@,
                    ),
            decreases drained@.len() - k,
        {
            let pair = &drained[k];
            completed_transfers.push(delta_of(pair.0.as_str(), &pair.1));
            k = k + 1;
        }
        DashboardUpdate {
            timestamp_ms: now_ms,
            current_slice,
            total_slices,
            agents,
            completed_transfers,
            global_stats: GlobalStats {
                total_bytes_transferred: total_bytes,
                total_success,
                total_errors,
                active_agents,
                active_connections,
            },
            bandwidth: BandwidthSample { bytes, elapsed_ms: elapsed },
        }
    }

    /// Builds the payload now. The time is read from the system clock; the
    /// payload is the one that [`DeltaEngine::compute_at`] builds for the time
    /// in `timestamp_ms`.
    pub fn compute(
        &mut self,
        current_slice: u32,
        total_slices: u32,
        registry_snapshot: &Vec<AgentStatus>,
        totals: &Vec<AgentTotals>,
        drained: &Vec<(String, TransferRecord)>,
    ) -> (u: DashboardUpdate)
        requires
            sums_fit(registry_snapshot@, totals@),
        ensures
            final(self).last_compute_ms == u.timestamp_ms,
            final(self).prev_total_bytes == sum(moved_at(totals@), totals@.len()),
            u.current_slice == current_slice,
            u.total_slices == total_slices,
            u.agents@.len() == registry_snapshot@.len(),
            forall|i: int|
                0 <= i < u.agents@.len() ==> shows(
                    #[trigger] u.agents@[i],
                    registry_snapshot@[i]@,
                    totals@[i],
                ),
            u.completed_transfers@.len() == drained@.len(),
            forall|i: int|
                0 <= i < drained@.len() ==> is_delta_of(
                    #[trigger] u.completed_transfers@[i],
                    drained@[i].0@,
                    drained@[i].1@,
                ),
            u.global_stats == (GlobalStats {
                total_bytes_transferred: sum(bytes_at(totals@), totals@.len()) as u64,
                total_success: sum(successes_at(totals@), totals@.len()) as u32,
                total_errors: sum(errors_at(totals@), totals@.len()) as u32,
                active_agents: sum(
                    connected_at(registry_snapshot@),
                    registry_snapshot@.len(),
                ) as u32,
                active_connections: sum(
                    connections_at(registry_snapshot@),
                    registry_snapshot@.len(),
                ) as u32,
            }),
            u.bandwidth.elapsed_ms == elapsed_ms(old(self).last_compute_ms, u.timestamp_ms),
            u.bandwidth.bytes == (if sum(moved_at(totals@), totals@.len())
                >= old(self).prev_total_bytes {
                sum(moved_at(totals@), totals@.len()) - old(self).prev_total_bytes
            } else {
                0
            }),
    {
        let now: i64 = utc_now_ms();
        self.compute_at(now, current_slice, total_slices, registry_snapshot, totals, drained)
    }
}

/// Whether all sums over these agents fit their types.
pub fn check_sums(s: &Vec<AgentStatus>, t: &Vec<AgentTotals>) -> (ok: bool)
    ensures
        ok ==> sums_fit(s@, t@),
        ok <== sums_fit(s@, t@),
{
    if s.len() != t.len() || s.len() > u32::MAX as usize {
        return false;
    }
    let n: usize = s.len();
    let mut bytes: u128 = 0;
    let mut moved: u128 = 0;
    let mut good: u128 = 0;
    let mut bad: u128 = 0;
    let mut conns: u128 = 0;
    let mut i: usize = 0;
    while i < n
        invariant
            i <= n <= u32::MAX,
            n == s@.len(),
            n == t@.len(),
            bytes == sum(bytes_at(t@), i as nat),
            moved == sum(moved_at(t@), i as nat),
            good == sum(successes_at(t@), i as nat),
            bad == sum(errors_at(t@), i as nat),
            conns == sum(connections_at(s@), i as nat),
            bytes <= i * u64::MAX,
            moved <= i * (2 * u64::MAX),
            good <= i * u32::MAX,
            bad <= i * u32::MAX,
            conns <= i * u32::MAX,
        decreases n - i,
    {
        proof {
            assert(i * (2 * u64::MAX) <= u32::MAX * (2 * u64::MAX)) by (nonlinear_arith)
                requires
                    i <= u32::MAX,
            ;
        }
        bytes = bytes + t[i].bytes_transferred as u128;
        moved = moved + (t[i].bytes_transferred as u128 + t[i].bytes_in_flight as u128);
        good = good + t[i].success_count as u128;
        bad = bad + t[i].error_count as u128;
        conns = conns + s[i].active_connections as u128;
        i = i + 1;
    }
    bytes <= u64::MAX as u128 && moved <= u64::MAX as u128 && good <= u32::MAX as u128 && bad
        <= u32::MAX as u128 && conns <= u32::MAX as u128
}

/// When a running transfer finishes, its bytes move from running to finished
/// and the sum of both stays the same: no bytes have moved.
pub proof fn law_completion_moves_no_bytes(
    before: Seq<AgentTotals>,
    after: Seq<AgentTotals>,
    n: nat,
)
    requires
        n <= before.len(),
        before.len() == after.len(),
        forall|i: int|
            0 <= i < before.len() ==> (#[trigger] after[i]).bytes_transferred
                + after[i].bytes_in_flight == before[i].bytes_transferred
                + before[i].bytes_in_flight,
    ensures
        sum(moved_at(after), n) == sum(moved_at(before), n),
    decreases n,
{
    if n > 0 {
        law_completion_moves_no_bytes(before, after, (n - 1) as nat);
        assert(after[n - 1].bytes_transferred + after[n - 1].bytes_in_flight
            == before[n - 1].bytes_transferred + before[n - 1].bytes_in_flight);
    }
}

proof fn lemma_same_sum(f: spec_fn(int) -> nat, g: spec_fn(int) -> nat, n: nat)
    requires
        forall|i: int| 0 <= i < n ==> #[trigger] f(i) == g(i),
    ensures
        sum(f, n) == sum(g, n),
    decreases n,
{
    if n > 0 {
        lemma_same_sum(f, g, (n - 1) as nat);
    }
}

/// Every sum starts at 0 and grows by what one more agent has: its bytes, its
/// bytes with those on the way, its successes and its failures.
pub proof fn law_agent_adds_its_totals(t: Seq<AgentTotals>, x: AgentTotals)
    ensures
        sum(bytes_at(Seq::empty()), 0) == 0,
        sum(moved_at(Seq::empty()), 0) == 0,
        sum(successes_at(Seq::empty()), 0) == 0,
        sum(errors_at(Seq::empty()), 0) == 0,
        sum(bytes_at(t.push(x)), t.len() + 1) == sum(bytes_at(t), t.len()) + x.bytes_transferred,
        sum(moved_at(t.push(x)), t.len() + 1) == sum(moved_at(t), t.len()) + x.bytes_transferred
            + x.bytes_in_flight,
        sum(successes_at(t.push(x)), t.len() + 1) == sum(successes_at(t), t.len())
            + x.success_count,
        sum(errors_at(t.push(x)), t.len() + 1) == sum(errors_at(t), t.len()) + x.error_count,
{
    let u = t.push(x);
    assert(forall|i: int| 0 <= i < t.len() ==> #[trigger] u[i] == t[i]);
    lemma_same_sum(bytes_at(u), bytes_at(t), t.len());
    lemma_same_sum(moved_at(u), moved_at(t), t.len());
    lemma_same_sum(successes_at(u), successes_at(t), t.len());
    lemma_same_sum(errors_at(u), errors_at(t), t.len());
}

/// One more agent adds its connections, and counts as active where it is
/// connected.
pub proof fn law_agent_adds_its_connections(s: Seq<AgentStatus>, x: AgentStatus)
    ensures
        sum(connections_at(Seq::empty()), 0) == 0,
        sum(connected_at(Seq::empty()), 0) == 0,
        sum(connections_at(s.push(x)), s.len() + 1) == sum(connections_at(s), s.len())
            + x.active_connections,
        x.connected ==> sum(connected_at(s.push(x)), s.len() + 1) == sum(connected_at(s), s.len())
            + 1,
        !x.connected ==> sum(connected_at(s.push(x)), s.len() + 1) == sum(
            connected_at(s),
            s.len(),
        ),
{
    let u = s.push(x);
    assert(forall|i: int| 0 <= i < s.len() ==> #[trigger] u[i] == s[i]);
    lemma_same_sum(connections_at(u), connections_at(s), s.len());
    lemma_same_sum(connected_at(u), connected_at(s), s.len());
}

/// The time between two payloads is what the clock says, and at least a
/// millisecond.
pub proof fn law_time_between_payloads(last: i64, now: i64)
    ensures
        elapsed_ms(last, now) >= 1,
        now > last ==> elapsed_ms(last, now) == now - last,
        now <= last ==> elapsed_ms(last, now) == 1,
{
}

/// A snapshot shows one state and one set of totals only.
pub proof fn law_snapshot_shows_one_agent(
    a: AgentSnapshot,
    s1: StatusView,
    t1: AgentTotals,
    s2: StatusView,
    t2: AgentTotals,
)
    requires
        shows(a, s1, t1),
        shows(a, s2, t2),
    ensures
        s1 == s2,
        t1 == t2,
{
}

/// A delta is one transfer of one agent only.
pub proof fn law_delta_is_one_transfer(
    d: TransferDelta,
    a1: Seq<char>,
    r1: RecordView,
    a2: Seq<char>,
    r2: RecordView,
)
    requires
        is_delta_of(d, a1, r1),
        is_delta_of(d, a2, r2),
    ensures
        a1 == a2,
        r1 == r2,
{
}

} // verus!
