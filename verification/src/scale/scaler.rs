//! When to add a backend and when to drain one.
//!
//! A cycle looks at the sessions of the active backends. Three triggers ask
//! for another backend: a steep rise of the average, a high load per backend,
//! and a hard ceiling. The first two must hold for a number of consecutive
//! cycles; the ceiling acts at once. A cooldown separates two actions.
//!
//! A drain starts when the average stays below a threshold for a number of
//! consecutive cycles. A backend without sessions is preferred; otherwise the
//! most loaded one is drained, so that its pinned clients are spread again.
//!
//! Moments are nanoseconds of a monotonic clock.

use std::collections::VecDeque;

use vstd::prelude::*;

use crate::infra::ipv4::Ipv4;
use crate::scale::snapshot;
use crate::scale::snapshot::{
    AsgGroupInfo, BackendStatus, BackendView,
};
use crate::text;

verus! {

/// Nanoseconds in a second.
pub const NANOS: u64 = 1_000_000_000;

/// Two readings must lie at least this far apart to be compared.
pub const MIN_SPACING: u64 = 100_000_000;

/// How many past averages are kept for the slope.
pub const SLOPE_WINDOW: usize = 7;

/// How many of them a slope is computed from.
pub const SLOPE_LAGS: usize = 6;

/// Tunable parameters of the algorithm.
#[derive(Debug, Clone, Copy, PartialEq, Eq, Structural)]
pub struct ScaleConfig {
    /// Average sessions at which a backend is added at once.
    pub hard_conn_threshold: u32,
    /// Average sessions below which slope and bandwidth are ignored.
    pub slope_low_floor: u32,
    /// Bytes per second and backend beyond which a backend counts as
    /// saturated.
    pub bw_threshold_bps_per_backend: u64,
    /// Average sessions below which a backend may be drained.
    pub drain_threshold: u32,
    /// Consecutive cycles before slope or bandwidth act.
    pub scale_up_hysteresis_cycles: u32,
    /// Consecutive cycles before a drain starts.
    pub drain_hysteresis_cycles: u32,
    /// Least seconds between two additions.
    pub scale_up_cooldown_secs: u64,
    /// Least seconds between two drains.
    pub drain_cooldown_secs: u64,
    /// How many backends may drain at the same time.
    pub max_concurrent_draining: u32,
}

/// One reading of the receive counter of the outside interface.
#[derive(Debug, Clone, Copy, PartialEq, Eq, Structural)]
pub struct IfaceSnapshot {
    /// Bytes received since the interface came up.
    pub rx_bytes: u64,
    /// When the counter was read.
    pub at: u64,
}

/// What survives from cycle to cycle.
#[derive(Debug)]
pub struct ScalerState {
    /// Consecutive cycles in which slope or bandwidth asked for a backend.
    pub scale_up_cycles: u32,
    /// Consecutive cycles in which the condition for a drain held.
    pub drain_cycles: u32,
    /// Backend that is followed across cycles before a drain.
    pub drain_candidate: Option<Ipv4>,
    /// When a backend was last added.
    pub last_scale_up: Option<u64>,
    /// When a drain was last started.
    pub last_drain: Option<u64>,
    /// Averages of the last cycles, oldest first.
    pub slope_samples: VecDeque<(u64, u32)>,
    /// Counter reading of the previous cycle.
    pub bw_prev: Option<IfaceSnapshot>,
    /// The last measured rate in bytes per second, before smoothing; 0 before
    /// the first one and after a counter reset.
    pub bw_raw_bps: u64,
}

impl ScalerState {
    /// The window of averages has its bounded size.
    pub open spec fn wf(self) -> bool {
        self.slope_samples@.len() <= SLOPE_WINDOW
    }

    /// The state before the first cycle.
    pub fn new() -> (s: ScalerState)
        ensures
            s.wf(),
            s.scale_up_cycles == 0,
            s.drain_cycles == 0,
            s.drain_candidate is None,
            s.last_scale_up is None,
            s.last_drain is None,
            s.slope_samples@.len() == 0,
            s.bw_prev is None,
            s.bw_raw_bps == 0,
    {
        ScalerState {
            scale_up_cycles: 0,
            drain_cycles: 0,
            drain_candidate: None,
            last_scale_up: None,
            last_drain: None,
            slope_samples: VecDeque::new(),
            bw_prev: None,
            bw_raw_bps: 0,
        }
    }
}

// ── Sessions ──────────────────────────────────────────────────────────────

/// FTP sessions behind an IPVS connection count: a transfer holds a control
/// and a data connection.
pub fn sessions_from_ipvs(connections: u32) -> (sessions: u32)
    ensures
        sessions == connections / 2,
{
    connections / 2
}

/// A backend that takes part in the decisions of a cycle.
#[derive(Debug, Clone, Copy, PartialEq, Eq, Structural)]
pub struct ActiveBackend {
    pub ip: Ipv4,
    pub slot: Option<u32>,
    pub sessions: u32,
}

/// Whether a backend takes part: it is active, holds a lease that has not run
/// out at `now`, and IPVS knows it.
pub open spec fn participates(b: BackendView, now: u64) -> bool {
    b.state is Active && b.lease is Some && b.lease->0.expires_ms > now && b.ipvs is Some
}

/// The backends that take part, in the order of the snapshot.
pub open spec fn participants(list: Seq<BackendView>, now: u64) -> Seq<ActiveBackend>
    decreases list.len(),
{
    if list.len() == 0 {
        Seq::empty()
    } else {
        let rest = participants(list.drop_last(), now);
        let b = list.last();
        if participates(b, now) {
            rest.push(
                ActiveBackend {
                    ip: b.ip,
                    slot: b.slot,
                    sessions: (b.ipvs->0.active_connections / 2) as u32,
                },
            )
        } else {
            rest
        }
    }
}

/// How many backends are draining.
pub open spec fn draining(list: Seq<BackendView>) -> nat
    decreases list.len(),
{
    if list.len() == 0 {
        0
    } else {
        draining(list.drop_last()) + if list.last().state is Draining {
            1nat
        } else {
            0nat
        }
    }
}

/// The sessions of all backends together.
pub open spec fn total_sessions(list: Seq<ActiveBackend>) -> nat
    decreases list.len(),
{
    if list.len() == 0 {
        0
    } else {
        total_sessions(list.drop_last()) + list.last().sessions as nat
    }
}

/// Average sessions, rounded up.
pub open spec fn average_up(list: Seq<ActiveBackend>) -> int {
    (total_sessions(list) + list.len() - 1) / (list.len() as int)
}

/// Average sessions, rounded down.
pub open spec fn average_down(list: Seq<ActiveBackend>) -> int {
    total_sessions(list) as int / (list.len() as int)
}

proof fn lemma_total_bound(list: Seq<ActiveBackend>)
    ensures
        total_sessions(list) <= list.len() * u32::MAX,
    decreases list.len(),
{
    if list.len() > 0 {
        lemma_total_bound(list.drop_last());
        assert(list.len() * u32::MAX == (list.len() - 1) * u32::MAX + u32::MAX)
            by (nonlinear_arith);
    }
}

proof fn lemma_average_bound(total: int, n: int)
    requires
        n > 0,
        0 <= total <= n * u32::MAX,
    ensures
        0 <= (total + n - 1) / n <= u32::MAX,
        0 <= total / n <= u32::MAX,
{
    assert(0 <= (total + n - 1) / n <= u32::MAX) by (nonlinear_arith)
        requires
            n > 0,
            0 <= total <= n * u32::MAX,
    ;
    assert(0 <= total / n <= u32::MAX) by (nonlinear_arith)
        requires
            n > 0,
            0 <= total <= n * u32::MAX,
    ;
}

/// What a cycle is decided from.
#[derive(Debug)]
pub struct Assessment {
    pub active: Vec<ActiveBackend>,
    /// Backends in the draining state.
    pub draining: u64,
    /// Average sessions, rounded up; 0 without active backends.
    pub avg_sessions: u32,
    /// Average sessions, rounded down; 0 without active backends.
    pub avg_floor: u32,
}

impl Assessment {
    /// Whether this is the assessment of these backends at this wall-clock
    /// time, in milliseconds.
    pub open spec fn is_of(self, list: Seq<BackendView>, now: u64) -> bool {
        &&& self.active@ == participants(list, now)
        &&& self.draining == draining(list)
        &&& self.active@.len() > 0 ==> self.avg_sessions == average_up(self.active@)
            && self.avg_floor == average_down(self.active@)
        &&& self.active@.len() == 0 ==> self.avg_sessions == 0 && self.avg_floor == 0
    }
}

/// Looks at the backends of a snapshot.
pub fn assess(backends: &Vec<BackendStatus>, now: u64) -> (a: Assessment)
    ensures
        a.is_of(snapshot::backend_views(backends@), now),
{
    let ghost all = snapshot::backend_views(backends@);
    let mut active: Vec<ActiveBackend> = Vec::new();
    let mut draining_count: u64 = 0;
    let mut total: u128 = 0;
    let mut i: usize = 0;
    assert(all.take(0) =~= Seq::<BackendView>::empty());
    assert(active@ =~= participants(all.take(0), now));
    while i < backends.len()
        invariant
            i <= backends@.len(),
            all == snapshot::backend_views(backends@),
            active@ == participants(all.take(i as int), now),
            active@.len() <= i,
            draining_count == draining(all.take(i as int)),
            draining_count <= i,
            total == total_sessions(active@),
            total <= active@.len() * u32::MAX,
        decreases backends@.len() - i,
    {
        let ghost before = active@;
        proof {
            assert(all.take(i + 1).drop_last() =~= all.take(i as int));
            assert(all.take(i + 1).last() == backends@[i as int]@);
        }
        let b = &backends[i];
        if b.weight_state.is_draining() {
            draining_count = draining_count + 1;
        }
        let live: bool = match &b.lease {
            Some(l) => !l.is_expired_at(now),
            None => false,
        };
        if b.weight_state.is_active() && live {
            match b.ipvs {
                Some(v) => {
                    let sessions: u32 = sessions_from_ipvs(v.active_connections);
                    active.push(ActiveBackend { ip: b.ip, slot: b.slot, sessions });
                    proof {
                        assert(active@.drop_last() =~= before);
                        assert(active@.len() * u32::MAX == before.len() * u32::MAX + u32::MAX)
                            by (nonlinear_arith)
                            requires
                                active@.len() == before.len() + 1,
                        ;
                        assert(before.len() * u32::MAX <= usize::MAX * u32::MAX)
                            by (nonlinear_arith)
                            requires
                                before.len() <= usize::MAX,
                        ;
                    }
                    total = total + sessions as u128;
                },
                None => {},
            }
        }
        i = i + 1;
    }
    assert(all.take(i as int) =~= all);
    if active.len() == 0 {
        return Assessment { active, draining: draining_count, avg_sessions: 0, avg_floor: 0 };
    }
    let n: u128 = active.len() as u128;
    proof {
        assert(active@.len() * u32::MAX <= usize::MAX * u32::MAX) by (nonlinear_arith)
            requires
                active@.len() <= usize::MAX,
        ;
        lemma_average_bound(total as int, n as int);
    }
    let up: u128 = (total + n - 1) / n;
    let down: u128 = total / n;
    Assessment {
        active,
        draining: draining_count,
        avg_sessions: up as u32,
        avg_floor: down as u32,
    }
}

// ── Interface counter ─────────────────────────────────────────────────────

/// What follows the name of the interface and a colon on its line.
pub open spec fn iface_rest(line: Seq<char>, iface: Seq<char>) -> Option<Seq<char>> {
    match text::strip_prefix(text::trim_start(line), iface) {
        Some(r) => text::strip_prefix(r, ":"@),
        None => None,
    }
}

/// The receive counter on the first line of the interface.
pub open spec fn iface_rx(lines: Seq<Seq<char>>, iface: Seq<char>) -> Option<nat>
    decreases lines.len(),
{
    if lines.len() == 0 {
        None
    } else {
        match iface_rest(lines[0], iface) {
            Some(r) => if text::words(r).len() == 0 {
                None
            } else {
                text::parse_max(text::words(r)[0], u64::MAX as nat)
            },
            None => iface_rx(lines.skip(1), iface),
        }
    }
}

/// The receive counter of an interface in the text of `/proc/net/dev`.
///
/// The first line of the interface decides: where its first column is no
/// number, there is no counter.
pub fn parse_iface_rx_bytes(content: &str, iface: &str) -> (r: Option<u64>)
    ensures
        match r {
            Some(n) => iface_rx(text::lines(content@), iface@) == Some(n as nat),
            None => iface_rx(text::lines(content@), iface@) is None,
        },
{
    let lines = text::lines_of(content);
    let ghost all = text::lines(content@);
    let mut i: usize = 0;
    assert(all.skip(0) =~= all);
    while i < lines.len()
        invariant
            i <= lines@.len(),
            all == text::texts(lines@),
            iface_rx(all, iface@) == iface_rx(all.skip(i as int), iface@),
            all == text::lines(content@),
        decreases lines@.len() - i,
    {
        proof {
            assert(all.skip(i as int)[0] == lines@[i as int]@);
            assert(all.skip(i as int).skip(1) =~= all.skip(i + 1));
        }
        let line = text::trimmed_start(lines[i].as_str());
        match text::after_prefix(line.as_str(), iface) {
            Some(r) => match text::after_prefix(r.as_str(), ":") {
                Some(rest) => {
                    let words = text::words_of(rest.as_str());
                    assert(words@.len() == text::words(rest@).len());
                    if words.len() == 0 {
                        return None;
                    }
                    assert(text::texts(words@)[0] == words@[0]@);
                    return text::parse_up_to(words[0].as_str(), u64::MAX);
                },
                None => {},
            },
            None => {},
        }
        i = i + 1;
    }
    None
}

/// What a counter reading tells about the load.
#[derive(Debug, Clone, Copy, PartialEq, Eq, Structural)]
pub enum BandwidthStep {
    /// The group is not known or the counter could not be read.
    Skipped,
    /// There is no earlier reading to compare with.
    First,
    /// The earlier reading is too close, or lies in the future.
    TooClose,
    /// The counter went backwards: the interface was reset.
    CounterReset,
    /// So many bytes came in during so many nanoseconds.
    Rate { bytes: u64, elapsed: u64 },
}

/// What a reading tells, given the one before it.
pub open spec fn bandwidth_step(prev: Option<IfaceSnapshot>, cur: IfaceSnapshot) -> BandwidthStep {
    match prev {
        None => BandwidthStep::First,
        Some(p) => if cur.at < p.at || cur.at - p.at <= MIN_SPACING {
            BandwidthStep::TooClose
        } else if cur.rx_bytes < p.rx_bytes {
            BandwidthStep::CounterReset
        } else {
            BandwidthStep::Rate {
                bytes: (cur.rx_bytes - p.rx_bytes) as u64,
                elapsed: (cur.at - p.at) as u64,
            }
        },
    }
}

/// The last rate after a step that is not a rate itself: a counter reset sets
/// it to 0, and otherwise it stays.
pub open spec fn raw_rate_after(step: BandwidthStep, last: u64) -> u64 {
    if step is CounterReset {
        0
    } else {
        last
    }
}

/// Takes in the counter reading of a cycle.
///
/// The reading is compared with that of the cycle before and takes its place.
/// After a counter reset the last rate is 0; a rate is recorded with
/// [`record_rate`] once it is worked out. Where the scaling group is not known,
/// or there is no reading, nothing changes.
pub fn observe_bandwidth(
    state: &mut ScalerState,
    group_known: bool,
    reading: Option<IfaceSnapshot>,
) -> (step: BandwidthStep)
    ensures
        step == (match (group_known, reading) {
            (true, Some(cur)) => bandwidth_step(old(state).bw_prev, cur),
            _ => BandwidthStep::Skipped,
        }),
        *final(state) == (ScalerState {
            bw_prev: match (group_known, reading) {
                (true, Some(cur)) => Some(cur),
                _ => old(state).bw_prev,
            },
            bw_raw_bps: raw_rate_after(step, old(state).bw_raw_bps),
            ..*old(state)
        }),
{
    if !group_known {
        return BandwidthStep::Skipped;
    }
    let cur: IfaceSnapshot = match reading {
        Some(r) => r,
        None => return BandwidthStep::Skipped,
    };
    let prev: Option<IfaceSnapshot> = state.bw_prev;
    state.bw_prev = Some(cur);
    match prev {
        None => BandwidthStep::First,
        Some(p) => {
            if cur.at < p.at || cur.at - p.at <= MIN_SPACING {
                BandwidthStep::TooClose
            } else if cur.rx_bytes < p.rx_bytes {
                state.bw_raw_bps = 0;
                BandwidthStep::CounterReset
            } else {
                BandwidthStep::Rate { bytes: cur.rx_bytes - p.rx_bytes, elapsed: cur.at - p.at }
            }
        },
    }
}

/// Records the rate of a cycle, in bytes per second.
pub fn record_rate(state: &mut ScalerState, bps: u64)
    ensures
        *final(state) == (ScalerState { bw_raw_bps: bps, ..*old(state) }),
{
    state.bw_raw_bps = bps;
}

// ── Slope ─────────────────────────────────────────────────────────────────

/// A past average and how long ago it was taken.
#[derive(Debug, Clone, Copy, PartialEq, Eq, Structural)]
pub struct SlopeLag {
    pub sessions: u32,
    pub elapsed: u64,
}

/// The first `k` lags that can be used, from the most recent sample back. A
/// sample from the future or too close to `now` is left out.
pub open spec fn usable_lags(samples: Seq<(u64, u32)>, now: u64, k: nat) -> Seq<SlopeLag>
    decreases k,
{
    if k == 0 {
        Seq::empty()
    } else {
        let rest = usable_lags(samples, now, (k - 1) as nat);
        let s = samples[samples.len() - k];
        if s.0 <= now && now - s.0 >= MIN_SPACING {
            rest.push(SlopeLag { sessions: s.1, elapsed: (now - s.0) as u64 })
        } else {
            rest
        }
    }
}

/// How many lags a window of samples offers.
pub open spec fn lag_count(samples: Seq<(u64, u32)>) -> nat {
    if samples.len() < SLOPE_LAGS {
        samples.len()
    } else {
        SLOPE_LAGS as nat
    }
}

/// The past averages that the slope of a cycle is the mean over; without any
/// there is no slope.
pub fn slope_lags(samples: &VecDeque<(u64, u32)>, now: u64) -> (out: Vec<SlopeLag>)
    ensures
        out@ == usable_lags(samples@, now, lag_count(samples@)),
{
    let n: usize = samples.len();
    let max_lags: usize = if n < SLOPE_LAGS {
        n
    } else {
        SLOPE_LAGS
    };
    let mut out: Vec<SlopeLag> = Vec::new();
    let mut lag: usize = 0;
    while lag < max_lags
        invariant
            lag <= max_lags <= n,
            n == samples@.len(),
            max_lags == lag_count(samples@),
            out@ == usable_lags(samples@, now, lag as nat),
        decreases max_lags - lag,
    {
        lag = lag + 1;
        let s: (u64, u32) = samples[n - lag];
        if s.0 <= now && now - s.0 >= MIN_SPACING {
            out.push(SlopeLag { sessions: s.1, elapsed: now - s.0 });
        }
    }
    out
}

/// The window of samples after one more.
pub open spec fn window_push(samples: Seq<(u64, u32)>, s: (u64, u32)) -> Seq<(u64, u32)> {
    if samples.len() + 1 > SLOPE_WINDOW {
        samples.push(s).skip(1)
    } else {
        samples.push(s)
    }
}

// ── Scale-up ──────────────────────────────────────────────────────────────

/// Why a backend is added.
#[derive(Debug, Clone, Copy, PartialEq, Eq, Structural)]
pub enum TriggerReason {
    HardCeiling,
    SlopeAndBandwidth,
    Slope,
    Bandwidth,
}

/// The name of a reason.
pub open spec fn reason_text(r: TriggerReason) -> Seq<char> {
    match r {
        TriggerReason::HardCeiling => "hard-ceiling"@,
        TriggerReason::SlopeAndBandwidth => "slope+bandwidth"@,
        TriggerReason::Slope => "slope"@,
        TriggerReason::Bandwidth => "bandwidth"@,
    }
}

impl TriggerReason {
    /// The name of this reason.
    pub fn as_str(&self) -> (s: &'static str)
        ensures
            s@ == reason_text(*self),
    {
        match self {
            TriggerReason::HardCeiling => "hard-ceiling",
            TriggerReason::SlopeAndBandwidth => "slope+bandwidth",
            TriggerReason::Slope => "slope",
            TriggerReason::Bandwidth => "bandwidth",
        }
    }
}

/// What the rates of a cycle say.
#[derive(Debug, Clone, Copy, PartialEq, Eq, Structural)]
pub struct LoadSignals {
    /// Whether the mean slope exceeds its threshold; `false` without one.
    pub slope_over: bool,
    /// The smoothed load in bytes per second; `None` while it is zero.
    pub bandwidth: Option<u64>,
}

/// Which triggers hold in a cycle.
#[derive(Debug, Clone, Copy, PartialEq, Eq, Structural)]
pub struct Triggers {
    pub hard: bool,
    pub slope: bool,
    pub bandwidth: bool,
}

/// The triggers of a cycle.
pub open spec fn triggers_of(cfg: ScaleConfig, avg: u32, active: nat, sig: LoadSignals) -> Triggers {
    Triggers {
        hard: avg >= cfg.hard_conn_threshold,
        slope: avg >= cfg.slope_low_floor && sig.slope_over,
        bandwidth: match sig.bandwidth {
            Some(b) => active > 0 && b as nat / active > cfg.bw_threshold_bps_per_backend && avg
                >= cfg.slope_low_floor,
            None => false,
        },
    }
}

/// The outcome of the scale-up evaluation.
#[derive(Debug, Clone, Copy, PartialEq, Eq, Structural)]
pub enum ScaleUpDecision {
    /// The scaling group is not known.
    NoGroup,
    /// No trigger holds.
    Quiet,
    /// A trigger holds, but not yet for enough cycles.
    Confirming,
    /// The group is at its maximum size.
    AtMaximum,
    /// The last addition is too recent.
    CoolingDown { elapsed_secs: u64 },
    /// Set the desired capacity.
    Act { new_desired: u32, reason: TriggerReason },
}

/// Whole seconds between two moments; 0 where the first is the later one.
pub open spec fn elapsed_secs(since: u64, now: u64) -> int {
    if now >= since {
        (now - since) / NANOS as int
    } else {
        0
    }
}

/// The hysteresis counter after a cycle.
pub open spec fn scale_up_count(cfg: ScaleConfig, t: Triggers, cycles: u32) -> int {
    if t.hard {
        cfg.scale_up_hysteresis_cycles as int
    } else if t.slope || t.bandwidth {
        cycles + 1
    } else {
        0
    }
}

/// The decision that follows from the triggers and the counter.
pub open spec fn scale_up_decision(
    cfg: ScaleConfig,
    t: Triggers,
    count: int,
    desired: i64,
    max: i64,
    last: Option<u64>,
    now: u64,
) -> ScaleUpDecision {
    if !t.hard && !t.slope && !t.bandwidth {
        ScaleUpDecision::Quiet
    } else if count < cfg.scale_up_hysteresis_cycles {
        ScaleUpDecision::Confirming
    } else if desired >= max {
        ScaleUpDecision::AtMaximum
    } else if last is Some && elapsed_secs(last->0, now) < cfg.scale_up_cooldown_secs {
        ScaleUpDecision::CoolingDown { elapsed_secs: elapsed_secs(last->0, now) as u64 }
    } else {
        ScaleUpDecision::Act {
            new_desired: (desired + 1) as u32,
            reason: if t.hard {
                TriggerReason::HardCeiling
            } else if t.slope && t.bandwidth {
                TriggerReason::SlopeAndBandwidth
            } else if t.slope {
                TriggerReason::Slope
            } else {
                TriggerReason::Bandwidth
            },
        }
    }
}

/// Whole seconds between two moments; 0 where the first is the later one.
pub fn seconds_since(since: u64, now: u64) -> (s: u64)
    ensures
        s == elapsed_secs(since, now),
{
    if now >= since {
        (now - since) / NANOS
    } else {
        0
    }
}

/// Decides whether a backend is added in this cycle.
///
/// The average joins the window of samples and the hysteresis counter is
/// updated; an addition that is decided on is recorded with
/// [`scale_up_done`] once it was carried out. Where the scaling group is not
/// known nothing changes.
pub fn evaluate_scale_up(
    state: &mut ScalerState,
    cfg: &ScaleConfig,
    group: &Option<AsgGroupInfo>,
    avg_sessions: u32,
    active_count: usize,
    signals: LoadSignals,
    now: u64,
) -> (d: ScaleUpDecision)
    requires
        old(state).scale_up_cycles < u32::MAX,
    ensures
        old(state).wf() ==> final(state).wf(),
        final(state).drain_cycles == old(state).drain_cycles,
        final(state).drain_candidate == old(state).drain_candidate,
        final(state).last_scale_up == old(state).last_scale_up,
        final(state).last_drain == old(state).last_drain,
        final(state).bw_prev == old(state).bw_prev,
        final(state).bw_raw_bps == old(state).bw_raw_bps,
        match *group {
            None => d is NoGroup && *final(state) == *old(state),
            Some(g) => {
                let t = triggers_of(*cfg, avg_sessions, active_count as nat, signals);
                let count = scale_up_count(*cfg, t, old(state).scale_up_cycles);
                &&& final(state).scale_up_cycles == count
                &&& final(state).slope_samples@ == window_push(
                    old(state).slope_samples@,
                    (now, avg_sessions),
                )
                &&& d == scale_up_decision(
                    *cfg,
                    t,
                    count,
                    g.desired_capacity,
                    g.max_size,
                    old(state).last_scale_up,
                    now,
                )
            },
        },
{
    let (desired, max): (i64, i64) = match group {
        Some(g) => (g.desired_capacity, g.max_size),
        None => return ScaleUpDecision::NoGroup,
    };

    state.slope_samples.push_back((now, avg_sessions));
    if state.slope_samples.len() > SLOPE_WINDOW {
        let _ = state.slope_samples.pop_front();
    }
    assert(state.slope_samples@ =~= window_push(old(state).slope_samples@, (now, avg_sessions)));

    let hard: bool = avg_sessions >= cfg.hard_conn_threshold;
    let slope: bool = avg_sessions >= cfg.slope_low_floor && signals.slope_over;
    let bandwidth: bool = match signals.bandwidth {
        Some(b) => active_count > 0 && b / (active_count as u64) > cfg.bw_threshold_bps_per_backend
            && avg_sessions >= cfg.slope_low_floor,
        None => false,
    };

    if hard {
        state.scale_up_cycles = cfg.scale_up_hysteresis_cycles;
    } else if slope || bandwidth {
        state.scale_up_cycles = state.scale_up_cycles + 1;
    } else {
        state.scale_up_cycles = 0;
        return ScaleUpDecision::Quiet;
    }
    if state.scale_up_cycles < cfg.scale_up_hysteresis_cycles {
        return ScaleUpDecision::Confirming;
    }
    if desired >= max {
        return ScaleUpDecision::AtMaximum;
    }
    match state.last_scale_up {
        Some(last) => {
            let elapsed: u64 = seconds_since(last, now);
            if elapsed < cfg.scale_up_cooldown_secs {
                return ScaleUpDecision::CoolingDown { elapsed_secs: elapsed };
            }
        },
        None => {},
    }
    let reason = if hard {
        TriggerReason::HardCeiling
    } else if slope && bandwidth {
        TriggerReason::SlopeAndBandwidth
    } else if slope {
        TriggerReason::Slope
    } else {
        TriggerReason::Bandwidth
    };
    ScaleUpDecision::Act { new_desired: (desired + 1) as u32, reason }
}

/// The capacity to ask of the scaling group; none where the decision is not to
/// add a backend, and in a dry run.
pub fn capacity_request(decision: &ScaleUpDecision, dry_run: bool) -> (r: Option<u32>)
    ensures
        r == (match *decision {
            ScaleUpDecision::Act { new_desired, .. } => if dry_run {
                None
            } else {
                Some(new_desired)
            },
            _ => None,
        }),
{
    match decision {
        ScaleUpDecision::Act { new_desired, .. } => if dry_run {
            None
        } else {
            Some(*new_desired)
        },
        _ => None,
    }
}

/// Records an addition that was carried out, or would have been in a dry run.
pub fn scale_up_done(state: &mut ScalerState, now: u64)
    ensures
        *final(state) == (ScalerState {
            scale_up_cycles: 0,
            last_scale_up: Some(now),
            ..*old(state)
        }),
{
    state.scale_up_cycles = 0;
    state.last_scale_up = Some(now);
}

// ── Drain ─────────────────────────────────────────────────────────────────

/// Why a backend is drained.
#[derive(Debug, Clone, Copy, PartialEq, Eq, Structural)]
pub enum DrainReason {
    /// It has no sessions.
    Idle,
    /// It has the most sessions; draining it breaks their persistence.
    MostLoaded,
}

/// The outcome of the drain evaluation.
#[derive(Debug, Clone, Copy, PartialEq, Eq, Structural)]
pub enum DrainDecision {
    /// The scaling group is not known.
    NoGroup,
    /// Fewer than two backends are active.
    TooFewActive,
    /// The group is at its minimum size.
    AtMinimum,
    /// As many backends are draining as are allowed to.
    TooManyDraining,
    /// The average is not below the threshold.
    LoadTooHigh,
    /// The condition for a drain holds, but not yet for enough cycles.
    Confirming,
    /// The last drain is too recent.
    CoolingDown { elapsed_secs: u64 },
    /// A drain is in progress and every backend has sessions.
    Waiting,
    /// Drain this backend.
    Drain { backend: ActiveBackend, reason: DrainReason },
}

/// The first backend with the fewest sessions.
pub open spec fn first_least(list: Seq<ActiveBackend>) -> int
    decreases list.len(),
{
    if list.len() <= 1 {
        0
    } else {
        let j = first_least(list.drop_last());
        if list.last().sessions < list[j].sessions {
            list.len() - 1
        } else {
            j
        }
    }
}

/// The last backend with the most sessions.
pub open spec fn last_most(list: Seq<ActiveBackend>) -> int
    decreases list.len(),
{
    if list.len() <= 1 {
        0
    } else {
        let j = last_most(list.drop_last());
        if list.last().sessions >= list[j].sessions {
            list.len() - 1
        } else {
            j
        }
    }
}

/// `first_least` is the first of the least loaded backends.
pub proof fn lemma_first_least(list: Seq<ActiveBackend>)
    requires
        list.len() > 0,
    ensures
        0 <= first_least(list) < list.len(),
        forall|k: int| 0 <= k < list.len() ==> list[first_least(list)].sessions <= (#[trigger] list[k]).sessions,
        forall|k: int|
            0 <= k < first_least(list) ==> list[first_least(list)].sessions < (#[trigger] list[k]).sessions,
    decreases list.len(),
{
    if list.len() > 1 {
        let d = list.drop_last();
        lemma_first_least(d);
        assert forall|k: int| 0 <= k < list.len() - 1 implies d[k] == list[k] by {}
    }
}

/// `last_most` is the last of the most loaded backends.
pub proof fn lemma_last_most(list: Seq<ActiveBackend>)
    requires
        list.len() > 0,
    ensures
        0 <= last_most(list) < list.len(),
        forall|k: int| 0 <= k < list.len() ==> (#[trigger] list[k]).sessions <= list[last_most(list)].sessions,
        forall|k: int|
            last_most(list) < k < list.len() ==> (#[trigger] list[k]).sessions < list[last_most(list)].sessions,
    decreases list.len(),
{
    if list.len() > 1 {
        let d = list.drop_last();
        lemma_last_most(d);
        assert forall|k: int| 0 <= k < list.len() - 1 implies d[k] == list[k] by {}
    }
}

fn find_least(list: &Vec<ActiveBackend>) -> (i: usize)
    requires
        list@.len() > 0,
    ensures
        i == first_least(list@),
        i < list@.len(),
{
    let mut best: usize = 0;
    let mut i: usize = 1;
    assert(list@.take(1).len() == 1);
    while i < list.len()
        invariant
            1 <= i <= list@.len(),
            best < i,
            best == first_least(list@.take(i as int)),
        decreases list@.len() - i,
    {
        proof {
            let t = list@.take(i + 1);
            assert(t.drop_last() =~= list@.take(i as int));
            assert(t[best as int] == list@[best as int]);
            assert(t.last() == list@[i as int]);
        }
        if list[i].sessions < list[best].sessions {
            best = i;
        }
        i = i + 1;
    }
    assert(list@.take(i as int) =~= list@);
    best
}

fn find_most(list: &Vec<ActiveBackend>) -> (i: usize)
    requires
        list@.len() > 0,
    ensures
        i == last_most(list@),
        i < list@.len(),
{
    let mut best: usize = 0;
    let mut i: usize = 1;
    assert(list@.take(1).len() == 1);
    while i < list.len()
        invariant
            1 <= i <= list@.len(),
            best < i,
            best == last_most(list@.take(i as int)),
        decreases list@.len() - i,
    {
        proof {
            let t = list@.take(i + 1);
            assert(t.drop_last() =~= list@.take(i as int));
            assert(t[best as int] == list@[best as int]);
            assert(t.last() == list@[i as int]);
        }
        if list[i].sessions >= list[best].sessions {
            best = i;
        }
        i = i + 1;
    }
    assert(list@.take(i as int) =~= list@);
    best
}

/// The decision that follows from the sessions, the capacity and the counter.
/// `cycles` is the counter before the cycle.
pub open spec fn drain_decision(
    cfg: ScaleConfig,
    active: Seq<ActiveBackend>,
    draining: int,
    desired: i64,
    min: i64,
    cycles: u32,
    last: Option<u64>,
    now: u64,
) -> DrainDecision {
    if active.len() <= 1 {
        DrainDecision::TooFewActive
    } else if desired <= min {
        DrainDecision::AtMinimum
    } else if draining >= cfg.max_concurrent_draining {
        DrainDecision::TooManyDraining
    } else if average_down(active) >= cfg.drain_threshold {
        DrainDecision::LoadTooHigh
    } else if cycles + 1 < cfg.drain_hysteresis_cycles {
        DrainDecision::Confirming
    } else if last is Some && elapsed_secs(last->0, now) < cfg.drain_cooldown_secs {
        DrainDecision::CoolingDown { elapsed_secs: elapsed_secs(last->0, now) as u64 }
    } else if active[first_least(active)].sessions == 0 {
        DrainDecision::Drain { backend: active[first_least(active)], reason: DrainReason::Idle }
    } else if draining == 0 {
        DrainDecision::Drain {
            backend: active[last_most(active)],
            reason: DrainReason::MostLoaded,
        }
    } else {
        DrainDecision::Waiting
    }
}

/// The counter after a cycle with this decision.
pub open spec fn drain_count(d: DrainDecision, cycles: u32) -> int {
    match d {
        DrainDecision::NoGroup | DrainDecision::TooManyDraining => cycles as int,
        DrainDecision::TooFewActive
        | DrainDecision::AtMinimum
        | DrainDecision::LoadTooHigh => 0,
        _ => cycles + 1,
    }
}

/// Decides whether a drain is started in this cycle.
///
/// The counter is updated; a drain that is decided on is recorded with
/// [`drain_started`] once it was carried out.
pub fn evaluate_drain(
    state: &mut ScalerState,
    cfg: &ScaleConfig,
    group: &Option<AsgGroupInfo>,
    a: &Assessment,
    now: u64,
) -> (d: DrainDecision)
    requires
        old(state).drain_cycles < u32::MAX,
        a.active@.len() > 0 ==> a.avg_floor == average_down(a.active@),
    ensures
        d == (match *group {
            None => DrainDecision::NoGroup,
            Some(g) => drain_decision(
                *cfg,
                a.active@,
                a.draining as int,
                g.desired_capacity,
                g.min_size,
                old(state).drain_cycles,
                old(state).last_drain,
                now,
            ),
        }),
        final(state).drain_cycles == drain_count(d, old(state).drain_cycles),
        final(state).drain_candidate == (if d is TooFewActive || d is AtMinimum {
            None
        } else {
            old(state).drain_candidate
        }),
        final(state).scale_up_cycles == old(state).scale_up_cycles,
        final(state).last_scale_up == old(state).last_scale_up,
        final(state).last_drain == old(state).last_drain,
        final(state).slope_samples == old(state).slope_samples,
        final(state).bw_prev == old(state).bw_prev,
        final(state).bw_raw_bps == old(state).bw_raw_bps,
{
    let (desired, min): (i64, i64) = match group {
        Some(g) => (g.desired_capacity, g.min_size),
        None => return DrainDecision::NoGroup,
    };
    if a.active.len() <= 1 {
        state.drain_cycles = 0;
        state.drain_candidate = None;
        return DrainDecision::TooFewActive;
    }
    if desired <= min {
        state.drain_cycles = 0;
        state.drain_candidate = None;
        return DrainDecision::AtMinimum;
    }
    if a.draining >= cfg.max_concurrent_draining as u64 {
        return DrainDecision::TooManyDraining;
    }
    if a.avg_floor >= cfg.drain_threshold {
        state.drain_cycles = 0;
        return DrainDecision::LoadTooHigh;
    }
    state.drain_cycles = state.drain_cycles + 1;
    if state.drain_cycles < cfg.drain_hysteresis_cycles {
        return DrainDecision::Confirming;
    }
    match state.last_drain {
        Some(last) => {
            let elapsed: u64 = seconds_since(last, now);
            if elapsed < cfg.drain_cooldown_secs {
                return DrainDecision::CoolingDown { elapsed_secs: elapsed };
            }
        },
        None => {},
    }
    let least: usize = find_least(&a.active);
    if a.active[least].sessions == 0 {
        DrainDecision::Drain { backend: a.active[least], reason: DrainReason::Idle }
    } else if a.draining == 0 {
        let most: usize = find_most(&a.active);
        DrainDecision::Drain { backend: a.active[most], reason: DrainReason::MostLoaded }
    } else {
        DrainDecision::Waiting
    }
}

/// Records a drain that was started.
pub fn drain_started(state: &mut ScalerState, now: u64)
    ensures
        *final(state) == (ScalerState {
            drain_cycles: 0,
            drain_candidate: None,
            last_drain: Some(now),
            ..*old(state)
        }),
{
    state.drain_cycles = 0;
    state.drain_candidate = None;
    state.last_drain = Some(now);
}

// ── One cycle ─────────────────────────────────────────────────────────────

/// What a cycle decided.
#[derive(Debug, Clone, Copy, PartialEq, Eq, Structural)]
pub struct CyclePlan {
    pub scale_up: ScaleUpDecision,
    pub drain: DrainDecision,
}

/// Evaluates both conditions against the assessment of a cycle.
///
/// Without active backends the counters start over and there is no plan.
pub fn run(
    state: &mut ScalerState,
    cfg: &ScaleConfig,
    group: &Option<AsgGroupInfo>,
    a: &Assessment,
    signals: LoadSignals,
    now: u64,
) -> (plan: Option<CyclePlan>)
    requires
        old(state).scale_up_cycles < u32::MAX,
        old(state).drain_cycles < u32::MAX,
        a.active@.len() > 0 ==> a.avg_floor == average_down(a.active@),
    ensures
        old(state).wf() ==> final(state).wf(),
        plan is None <==> a.active@.len() == 0,
        plan is None ==> *final(state) == (ScalerState {
            scale_up_cycles: 0,
            drain_cycles: 0,
            drain_candidate: None,
            ..*old(state)
        }),
        plan matches Some(p) ==> {
            let t = triggers_of(*cfg, a.avg_sessions, a.active@.len(), signals);
            let count = scale_up_count(*cfg, t, old(state).scale_up_cycles);
            &&& final(state).last_scale_up == old(state).last_scale_up
            &&& final(state).last_drain == old(state).last_drain
            &&& final(state).bw_prev == old(state).bw_prev
            &&& final(state).bw_raw_bps == old(state).bw_raw_bps
            &&& final(state).drain_cycles == drain_count(p.drain, old(state).drain_cycles)
            &&& final(state).drain_candidate == (if p.drain is TooFewActive || p.drain is AtMinimum {
                None
            } else {
                old(state).drain_candidate
            })
            &&& match *group {
                None => {
                    &&& p.scale_up is NoGroup
                    &&& p.drain is NoGroup
                    &&& final(state).scale_up_cycles == old(state).scale_up_cycles
                    &&& final(state).slope_samples == old(state).slope_samples
                },
                Some(g) => {
                    &&& final(state).scale_up_cycles == count
                    &&& final(state).slope_samples@ == window_push(
                        old(state).slope_samples@,
                        (now, a.avg_sessions),
                    )
                    &&& p.scale_up == scale_up_decision(
                        *cfg,
                        t,
                        count,
                        g.desired_capacity,
                        g.max_size,
                        old(state).last_scale_up,
                        now,
                    )
                    &&& p.drain == drain_decision(
                        *cfg,
                        a.active@,
                        a.draining as int,
                        g.desired_capacity,
                        g.min_size,
                        old(state).drain_cycles,
                        old(state).last_drain,
                        now,
                    )
                },
            }
        },
{
    if a.active.len() == 0 {
        state.scale_up_cycles = 0;
        state.drain_cycles = 0;
        state.drain_candidate = None;
        return None;
    }
    let scale_up = evaluate_scale_up(
        state,
        cfg,
        group,
        a.avg_sessions,
        a.active.len(),
        signals,
        now,
    );
    let drain = evaluate_drain(state, cfg, group, a, now);
    Some(CyclePlan { scale_up, drain })
}

// ── Laws ──────────────────────────────────────────────────────────────────

/// The hard ceiling acts at once: whatever the counter was, a backend is added
/// unless the group is at its maximum or the last addition is too recent.
pub proof fn law_hard_ceiling_bypasses_hysteresis(
    cfg: ScaleConfig,
    avg: u32,
    active: nat,
    sig: LoadSignals,
    cycles: u32,
    desired: i64,
    max: i64,
    last: Option<u64>,
    now: u64,
)
    requires
        avg >= cfg.hard_conn_threshold,
        desired < max,
        last is None || elapsed_secs(last->0, now) >= cfg.scale_up_cooldown_secs,
    ensures
        ({
            let t = triggers_of(cfg, avg, active, sig);
            scale_up_decision(cfg, t, scale_up_count(cfg, t, cycles), desired, max, last, now)
        }) == (ScaleUpDecision::Act {
            new_desired: (desired + 1) as u32,
            reason: TriggerReason::HardCeiling,
        }),
{
}

/// No backend is added during the cooldown after an addition.
pub proof fn law_scale_up_cooldown(
    cfg: ScaleConfig,
    t: Triggers,
    count: int,
    desired: i64,
    max: i64,
    added_at: u64,
    now: u64,
)
    requires
        added_at <= now,
        now - added_at < cfg.scale_up_cooldown_secs * NANOS,
    ensures
        !(scale_up_decision(cfg, t, count, desired, max, Some(added_at), now) is Act),
{
    assert((now - added_at) / NANOS as int <= cfg.scale_up_cooldown_secs - 1 || (now - added_at)
        / NANOS as int >= cfg.scale_up_cooldown_secs);
}

/// No drain is started during the cooldown after a drain.
pub proof fn law_drain_cooldown(
    cfg: ScaleConfig,
    active: Seq<ActiveBackend>,
    draining: int,
    desired: i64,
    min: i64,
    cycles: u32,
    started_at: u64,
    now: u64,
)
    requires
        started_at <= now,
        now - started_at < cfg.drain_cooldown_secs * NANOS,
    ensures
        !(drain_decision(cfg, active, draining, desired, min, cycles, Some(started_at), now)
            is Drain),
{
}

/// The capacity bounds hold: no addition at the maximum size, no drain at the
/// minimum size, none of the last active backend, and none beyond the number
/// that may drain together.
pub proof fn law_capacity_bounds(
    cfg: ScaleConfig,
    t: Triggers,
    count: int,
    active: Seq<ActiveBackend>,
    draining: int,
    desired: i64,
    min: i64,
    max: i64,
    cycles: u32,
    last: Option<u64>,
    now: u64,
)
    ensures
        scale_up_decision(cfg, t, count, desired, max, last, now) is Act ==> desired < max,
        drain_decision(cfg, active, draining, desired, min, cycles, last, now) is Drain ==> {
            &&& desired > min
            &&& active.len() >= 2
            &&& draining < cfg.max_concurrent_draining
        },
{
}

/// Without the ceiling, an addition needs as many consecutive cycles with a
/// trigger as the hysteresis asks for: the counter grows by one in each of
/// them and a cycle without a trigger sets it back to zero.
pub proof fn law_scale_up_hysteresis(
    cfg: ScaleConfig,
    t: Triggers,
    cycles: u32,
    desired: i64,
    max: i64,
    last: Option<u64>,
    now: u64,
)
    requires
        !t.hard,
    ensures
        scale_up_decision(cfg, t, scale_up_count(cfg, t, cycles), desired, max, last, now) is Act
            ==> cycles + 1 >= cfg.scale_up_hysteresis_cycles && (t.slope || t.bandwidth),
        t.slope || t.bandwidth ==> scale_up_count(cfg, t, cycles) == cycles + 1,
        !t.slope && !t.bandwidth ==> scale_up_count(cfg, t, cycles) == 0,
{
}

/// A backend is only drained while the average is below the threshold, and a
/// loaded one only where no backend is idle and none is draining.
pub proof fn law_drain_choice(
    cfg: ScaleConfig,
    active: Seq<ActiveBackend>,
    draining: int,
    desired: i64,
    min: i64,
    cycles: u32,
    last: Option<u64>,
    now: u64,
)
    ensures
        drain_decision(cfg, active, draining, desired, min, cycles, last, now)
            matches DrainDecision::Drain { backend, reason } ==> {
            &&& average_down(active) < cfg.drain_threshold
            &&& active.contains(backend)
            &&& reason is Idle ==> backend.sessions == 0
            &&& reason is MostLoaded ==> {
                &&& draining == 0
                &&& forall|k: int| 0 <= k < active.len() ==> 0 < (#[trigger] active[k]).sessions
                    <= backend.sessions
            }
        },
{
    if active.len() > 1 {
        lemma_first_least(active);
        lemma_last_most(active);
    }
}

/// The ceiling holds where the average has reached it. Slope and bandwidth hold
/// only where the average has reached the floor: the slope where it is over its
/// threshold, the bandwidth where every backend takes more than its threshold.
pub proof fn law_when_triggers_hold(cfg: ScaleConfig, avg: u32, active: nat, sig: LoadSignals)
    ensures
        triggers_of(cfg, avg, active, sig).hard <==> avg >= cfg.hard_conn_threshold,
        triggers_of(cfg, avg, active, sig).slope <==> sig.slope_over && avg >= cfg.slope_low_floor,
        triggers_of(cfg, avg, active, sig).bandwidth <==> {
            &&& sig.bandwidth is Some
            &&& active > 0
            &&& avg >= cfg.slope_low_floor
            &&& sig.bandwidth->0 >= (cfg.bw_threshold_bps_per_backend + 1) * active
        },
{
    if sig.bandwidth is Some && active > 0 {
        let b = sig.bandwidth->0 as int;
        let n = active as int;
        let limit = cfg.bw_threshold_bps_per_backend as int;
        assert(b / n > limit <==> b >= (limit + 1) * n) by (nonlinear_arith)
            requires
                n > 0,
                b >= 0,
                limit >= 0,
        ;
    }
}

/// Whole seconds: the time between two moments lies between that many seconds
/// and one more.
pub proof fn law_elapsed_seconds(since: u64, now: u64)
    ensures
        since <= now ==> elapsed_secs(since, now) * NANOS <= now - since < (elapsed_secs(since, now)
            + 1) * NANOS,
        since > now ==> elapsed_secs(since, now) == 0,
{
}

/// Whether a slope or bandwidth trigger has lasted long enough leads to an
/// addition: where the floor is reached, the slope is over its threshold or every
/// backend takes more than its threshold, the counter reaches the hysteresis in
/// this cycle, the group can grow, and no addition lies within the cooldown, the
/// desired capacity grows by one.
pub proof fn law_confirmed_trigger_adds_a_backend(
    cfg: ScaleConfig,
    avg: u32,
    active: nat,
    sig: LoadSignals,
    cycles: u32,
    desired: i64,
    max: i64,
    last: Option<u64>,
    now: u64,
)
    requires
        avg >= cfg.slope_low_floor,
        sig.slope_over || (active > 0 && sig.bandwidth is Some && sig.bandwidth->0 >= (
        cfg.bw_threshold_bps_per_backend + 1) * active),
        cycles + 1 >= cfg.scale_up_hysteresis_cycles,
        0 <= desired < max,
        desired < u32::MAX,
        last matches Some(at) ==> (at <= now && now - at >= cfg.scale_up_cooldown_secs * NANOS)
            || cfg.scale_up_cooldown_secs == 0,
    ensures
        ({
            let t = triggers_of(cfg, avg, active, sig);
            let d = scale_up_decision(
                cfg,
                t,
                scale_up_count(cfg, t, cycles),
                desired,
                max,
                last,
                now,
            );
            let wide = active > 0 && sig.bandwidth is Some && sig.bandwidth->0 >= (
            cfg.bw_threshold_bps_per_backend + 1) * active;
            d matches ScaleUpDecision::Act { new_desired, reason } && {
                &&& new_desired == desired + 1
                &&& reason is HardCeiling <==> avg >= cfg.hard_conn_threshold
                &&& avg < cfg.hard_conn_threshold ==> {
                    &&& reason is SlopeAndBandwidth <==> sig.slope_over && wide
                    &&& reason is Slope <==> sig.slope_over && !wide
                    &&& reason is Bandwidth <==> !sig.slope_over && wide
                }
            }
        }),
{
    law_when_triggers_hold(cfg, avg, active, sig);
    match last {
        Some(at) => {
            law_elapsed_seconds(at, now);
        },
        None => {},
    }
}

/// Why no backend is added, each reason exactly where it applies: no trigger
/// holds; a trigger other than the ceiling has not lasted long enough; the group
/// cannot grow; the last addition lies within the cooldown.
pub proof fn law_why_no_backend_is_added(
    cfg: ScaleConfig,
    t: Triggers,
    cycles: u32,
    desired: i64,
    max: i64,
    last: Option<u64>,
    now: u64,
)
    ensures
        ({
            let d = scale_up_decision(
                cfg,
                t,
                scale_up_count(cfg, t, cycles),
                desired,
                max,
                last,
                now,
            );
            let wanted = t.hard || t.slope || t.bandwidth;
            let lasting = t.hard || cycles + 1 >= cfg.scale_up_hysteresis_cycles;
            let cooling = last matches Some(at) && cfg.scale_up_cooldown_secs > 0 && (now < at || now
                - at < cfg.scale_up_cooldown_secs * NANOS);
            &&& d is Quiet <==> !wanted
            &&& d is Confirming <==> wanted && !lasting
            &&& d is AtMaximum <==> wanted && lasting && desired >= max
            &&& d is CoolingDown <==> wanted && lasting && desired < max && cooling
            &&& d is Act <==> wanted && lasting && desired < max && !cooling
            &&& d matches ScaleUpDecision::CoolingDown { elapsed_secs: s } ==> {
                &&& last->0 <= now ==> s * NANOS <= now - last->0 < (s + 1) * NANOS
                &&& last->0 > now ==> s == 0
            }
        }),
{
    match last {
        Some(at) => {
            law_elapsed_seconds(at, now);
        },
        None => {},
    }
}

/// The ceiling fills the counter up; slope and bandwidth let it grow by one; a
/// cycle without a trigger sets it back.
pub proof fn law_scale_up_counter(cfg: ScaleConfig, t: Triggers, cycles: u32)
    ensures
        t.hard ==> scale_up_count(cfg, t, cycles) == cfg.scale_up_hysteresis_cycles,
        !t.hard && (t.slope || t.bandwidth) ==> scale_up_count(cfg, t, cycles) == cycles + 1,
        !t.hard && !t.slope && !t.bandwidth ==> scale_up_count(cfg, t, cycles) == 0,
{
}

/// Where nothing stands in the way a backend is drained: with more than one
/// active backend, capacity above the minimum, room for another drain, an average
/// below the threshold for long enough and no drain within the cooldown. That is
/// the first backend without sessions where there is one. Otherwise it is the last
/// of the most loaded ones, unless a drain is in progress, which is then waited
/// for.
pub proof fn law_unhindered_drain(
    cfg: ScaleConfig,
    active: Seq<ActiveBackend>,
    draining: int,
    desired: i64,
    min: i64,
    cycles: u32,
    last: Option<u64>,
    now: u64,
)
    requires
        active.len() >= 2,
        desired > min,
        0 <= draining < cfg.max_concurrent_draining,
        total_sessions(active) < cfg.drain_threshold * active.len(),
        cycles + 1 >= cfg.drain_hysteresis_cycles,
        last matches Some(at) ==> (at <= now && now - at >= cfg.drain_cooldown_secs * NANOS)
            || cfg.drain_cooldown_secs == 0,
    ensures
        ({
            let d = drain_decision(cfg, active, draining, desired, min, cycles, last, now);
            let idle = exists|k: int| 0 <= k < active.len() && (#[trigger] active[k]).sessions == 0;
            &&& idle ==> (d matches DrainDecision::Drain { backend, reason } && reason is Idle
                && is_first_idle(active, backend))
            &&& !idle && draining == 0 ==> (d matches DrainDecision::Drain { backend, reason }
                && reason is MostLoaded && is_last_most_loaded(active, backend))
            &&& d is Waiting <==> !idle && draining > 0
        }),
{
    law_averages(active);
    lemma_first_least(active);
    lemma_last_most(active);
    match last {
        Some(at) => {
            law_elapsed_seconds(at, now);
        },
        None => {},
    }
    let least = first_least(active);
    let most = last_most(active);
    let n = active.len() as int;
    let total = total_sessions(active) as int;
    let limit = cfg.drain_threshold as int;
    let avg = average_down(active);
    assert(avg < limit) by (nonlinear_arith)
        requires
            avg * n <= total,
            total < limit * n,
            n > 0,
    ;
    if active[least].sessions == 0 {
        assert(is_first_idle(active, active[least]));
    }
    assert(is_last_most_loaded(active, active[most]));
}

/// Whether this is the first backend without sessions.
pub open spec fn is_first_idle(active: Seq<ActiveBackend>, b: ActiveBackend) -> bool {
    exists|i: int|
        0 <= i < active.len() && #[trigger] active[i] == b && b.sessions == 0 && forall|k: int|
            0 <= k < i ==> (#[trigger] active[k]).sessions > 0
}

/// Whether this is the last of the backends with the most sessions.
pub open spec fn is_last_most_loaded(active: Seq<ActiveBackend>, b: ActiveBackend) -> bool {
    exists|i: int|
        0 <= i < active.len() && #[trigger] active[i] == b && forall|k: int|
            0 <= k < active.len() ==> (#[trigger] active[k]).sessions <= b.sessions && (k > i
                ==> active[k].sessions < b.sessions)
}

/// Why no drain is started, each reason exactly where it applies, and what becomes
/// of the counter: it grows while the average is below the threshold and starts
/// over where a drain is out of the question. While as many backends are draining
/// as may, it stands still.
pub proof fn law_why_no_drain_starts(
    cfg: ScaleConfig,
    active: Seq<ActiveBackend>,
    draining: int,
    desired: i64,
    min: i64,
    cycles: u32,
    last: Option<u64>,
    now: u64,
)
    ensures
        ({
            let d = drain_decision(cfg, active, draining, desired, min, cycles, last, now);
            let possible = active.len() >= 2 && desired > min;
            let room = draining < cfg.max_concurrent_draining;
            let low = total_sessions(active) < cfg.drain_threshold * active.len();
            let lasting = cycles + 1 >= cfg.drain_hysteresis_cycles;
            let cooling = last matches Some(at) && cfg.drain_cooldown_secs > 0 && (now < at || now
                - at < cfg.drain_cooldown_secs * NANOS);
            &&& d is TooFewActive <==> active.len() <= 1
            &&& d is AtMinimum <==> active.len() >= 2 && desired <= min
            &&& d is TooManyDraining <==> possible && !room
            &&& d is LoadTooHigh <==> possible && room && !low
            &&& d is Confirming <==> possible && room && low && !lasting
            &&& d is CoolingDown <==> possible && room && low && lasting && cooling
            &&& d is Drain || d is Waiting <==> possible && room && low && lasting && !cooling
            &&& !(d is NoGroup)
            &&& d matches DrainDecision::CoolingDown { elapsed_secs: s } ==> {
                &&& last->0 <= now ==> s * NANOS <= now - last->0 < (s + 1) * NANOS
                &&& last->0 > now ==> s == 0
            }
            &&& !possible ==> drain_count(d, cycles) == 0
            &&& possible && !room ==> drain_count(d, cycles) == cycles
            &&& possible && room && !low ==> drain_count(d, cycles) == 0
            &&& possible && room && low ==> drain_count(d, cycles) == cycles + 1
        }),
{
    match last {
        Some(at) => {
            law_elapsed_seconds(at, now);
        },
        None => {},
    }
    if active.len() > 0 {
        law_averages(active);
        let n = active.len() as int;
        let total = total_sessions(active) as int;
        let limit = cfg.drain_threshold as int;
        let avg = average_down(active);
        assert(avg < limit <==> total < limit * n) by (nonlinear_arith)
            requires
                avg * n <= total < (avg + 1) * n,
                n > 0,
        ;
    }
}

/// Where the scaling group is not known the drain counter stands still.
pub proof fn law_no_group_keeps_drain_counter(cycles: u32)
    ensures
        drain_count(DrainDecision::NoGroup, cycles) == cycles,
{
}

/// The averages: rounded up no less, and rounded down no more, than the sessions
/// divided among the backends, each by less than one session per backend.
pub proof fn law_averages(list: Seq<ActiveBackend>)
    requires
        list.len() > 0,
    ensures
        (average_up(list) - 1) * list.len() < total_sessions(list) <= average_up(list) * list.len(),
        average_down(list) * list.len() <= total_sessions(list) < (average_down(list) + 1)
            * list.len(),
{
    let n = list.len() as int;
    let total = total_sessions(list) as int;
    let up = average_up(list);
    let down = average_down(list);
    assert((up - 1) * n < total <= up * n) by (nonlinear_arith)
        requires
            n > 0,
            up == (total + n - 1) / n,
    ;
    assert(down * n <= total < (down + 1) * n) by (nonlinear_arith)
        requires
            n > 0,
            down == total / n,
    ;
}

/// The sessions of two groups of backends add up, and one backend counts with its
/// own.
pub proof fn law_sessions_add_up(a: Seq<ActiveBackend>, b: Seq<ActiveBackend>, x: ActiveBackend)
    ensures
        total_sessions(a + b) == total_sessions(a) + total_sessions(b),
        total_sessions(seq![x]) == x.sessions,
    decreases b.len(),
{
    reveal_with_fuel(total_sessions, 2);
    if b.len() == 0 {
        assert(a + b =~= a);
    } else {
        law_sessions_add_up(a, b.drop_last(), x);
        assert((a + b).drop_last() =~= a + b.drop_last());
    }
}

/// The participants of two lists are those of the first and then those of the
/// second, and likewise the numbers of draining backends add up. A single backend
/// takes part exactly where it is active, IPVS knows it and its lease has not run
/// out; it then counts half its active connections as sessions.
pub proof fn law_assessment_by_backend(
    a: Seq<BackendView>,
    b: Seq<BackendView>,
    x: BackendView,
    now: u64,
)
    ensures
        participants(a + b, now) == participants(a, now) + participants(b, now),
        draining(a + b) == draining(a) + draining(b),
        draining(seq![x]) == (if x.state is Draining {
            1nat
        } else {
            0nat
        }),
        ({
            let one = participants(seq![x], now);
            let takes_part = x.state is Active && x.ipvs is Some && x.lease is Some
                && x.lease->0.expires_ms > now;
            &&& !takes_part ==> one.len() == 0
            &&& takes_part ==> one.len() == 1 && one[0].ip == x.ip && one[0].slot == x.slot
                && 2 * one[0].sessions <= x.ipvs->0.active_connections <= 2 * one[0].sessions + 1
        }),
    decreases b.len(),
{
    reveal_with_fuel(participants, 2);
    reveal_with_fuel(draining, 2);
    if b.len() == 0 {
        assert(a + b =~= a);
        assert(participants(a, now) + participants(b, now) =~= participants(a, now));
    } else {
        law_assessment_by_backend(a, b.drop_last(), x, now);
        assert((a + b).drop_last() =~= a + b.drop_last());
        assert(participants(a + b, now) =~= participants(a, now) + participants(b, now));
    }
}

/// A backend that takes part, and only such a one, is among the participants.
pub proof fn law_participants_are_live(list: Seq<BackendView>, now: u64)
    ensures
        forall|i: int|
            0 <= i < participants(list, now).len() ==> exists|k: int|
                0 <= k < list.len() && (#[trigger] list[k]).ip == (#[trigger] participants(
                    list,
                    now,
                )[i]).ip && list[k].state is Active && list[k].lease is Some
                    && list[k].lease->0.expires_ms > now && list[k].ipvs is Some,
        participants(list, now).len() <= list.len(),
    decreases list.len(),
{
    if list.len() > 0 {
        let front = list.drop_last();
        law_participants_are_live(front, now);
        let out = participants(list, now);
        assert forall|i: int| 0 <= i < out.len() implies exists|k: int|
            0 <= k < list.len() && (#[trigger] list[k]).ip == (#[trigger] out[i]).ip
                && list[k].state is Active && list[k].lease is Some && list[k].lease->0.expires_ms
                > now && list[k].ipvs is Some by {
            if i < participants(front, now).len() {
                assert(out[i] == participants(front, now)[i]);
                let k = choose|k: int|
                    0 <= k < front.len() && (#[trigger] front[k]).ip == participants(
                        front,
                        now,
                    )[i].ip && front[k].state is Active && front[k].lease is Some
                        && front[k].lease->0.expires_ms > now && front[k].ipvs is Some;
                assert(list[k] == front[k]);
            } else {
                assert(list[list.len() - 1] == list.last());
            }
        }
    }
}

/// What two readings of a counter tell. A rate is the exact difference of both,
/// over more than the least spacing, of a counter that did not go back.
pub proof fn law_counter_readings(prev: IfaceSnapshot, cur: IfaceSnapshot)
    ensures
        bandwidth_step(None, cur) is First,
        ({
            let step = bandwidth_step(Some(prev), cur);
            let apart = cur.at > prev.at + MIN_SPACING;
            &&& step is TooClose <==> !apart
            &&& step is CounterReset <==> apart && cur.rx_bytes < prev.rx_bytes
            &&& step is Rate <==> apart && cur.rx_bytes >= prev.rx_bytes
            &&& step matches BandwidthStep::Rate { bytes, elapsed } ==> prev.rx_bytes + bytes
                == cur.rx_bytes && prev.at + elapsed == cur.at
        }),
{
}

/// The last rate is 0 after a counter reset and stays as it is otherwise.
pub proof fn law_counter_reset_clears_rate(step: BandwidthStep, rate: u64)
    ensures
        step is CounterReset ==> raw_rate_after(step, rate) == 0,
        !(step is CounterReset) ==> raw_rate_after(step, rate) == rate,
{
}

/// The newest sample stands last in the window, and before it the samples that
/// stood last, in their order; only the oldest one is pushed out, and only where
/// the window is full.
pub proof fn law_window_keeps_the_newest(samples: Seq<(u64, u32)>, s: (u64, u32))
    requires
        samples.len() <= SLOPE_WINDOW,
    ensures
        ({
            let w = window_push(samples, s);
            &&& w.len() == (if samples.len() == SLOPE_WINDOW {
                samples.len()
            } else {
                samples.len() + 1
            })
            &&& w[w.len() - 1] == s
            &&& forall|k: int|
                1 <= k < w.len() ==> #[trigger] w[w.len() - 1 - k] == samples[samples.len() - k]
        }),
{
}

/// Every one of the newest samples that lies far enough back is used, and no
/// other; each with its age and its sessions.
pub proof fn law_lags_come_from_samples(samples: Seq<(u64, u32)>, now: u64, k: nat)
    requires
        k <= samples.len(),
    ensures
        forall|i: int|
            samples.len() - k <= i < samples.len() && (#[trigger] samples[i]).0 + MIN_SPACING <= now
                ==> usable_lags(samples, now, k).contains(
                SlopeLag { sessions: samples[i].1, elapsed: (now - samples[i].0) as u64 },
            ),
        forall|j: int|
            0 <= j < usable_lags(samples, now, k).len() ==> is_lag_of(
                samples,
                now,
                k,
                #[trigger] usable_lags(samples, now, k)[j],
            ),
        usable_lags(samples, now, k).len() <= k,
    decreases k,
{
    if k > 0 {
        let less = (k - 1) as nat;
        let rest = usable_lags(samples, now, less);
        let out = usable_lags(samples, now, k);
        law_lags_come_from_samples(samples, now, less);
        let at = samples.len() - k;
        let s = samples[at];
        assert forall|i: int|
            samples.len() - k <= i < samples.len() && (#[trigger] samples[i]).0 + MIN_SPACING
                <= now implies out.contains(
            SlopeLag { sessions: samples[i].1, elapsed: (now - samples[i].0) as u64 },
        ) by {
            let lag = SlopeLag { sessions: samples[i].1, elapsed: (now - samples[i].0) as u64 };
            if i == at {
                assert(out[out.len() - 1] == lag);
            } else {
                assert(rest.contains(lag));
                let j = choose|j: int| 0 <= j < rest.len() && rest[j] == lag;
                assert(out[j] == lag);
            }
        }
        assert forall|j: int| 0 <= j < out.len() implies is_lag_of(
            samples,
            now,
            k,
            #[trigger] out[j],
        ) by {
            if j < rest.len() {
                assert(out[j] == rest[j]);
                assert(is_lag_of(samples, now, less, rest[j]));
                let i = choose|i: int|
                    samples.len() - less <= i < samples.len() && (#[trigger] samples[i]).1
                        == rest[j].sessions && samples[i].0 + rest[j].elapsed == now;
                assert(samples[i].1 == out[j].sessions);
            } else {
                assert(samples[at].1 == out[j].sessions);
            }
        }
    }
}

/// Whether a lag is one of the newest `k` samples, with its age.
pub open spec fn is_lag_of(samples: Seq<(u64, u32)>, now: u64, k: nat, lag: SlopeLag) -> bool {
    lag.elapsed >= MIN_SPACING && exists|i: int|
        samples.len() - k <= i < samples.len() && (#[trigger] samples[i]).1 == lag.sessions
            && samples[i].0 + lag.elapsed == now
}

/// The slope looks back over at most six samples, and over all where there are
/// fewer.
pub proof fn law_lag_count(samples: Seq<(u64, u32)>)
    ensures
        lag_count(samples) <= 6,
        lag_count(samples) <= samples.len(),
        lag_count(samples) == 6 || lag_count(samples) == samples.len(),
{
}

/// The counter of an interface comes from its first line, and from no other.
pub proof fn law_first_line_of_interface(lines: Seq<Seq<char>>, iface: Seq<char>, i: int)
    requires
        0 <= i < lines.len(),
        forall|k: int| 0 <= k < i ==> iface_rest(#[trigger] lines[k], iface) is None,
        iface_rest(lines[i], iface) is Some,
    ensures
        ({
            let columns = text::words(iface_rest(lines[i], iface)->0);
            &&& columns.len() == 0 ==> iface_rx(lines, iface) is None
            &&& columns.len() > 0 ==> iface_rx(lines, iface) == text::parse_max(
                columns[0],
                u64::MAX as nat,
            )
        }),
    decreases i,
{
    if i > 0 {
        let rest = lines.skip(1);
        assert(iface_rest(lines[0], iface) is None);
        assert forall|k: int| 0 <= k < i - 1 implies iface_rest(#[trigger] rest[k], iface)
            is None by {
            assert(rest[k] == lines[k + 1]);
        }
        law_first_line_of_interface(rest, iface, i - 1);
    }
}

/// Without a line of the interface there is no counter.
pub proof fn law_no_line_of_interface(lines: Seq<Seq<char>>, iface: Seq<char>)
    requires
        forall|k: int| 0 <= k < lines.len() ==> iface_rest(#[trigger] lines[k], iface) is None,
    ensures
        iface_rx(lines, iface) is None,
    decreases lines.len(),
{
    if lines.len() > 0 {
        let rest = lines.skip(1);
        assert forall|k: int| 0 <= k < rest.len() implies iface_rest(#[trigger] rest[k], iface)
            is None by {
            assert(rest[k] == lines[k + 1]);
        }
        law_no_line_of_interface(rest, iface);
    }
}

/// The line of an interface begins with its name and a colon behind white space, and
/// no other line is its line.
pub proof fn law_line_of_interface(spaces: Seq<char>, iface: Seq<char>, rest: Seq<char>, line: Seq<char>)
    requires
        forall|i: int| 0 <= i < spaces.len() ==> text::is_space(#[trigger] spaces[i]),
        iface.len() > 0,
        !text::is_space(iface[0]),
    ensures
        iface_rest(spaces + iface + ":"@ + rest, iface) == Some(rest),
        iface_rest(line, iface) matches Some(r) ==> text::trim_start(line) == iface + (":"@ + r),
{
    let s = spaces + iface + ":"@ + rest;
    let t = iface + (":"@ + rest);
    text::law_trim_start_takes_white_space(spaces, t);
    assert(s =~= spaces + t);
    text::law_stripping_undoes_joining(t, iface, ":"@ + rest);
    text::law_stripping_undoes_joining(":"@ + rest, ":"@, rest);
    let u = text::trim_start(line);
    match text::strip_prefix(u, iface) {
        Some(q) => {
            text::law_stripping_undoes_joining(u, iface, q);
            match text::strip_prefix(q, ":"@) {
                Some(r) => {
                    text::law_stripping_undoes_joining(q, ":"@, r);
                },
                None => {},
            }
        },
        None => {},
    }
}

/// Newer samples come before older ones.
pub proof fn law_newer_lags_come_first(samples: Seq<(u64, u32)>, now: u64, j: nat, k: nat)
    requires
        j <= k <= samples.len(),
    ensures
        usable_lags(samples, now, j).len() <= usable_lags(samples, now, k).len(),
        usable_lags(samples, now, k).take(usable_lags(samples, now, j).len() as int)
            == usable_lags(samples, now, j),
    decreases k,
{
    let a = usable_lags(samples, now, j);
    let b = usable_lags(samples, now, k);
    if j < k {
        let c = usable_lags(samples, now, (k - 1) as nat);
        law_newer_lags_come_first(samples, now, j, (k - 1) as nat);
        assert(b.take(a.len() as int) =~= c.take(a.len() as int));
    } else {
        assert(b.take(a.len() as int) =~= a);
    }
}

} // verus!
