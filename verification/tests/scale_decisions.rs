use std::collections::VecDeque;

use aerosuite::infra::ipv4::Ipv4;
use aerosuite::infra::slot_network::SlotNetwork;
use aerosuite::scale::cleanup;
use aerosuite::scale::cleanup::{
    effect_of, handle_lease, lease_actions, release_slot, section_23_backends_without_leases,
    stray_actions, weight_effect, weight_path, Action, CleanupState, Effect, LeaseOutcome,
    LeasePass, PoolCommand,
};
use aerosuite::scale::listener::{handle_message, AsgChangeMsg};
use aerosuite::scale::metrics::{
    cross_check, find_plain, keep_scalars, parse_samples, parse_text, push, push_confirmed,
    result_order, scrape_results, scrape_targets, scrape_url, session_counts, slot_sessions,
    CrossCheck, ParsedSample, ParsedValue, SampleKind, ScrapeTarget, SlotSessions,
};
use aerosuite::scale::scaler;
use aerosuite::scale::scaler::{
    assess, capacity_request, drain_started, evaluate_drain, evaluate_scale_up, observe_bandwidth,
    parse_iface_rx_bytes, record_rate, scale_up_done, slope_lags, ActiveBackend, Assessment,
    BandwidthStep, DrainDecision, DrainReason, IfaceSnapshot, LoadSignals, ScaleConfig,
    ScaleUpDecision, ScalerState, TriggerReason, NANOS,
};
use aerosuite::scale::snapshot::{
    AsgGroupInfo, AsgInstance, BackendState, BackendStatus, IpvsBackend, SlotLease, SystemSnapshot,
};

// ── Interface counter ─────────────────────────────────────────────────────

const PROC_NET_DEV: &str = "\
Inter-|   Receive                                                |  Transmit
 face |bytes    packets errs drop fifo frame compressed multicast|bytes    packets errs drop fifo colls carrier compressed
    lo: 5889822   51972    0    0    0     0          0         0  5889822   51972    0    0    0     0       0          0
  eth0: 490569799018 344109988    0  186    0     0          0         0 3104194205 44613177    0    0    0     0       0          0
  eth1: 2390126013 44064985    0    0    0     0          0         0 495291134072 343572253    0    0    0     0       0          0
  eth2:  129662    4090    0    0    0     0          0         0 4874086362 6131997    0    0    0     0       0          0
vxlan0:    2024      35    0    0    0     0          0         0 4483060340 5993428    0    0    0     0       0          0
";

#[test]
fn parses_eth0_rx_bytes() {
    assert_eq!(parse_iface_rx_bytes(PROC_NET_DEV, "eth0"), Some(490_569_799_018));
}

#[test]
fn parses_eth1_rx_bytes() {
    assert_eq!(parse_iface_rx_bytes(PROC_NET_DEV, "eth1"), Some(2_390_126_013));
}

#[test]
fn parses_lo_rx_bytes() {
    assert_eq!(parse_iface_rx_bytes(PROC_NET_DEV, "lo"), Some(5_889_822));
}

#[test]
fn parses_vxlan0_rx_bytes() {
    assert_eq!(parse_iface_rx_bytes(PROC_NET_DEV, "vxlan0"), Some(2_024));
}

#[test]
fn returns_none_for_missing_iface() {
    assert_eq!(parse_iface_rx_bytes(PROC_NET_DEV, "eth9"), None);
}

#[test]
fn the_first_line_of_an_interface_decides() {
    assert_eq!(parse_iface_rx_bytes("eth0: x\neth0: 5", "eth0"), None);
    assert_eq!(parse_iface_rx_bytes("eth0:\neth0: 5", "eth0"), None);
    assert_eq!(parse_iface_rx_bytes("eth0 : 4\n eth0:5 6", "eth0"), Some(5));
}

// ── Slope ─────────────────────────────────────────────────────────────────

/// The mean slope in connections per minute over the usable lags.
fn slope(samples: &VecDeque<(u64, u32)>, sessions: u32, now: u64) -> Option<f64> {
    let lags = slope_lags(samples, now);
    if lags.is_empty() {
        return None;
    }
    let total: f64 = lags
        .iter()
        .map(|l| {
            let secs = l.elapsed as f64 / NANOS as f64;
            (sessions as f64 - l.sessions as f64) / secs * 60.0
        })
        .sum();
    Some(total / lags.len() as f64)
}

#[test]
fn slope_none_with_empty_buffer() {
    let buf = VecDeque::new();
    assert!(slope(&buf, 500, 100 * NANOS).is_none());
}

#[test]
fn slope_single_sample_positive_ramp() {
    let mut buf = VecDeque::new();
    let t0 = 100 * NANOS;
    buf.push_back((t0 - 3 * NANOS, 400_u32));
    let slope = slope(&buf, 415, t0).unwrap();
    assert!((slope - 300.0).abs() < 5.0, "slope={slope}");
}

#[test]
fn slope_six_lags_averaged() {
    let t0 = 100 * NANOS;
    let mut buf = VecDeque::new();
    for k in (1_u64..=6).rev() {
        let sessions = (600 - k * 10) as u32;
        buf.push_back((t0 - k * 3 * NANOS, sessions));
    }
    let slope = slope(&buf, 600, t0).unwrap();
    assert!((slope - 200.0).abs() < 2.0, "slope={slope}");
}

#[test]
fn slope_flat_load_is_zero() {
    let t0 = 100 * NANOS;
    let mut buf = VecDeque::new();
    for k in 1_u64..=6 {
        buf.push_back((t0 - k * 3 * NANOS, 500_u32));
    }
    let slope = slope(&buf, 500, t0).unwrap();
    assert!(slope.abs() < 0.01, "slope={slope}");
}

#[test]
fn lags_leave_out_what_cannot_be_compared() {
    let now = 10 * NANOS;
    let mut buf = VecDeque::new();
    for t in [1, 2, 3, 4, 5, 6, 7] {
        buf.push_back((t * NANOS, t as u32));
    }
    let got: Vec<u32> = slope_lags(&buf, now).iter().map(|l| l.sessions).collect();
    assert_eq!(got, [7, 6, 5, 4, 3, 2]);
    let mut buf = VecDeque::new();
    buf.push_back((now - NANOS / 10, 1u32));
    buf.push_back((now - NANOS / 10 + 1, 2));
    buf.push_back((now + 1, 3));
    let got: Vec<u32> = slope_lags(&buf, now).iter().map(|l| l.sessions).collect();
    assert_eq!(got, [1]);
}

// ── Backends ──────────────────────────────────────────────────────────────

fn ip(n: u8) -> Ipv4 {
    Ipv4::new(172, 16, 32, 20 + n)
}

fn lease(slot: u32, owner: &str, expires_ms: u64) -> SlotLease {
    SlotLease { slot, owner_instance_id: owner.to_string(), expires_ms }
}

fn backend(n: u8, weight: &str, connections: Option<u32>, l: Option<SlotLease>) -> BackendStatus {
    BackendStatus {
        ip: ip(n),
        slot: Some(n as u32),
        weight_state: BackendState::from_weight_str(weight),
        ipvs: connections.map(|c| IpvsBackend {
            ip: ip(n),
            active_connections: c,
            inactive_connections: 0,
        }),
        lease: l,
    }
}

fn group(desired: i64, min: i64, max: i64) -> Option<AsgGroupInfo> {
    Some(AsgGroupInfo {
        name: "g".to_string(),
        desired_capacity: desired,
        min_size: min,
        max_size: max,
    })
}

fn cfg() -> ScaleConfig {
    ScaleConfig {
        hard_conn_threshold: 1200,
        slope_low_floor: 500,
        bw_threshold_bps_per_backend: 200_000_000,
        drain_threshold: 500,
        scale_up_hysteresis_cycles: 3,
        drain_hysteresis_cycles: 2,
        scale_up_cooldown_secs: 12,
        drain_cooldown_secs: 30,
        max_concurrent_draining: 2,
    }
}

fn quiet() -> LoadSignals {
    LoadSignals { slope_over: false, bandwidth: None }
}

#[test]
fn averages_round_both_ways() {
    let list = vec![
        backend(0, "0", Some(7), Some(lease(0, "a", 10))),
        backend(1, "0", Some(8), Some(lease(1, "b", 10))),
        backend(2, "0", None, Some(lease(2, "c", 10))),
        backend(3, "0", Some(90), Some(lease(3, "d", 5))),
        backend(4, "-1", Some(90), Some(lease(4, "e", 10))),
        backend(5, "0", Some(90), None),
    ];
    let a = assess(&list, 5);
    assert_eq!(
        a.active,
        [
            ActiveBackend { ip: ip(0), slot: Some(0), sessions: 3 },
            ActiveBackend { ip: ip(1), slot: Some(1), sessions: 4 },
        ]
    );
    assert_eq!((a.draining, a.avg_sessions, a.avg_floor), (1, 4, 3));
    let a = assess(&vec![], 5);
    assert_eq!((a.draining, a.avg_sessions, a.avg_floor), (0, 0, 0));
}

// ── Scale-up ──────────────────────────────────────────────────────────────

#[test]
fn counter_readings_are_compared() {
    let mut s = ScalerState::new();
    let at = |rx_bytes: u64, at: u64| Some(IfaceSnapshot { rx_bytes, at });
    assert_eq!(observe_bandwidth(&mut s, false, at(1, 1)), BandwidthStep::Skipped);
    assert!(s.bw_prev.is_none());
    assert_eq!(s.bw_raw_bps, 0);
    assert_eq!(observe_bandwidth(&mut s, true, at(100, NANOS)), BandwidthStep::First);
    assert_eq!(observe_bandwidth(&mut s, true, None), BandwidthStep::Skipped);
    assert_eq!(
        observe_bandwidth(&mut s, true, at(400, 3 * NANOS)),
        BandwidthStep::Rate { bytes: 300, elapsed: 2 * NANOS }
    );
    record_rate(&mut s, 150);
    assert_eq!(s.bw_raw_bps, 150);
    assert_eq!(
        observe_bandwidth(&mut s, true, at(500, 3 * NANOS + NANOS / 10)),
        BandwidthStep::TooClose
    );
    assert_eq!(s.bw_raw_bps, 150);
    assert_eq!(observe_bandwidth(&mut s, true, at(9, 5 * NANOS)), BandwidthStep::CounterReset);
    assert_eq!(s.bw_prev, at(9, 5 * NANOS));
    assert_eq!(s.bw_raw_bps, 0);
}

#[test]
fn slope_and_bandwidth_need_confirmation() {
    let mut s = ScalerState::new();
    let g = group(2, 1, 5);
    let steep = LoadSignals { slope_over: true, bandwidth: None };
    for t in [1, 2] {
        let d = evaluate_scale_up(&mut s, &cfg(), &g, 500, 2, steep, t * NANOS);
        assert_eq!(d, ScaleUpDecision::Confirming);
    }
    let d = evaluate_scale_up(&mut s, &cfg(), &g, 500, 2, steep, 3 * NANOS);
    assert_eq!(d, ScaleUpDecision::Act { new_desired: 3, reason: TriggerReason::Slope });
    let d = evaluate_scale_up(&mut s, &cfg(), &g, 499, 2, steep, 4 * NANOS);
    assert_eq!(d, ScaleUpDecision::Quiet);
    assert_eq!(s.scale_up_cycles, 0);

    let busy = |b: u64| LoadSignals { slope_over: false, bandwidth: Some(b) };
    let d = evaluate_scale_up(&mut s, &cfg(), &g, 500, 2, busy(400_000_001), 5 * NANOS);
    assert_eq!(d, ScaleUpDecision::Quiet);
    let d = evaluate_scale_up(&mut s, &cfg(), &g, 500, 2, busy(400_000_002), 6 * NANOS);
    assert_eq!(d, ScaleUpDecision::Confirming);
    s.scale_up_cycles = 2;
    let both = LoadSignals { slope_over: true, bandwidth: Some(u64::MAX) };
    let d = evaluate_scale_up(&mut s, &cfg(), &g, 500, 2, both, 7 * NANOS);
    assert_eq!(
        d,
        ScaleUpDecision::Act { new_desired: 3, reason: TriggerReason::SlopeAndBandwidth }
    );
    let d = evaluate_scale_up(&mut s, &cfg(), &g, 500, 2, busy(u64::MAX), 8 * NANOS);
    assert_eq!(d, ScaleUpDecision::Act { new_desired: 3, reason: TriggerReason::Bandwidth });
    assert_eq!(TriggerReason::SlopeAndBandwidth.as_str(), "slope+bandwidth");
    assert_eq!(TriggerReason::HardCeiling.as_str(), "hard-ceiling");
    assert_eq!(TriggerReason::Slope.as_str(), "slope");
    assert_eq!(TriggerReason::Bandwidth.as_str(), "bandwidth");
}

#[test]
fn the_ceiling_acts_at_once_but_not_in_the_cooldown() {
    let mut s = ScalerState::new();
    let g = group(2, 1, 3);
    let act = ScaleUpDecision::Act { new_desired: 3, reason: TriggerReason::HardCeiling };
    assert_eq!(evaluate_scale_up(&mut s, &cfg(), &g, 1200, 2, quiet(), NANOS), act);
    scale_up_done(&mut s, NANOS);
    assert_eq!((s.scale_up_cycles, s.last_scale_up), (0, Some(NANOS)));
    assert_eq!(
        evaluate_scale_up(&mut s, &cfg(), &g, 1200, 2, quiet(), 13 * NANOS - 1),
        ScaleUpDecision::CoolingDown { elapsed_secs: 11 }
    );
    assert_eq!(evaluate_scale_up(&mut s, &cfg(), &g, 1200, 2, quiet(), 13 * NANOS), act);
    let full = group(3, 1, 3);
    assert_eq!(
        evaluate_scale_up(&mut s, &cfg(), &full, 1200, 2, quiet(), 99 * NANOS),
        ScaleUpDecision::AtMaximum
    );
    assert_eq!(s.scale_up_cycles, 3);
    assert_eq!(
        evaluate_scale_up(&mut s, &cfg(), &None, 1200, 2, quiet(), 100 * NANOS),
        ScaleUpDecision::NoGroup
    );
    assert_eq!(s.slope_samples.len(), 4);
    for t in 0..10 {
        evaluate_scale_up(&mut s, &cfg(), &full, t, 2, quiet(), (200 + t as u64) * NANOS);
    }
    assert_eq!(s.slope_samples.len(), 7);
    assert_eq!(s.slope_samples[0].1, 3);
}

// ── Drain ─────────────────────────────────────────────────────────────────

fn sessions(list: &[u32], draining: u64) -> Assessment {
    let active: Vec<ActiveBackend> = list
        .iter()
        .enumerate()
        .map(|(i, s)| ActiveBackend { ip: ip(i as u8), slot: Some(i as u32), sessions: *s })
        .collect();
    let n = active.len().max(1) as u32;
    let total: u32 = list.iter().sum();
    Assessment { active, draining, avg_sessions: total.div_ceil(n), avg_floor: total / n }
}

#[test]
fn drains_prefer_idle_backends() {
    let g = group(4, 1, 9);
    let drain = |list: &[u32], draining: u64| {
        let mut s = ScalerState::new();
        s.drain_cycles = 1;
        evaluate_drain(&mut s, &cfg(), &g, &sessions(list, draining), 100 * NANOS)
    };
    let at = |i: usize, list: &[u32], reason: DrainReason| DrainDecision::Drain {
        backend: sessions(list, 0).active[i],
        reason,
    };
    assert_eq!(drain(&[5, 0, 0], 1), at(1, &[5, 0, 0], DrainReason::Idle));
    assert_eq!(drain(&[5, 9, 9], 0), at(2, &[5, 9, 9], DrainReason::MostLoaded));
    assert_eq!(drain(&[5, 9, 9], 1), DrainDecision::Waiting);
    assert_eq!(drain(&[5, 9, 9], 2), DrainDecision::TooManyDraining);
    assert_eq!(drain(&[5], 0), DrainDecision::TooFewActive);
    assert_eq!(drain(&[500, 501], 0), DrainDecision::LoadTooHigh);
    assert_eq!(drain(&[500, 499], 0), at(0, &[500, 499], DrainReason::MostLoaded));
}

#[test]
fn drains_need_confirmation_and_rest() {
    let g = group(4, 1, 9);
    let a = sessions(&[1, 2], 0);
    let mut s = ScalerState::new();
    s.drain_candidate = Some(ip(0));
    assert_eq!(evaluate_drain(&mut s, &cfg(), &g, &a, NANOS), DrainDecision::Confirming);
    assert!(matches!(
        evaluate_drain(&mut s, &cfg(), &g, &a, NANOS),
        DrainDecision::Drain { reason: DrainReason::MostLoaded, .. }
    ));
    drain_started(&mut s, NANOS);
    assert_eq!((s.drain_cycles, s.drain_candidate, s.last_drain), (0, None, Some(NANOS)));
    evaluate_drain(&mut s, &cfg(), &g, &a, 2 * NANOS);
    assert_eq!(
        evaluate_drain(&mut s, &cfg(), &g, &a, 30 * NANOS),
        DrainDecision::CoolingDown { elapsed_secs: 29 }
    );
    assert!(matches!(
        evaluate_drain(&mut s, &cfg(), &g, &a, 31 * NANOS),
        DrainDecision::Drain { .. }
    ));
    s.drain_candidate = Some(ip(0));
    let small = group(1, 1, 9);
    assert_eq!(evaluate_drain(&mut s, &cfg(), &small, &a, 99 * NANOS), DrainDecision::AtMinimum);
    assert_eq!((s.drain_cycles, s.drain_candidate), (0, None));
    assert_eq!(evaluate_drain(&mut s, &cfg(), &None, &a, 99 * NANOS), DrainDecision::NoGroup);
}

#[test]
fn a_cycle_without_backends_starts_over() {
    let mut s = ScalerState::new();
    s.scale_up_cycles = 2;
    s.drain_cycles = 2;
    s.drain_candidate = Some(ip(0));
    let none = sessions(&[], 0);
    assert!(scaler::run(&mut s, &cfg(), &group(2, 1, 5), &none, quiet(), NANOS).is_none());
    assert_eq!((s.scale_up_cycles, s.drain_cycles, s.drain_candidate), (0, 0, None));
    let plan =
        scaler::run(&mut s, &cfg(), &group(2, 1, 5), &sessions(&[0, 4], 0), quiet(), NANOS).unwrap();
    assert_eq!(plan.scale_up, ScaleUpDecision::Quiet);
    assert_eq!(plan.drain, DrainDecision::Confirming);
    assert_eq!(s.slope_samples.back(), Some(&(NANOS, 2)));
}

// ── Cleanup ───────────────────────────────────────────────────────────────

fn instance(id: &str, state: &str) -> AsgInstance {
    AsgInstance {
        instance_id: id.to_string(),
        lifecycle_state: state.to_string(),
        health_status: "Healthy".to_string(),
    }
}

fn outcome(b: BackendStatus, l: &SlotLease, desired: i64) -> LeaseOutcome {
    let asg = vec![instance("i-gone", "Terminating"), instance("i-a", "InService")];
    handle_lease(l, &asg, &vec![b], &group(desired, 2, 9), 1000)
}

#[test]
fn leases_and_their_backends() {
    let live = lease(0, "i-a", 2000);
    let with = |w: &str, c: Option<u32>| backend(0, w, c, Some(lease(0, "i-a", 2000)));
    assert_eq!(outcome(with("0", None), &live, 3), LeaseOutcome::Healthy);
    assert_eq!(
        outcome(with("-1", Some(2)), &live, 3),
        LeaseOutcome::StillDraining { ip: ip(0), active_connections: 2 }
    );
    assert_eq!(outcome(with("-1", Some(0)), &live, 3), LeaseOutcome::Drained { ip: ip(0) });
    assert_eq!(outcome(with("-1", None), &live, 2), LeaseOutcome::MinSizeReached { ip: ip(0) });
    let off = "-2147483648";
    assert_eq!(outcome(with(off, None), &live, 3), LeaseOutcome::Reenabled { ip: ip(0) });
    let stale = lease(0, "i-a", 1000);
    assert_eq!(outcome(with(off, None), &stale, 3), LeaseOutcome::StaleLease { ip: ip(0) });
    assert_eq!(outcome(with("7", None), &live, 3), LeaseOutcome::UnknownWeight { ip: ip(0) });
    assert_eq!(
        outcome(with("0", None), &lease(5, "i-a", 2000), 3),
        LeaseOutcome::NotResolved
    );
    for owner in ["(missing)", "(unknown)"] {
        let l = lease(0, owner, 2000);
        assert_eq!(outcome(with("0", None), &l, 3), LeaseOutcome::OwnerUnconfirmed);
        assert!(lease_actions(&l, LeaseOutcome::OwnerUnconfirmed, true).is_empty());
    }
    assert_eq!(
        outcome(with("0", None), &lease(0, "i-gone", 2000), 3),
        LeaseOutcome::OwnerGone { backend: Some(ip(0)) }
    );
    assert_eq!(
        outcome(with("0", None), &lease(5, "i-x", 2000), 3),
        LeaseOutcome::OwnerGone { backend: None }
    );
}

#[test]
fn actions_for_leases() {
    let l = lease(4, "i-a", 2000);
    let a = lease_actions(&l, LeaseOutcome::Drained { ip: ip(4) }, true);
    assert_eq!(a.len(), 2);
    assert!(matches!(a[0], Action::Disable { ip: x } if x == ip(4)));
    assert!(matches!(&a[1], Action::Terminate { instance_id, decrement: true } if instance_id == "i-a"));
    let a = lease_actions(&l, LeaseOutcome::OwnerGone { backend: Some(ip(4)) }, true);
    assert!(matches!(a[0], Action::ReleaseSlot { slot: 4 }));
    assert!(matches!(a[1], Action::Disable { ip: x } if x == ip(4)));
    assert_eq!(lease_actions(&l, LeaseOutcome::OwnerGone { backend: None }, true).len(), 1);
    let a = lease_actions(&l, LeaseOutcome::Reenabled { ip: ip(4) }, true);
    assert!(matches!(a[0], Action::Enable { ip: x } if x == ip(4)));
    assert!(lease_actions(&l, LeaseOutcome::Healthy, true).is_empty());
}

fn snap(leases: Vec<SlotLease>, asg: Vec<AsgInstance>, g: Option<AsgGroupInfo>) -> SystemSnapshot {
    SystemSnapshot {
        backends: vec![
            backend(0, "0", None, None),
            backend(1, "-1", None, None),
            backend(2, "-2147483648", None, None),
            backend(3, "9", None, None),
            backend(4, "0", None, Some(lease(4, "i-a", 2000))),
        ],
        leases,
        asg,
        asg_group: g,
        ipvs: vec![],
        taken_at_utc: "now".to_string(),
    }
}

#[test]
fn orphans_get_their_grace_period() {
    let mut st = CleanupState::new();
    let asg = || vec![instance("i-a", "InService"), instance("i-b", "InService")];
    let leases = || vec![lease(4, "i-a", 2000)];
    let s = snap(leases(), asg(), group(3, 1, 9));
    let p = cleanup::run(&s, &mut st, true, 1000, NANOS, 60).unwrap();
    assert!(p.terminate.is_empty());
    assert_eq!(st.orphan_first_seen.len(), 1);
    assert_eq!(p.disable, [ip(0), ip(1)]);
    assert!(matches!(p.leases, LeasePass::Outcomes(v) if v == [LeaseOutcome::Healthy]));

    let p = cleanup::run(&s, &mut st, true, 1000, 61 * NANOS - 1, 60).unwrap();
    assert!(p.terminate.is_empty());
    assert!(cleanup::run(&s, &mut st, false, 1000, 99 * NANOS, 60).is_none());
    assert_eq!(st.orphan_first_seen.len(), 1);
    let p = cleanup::run(&s, &mut st, true, 1000, 61 * NANOS, 60).unwrap();
    assert_eq!(p.terminate, ["i-b"]);
    assert!(st.orphan_first_seen.is_empty());

    cleanup::run(&s, &mut st, true, 1000, 62 * NANOS, 60);
    let gone = snap(leases(), vec![instance("i-a", "InService"), instance("i-b", "Terminating")], None);
    let p = cleanup::run(&gone, &mut st, true, 1000, 63 * NANOS, 60).unwrap();
    assert!(st.orphan_first_seen.is_empty() && p.terminate.is_empty());
    assert!(matches!(p.leases, LeasePass::GroupUnknown));
}

#[test]
fn implausible_groups_are_not_acted_on() {
    let mut st = CleanupState::new();
    let s = snap(vec![lease(4, "i-a", 2000)], vec![instance("i-a", "Pending")], group(3, 1, 9));
    let p = cleanup::run(&s, &mut st, true, 1000, NANOS, 60).unwrap();
    assert!(matches!(p.leases, LeasePass::NoneInService));
    let s = snap(vec![], vec![], group(3, 1, 9));
    let p = cleanup::run(&s, &mut st, true, 1000, NANOS, 60).unwrap();
    assert!(matches!(p.leases, LeasePass::Outcomes(v) if v.is_empty()));
    assert_eq!(section_23_backends_without_leases(&s.backends), [ip(0), ip(1)]);
}

#[test]
fn slots_go_back_to_the_pool() {
    let c = release_slot(7, 123);
    assert!(matches!(&c[0], PoolCommand::Del { key } if key == "slot:owner:7"));
    assert!(matches!(
        &c[1],
        PoolCommand::ZRem { key, member } if key == "slots:leases" && member == "7"
    ));
    assert!(matches!(
        &c[2],
        PoolCommand::ZAdd { key, member, score: 123 } if key == "slots:available" && member == "7"
    ));
    assert_eq!(weight_path("/w", ip(0)), "/w/backend-172.16.32.20.weight");
}

#[test]
fn strays_are_replaced_and_disabled() {
    let a = stray_actions(&vec!["i-1".to_string(), "i-2".to_string()], &vec![ip(4)]);
    assert_eq!(a.len(), 3);
    assert!(matches!(
        &a[1],
        Action::Terminate { instance_id, decrement: false } if instance_id == "i-2"
    ));
    assert!(matches!(a[2], Action::Disable { ip: x } if x == ip(4)));
}

#[test]
fn actions_have_effects_outside_dry_runs() {
    let file = "/w/backend-172.16.32.20.weight";
    let of = |a: Action| effect_of(a, "/w", false, 9);
    assert!(matches!(
        of(Action::Enable { ip: ip(0) }),
        Effect::Write { path, value } if path == file && value == "0"
    ));
    assert!(matches!(
        of(Action::Disable { ip: ip(0) }),
        Effect::Write { path, value } if path == file && value == "-2147483648"
    ));
    assert!(matches!(
        of(Action::Terminate { instance_id: "i-1".to_string(), decrement: true }),
        Effect::Terminate { instance_id, decrement: true } if instance_id == "i-1"
    ));
    assert!(matches!(
        of(Action::ReleaseSlot { slot: 7 }),
        Effect::Send { commands } if commands.len() == 3
    ));
    assert!(matches!(effect_of(Action::ReleaseSlot { slot: 7 }, "/w", true, 9), Effect::DryRun));
    assert!(matches!(weight_effect("/w", ip(0), "-1", true), Effect::DryRun));
    assert!(matches!(
        weight_effect("/w", ip(0), "-1", false),
        Effect::Write { path, value } if path == file && value == "-1"
    ));
    let act = ScaleUpDecision::Act { new_desired: 4, reason: TriggerReason::HardCeiling };
    assert_eq!(capacity_request(&act, false), Some(4));
    assert_eq!(capacity_request(&act, true), None);
    assert_eq!(capacity_request(&ScaleUpDecision::Quiet, false), None);
}

#[test]
fn slot_messages() {
    let net = SlotNetwork::new(Ipv4::new(172, 16, 32, 0), 20, 26);
    let msg = |action: &str, id: Option<&str>| AsgChangeMsg {
        slot: 3,
        action: action.to_string(),
        instance_id: id.map(|s| s.to_string()),
    };
    let a = handle_message(&msg("claim", Some("i-1")), &net, true);
    assert_eq!(a.len(), 1);
    assert!(matches!(a[0], Action::Enable { ip: x } if x == ip(3)));
    let a = handle_message(&msg("release", Some("i-1")), &net, true);
    assert_eq!(a.len(), 2);
    assert!(matches!(a[0], Action::Disable { ip: x } if x == ip(3)));
    assert!(matches!(&a[1], Action::Terminate { instance_id, decrement: true } if instance_id == "i-1"));
    assert_eq!(handle_message(&msg("release", None), &net, true).len(), 1);
    assert!(handle_message(&msg("dance", None), &net, true).is_empty());
}

// ── Metrics ───────────────────────────────────────────────────────────────

const SAMPLE_METRICS: &str = "\
# HELP ftp_sessions_total Total number of active FTP sessions.
# TYPE ftp_sessions_total gauge
ftp_sessions_total 5.0
# HELP ftp_sessions_count Total FTP sessions served.
# TYPE ftp_sessions_count counter
ftp_sessions_count 42.0
# HELP ftp_command_total Total number of commands received.
# TYPE ftp_command_total counter
ftp_command_total{command=\"quit\"} 3.0
ftp_command_total{command=\"list\"} 18.0
";

#[test]
fn parses_gauge_and_counters() {
    let (samples, docs) = parse_text(SAMPLE_METRICS);
    assert_eq!(samples.len(), 4);

    let active = samples.iter().find(|s| s.metric == "ftp_sessions_total").unwrap();
    assert_eq!(active.kind, SampleKind::Gauge);
    assert_eq!(f64::from_bits(active.value), 5.0);

    let commands: Vec<_> = samples.iter().filter(|s| s.metric == "ftp_command_total").collect();
    assert_eq!(commands.len(), 2);
    assert_eq!(commands[0].kind, SampleKind::Counter);

    assert!(docs.iter().any(|(k, _)| k == "ftp_sessions_total"));
}

#[test]
fn plain_values_are_found() {
    let (samples, docs) = parse_text(SAMPLE_METRICS);
    assert_eq!(find_plain(&samples, "ftp_sessions_count"), Some(42.0f64.to_bits()));
    assert_eq!(find_plain(&samples, "ftp_command_total"), None);
    assert_eq!(find_plain(&samples, "nothing"), None);
    assert_eq!(session_counts(&samples).1, 42.0f64.to_bits());
    assert_eq!(session_counts(&vec![]), (0.0f64.to_bits(), 0.0f64.to_bits()));
    let quit = samples.iter().find(|s| f64::from_bits(s.value) == 3.0).unwrap();
    assert_eq!(quit.labels, [("command".to_string(), "quit".to_string())]);
    assert!(docs
        .iter()
        .any(|(k, v)| k == "ftp_sessions_count" && v == "Total FTP sessions served."));
}

#[test]
fn only_scalars_are_kept() {
    let p = |metric: &str, value: ParsedValue| ParsedSample {
        metric: metric.to_string(),
        value,
        labels: vec![],
    };
    let kept = keep_scalars(vec![
        p("a", ParsedValue::Untyped(1)),
        p("b", ParsedValue::Histogram(vec![2])),
        p("c", ParsedValue::Summary),
        p("d", ParsedValue::Counter(3)),
        p("e", ParsedValue::Gauge(4)),
    ]);
    let got: Vec<(&str, u64, &str)> =
        kept.iter().map(|s| (s.metric.as_str(), s.value, s.kind.as_str())).collect();
    assert_eq!(got, [("a", 1, "untyped"), ("d", 3, "counter"), ("e", 4, "gauge")]);
    let (samples, _) = parse_text(
        "# TYPE h histogram\nh_bucket{le=\"1\"} 2\nh_bucket{le=\"+Inf\"} 3\nh_sum 4\nh_count 3\nx 1\n",
    );
    assert!(samples.iter().all(|s| s.metric != "h"));
    assert!(samples.iter().any(|s| s.metric == "x" && s.kind == SampleKind::Untyped));
}

#[test]
fn what_is_scraped_and_compared() {
    let mut list = vec![
        backend(0, "0", Some(4), Some(lease(0, "a", 10))),
        backend(1, "-1", None, Some(lease(1, "b", 10))),
        backend(2, "0", Some(4), Some(lease(2, "c", 5))),
        backend(3, "0", Some(4), None),
        backend(4, "0", Some(4), Some(lease(4, "d", 10))),
    ];
    list[4].slot = None;
    assert_eq!(
        scrape_targets(&list, 5),
        [
            ScrapeTarget { slot: 0, ip: ip(0), ipvs_active: 4 },
            ScrapeTarget { slot: 1, ip: ip(1), ipvs_active: 0 },
        ]
    );
    assert_eq!(scrape_url(ip(0), 9090), "http://172.16.32.20:9090/metrics");
    assert_eq!(cross_check(false, true, 1, 9), CrossCheck::Skipped);
    assert_eq!(cross_check(true, false, 1, 9), CrossCheck::Skipped);
    assert_eq!(cross_check(true, true, 4, 8), CrossCheck::Equal);
    assert_eq!(cross_check(true, true, 5, 8), CrossCheck::Differ { difference: 2, larger: 10 });
    assert_eq!(cross_check(true, true, 1, 8), CrossCheck::Differ { difference: 6, larger: 8 });
    assert_eq!(result_order(&vec![3, 1, 3, 0]), [3, 1, 0, 2]);
}

#[test]
fn histograms_and_summaries_are_parsed() {
    let (parsed, _) = parse_samples(
        "# TYPE h histogram\nh_bucket{a=\"b\",le=\"1\"} 2\nh_bucket{a=\"b\",le=\"+Inf\"} 3\n\
         # TYPE s summary\ns{quantile=\"0.5\"} 7\nx 1\n",
    );
    assert_eq!(parsed.len(), 3);
    let h = parsed.iter().find(|p| p.metric == "h").unwrap();
    assert_eq!(h.labels, [("a".to_string(), "b".to_string())]);
    let want = [2.0f64.to_bits(), 3.0f64.to_bits()];
    assert!(matches!(&h.value, ParsedValue::Histogram(c) if c[..] == want));
    let s = parsed.iter().find(|p| p.metric == "s").unwrap();
    assert!(matches!(s.value, ParsedValue::Summary) && s.labels.is_empty());
}

#[test]
fn results_are_kept_by_slot_with_their_failures() {
    let target = |slot: u32| ScrapeTarget { slot, ip: ip(slot as u8), ipvs_active: 0 };
    let targets = vec![target(7), target(2), target(7), target(0)];
    let answers = vec![
        Ok(parse_text("a 1\n")),
        Err("timeout".to_string()),
        Ok(parse_text("# HELP b text\nb 2\nc 3\n")),
        Ok(parse_text("ftp_sessions_total 5\n")),
    ];
    let (results, pushes) = scrape_results(&targets, answers, true);
    assert!(pushes);
    let got: Vec<(u32, usize, usize, Option<&str>)> = results
        .iter()
        .map(|m| (m.slot, m.samples.len(), m.docs.len(), m.error.as_deref()))
        .collect();
    assert_eq!(got, [(0, 1, 0, None), (2, 0, 0, Some("timeout")), (7, 1, 0, None), (7, 2, 1, None)]);
    assert!(results.iter().all(|m| m.ip == ip(m.slot as u8)));
    assert_eq!(results[2].samples[0].metric, "a");
    let (none, pushes) = scrape_results(&vec![], vec![], false);
    assert!(none.is_empty() && !pushes);

    let t = |n: usize| (format!("{n}.0000"), format!("{}.0000", n + 10));
    let sessions = slot_sessions(&results, vec![t(0), t(1), t(2), t(3)]);
    let got: Vec<(u32, bool, &str, &str)> = sessions
        .iter()
        .map(|x| (x.slot, x.scraped, x.active.as_str(), x.cumulative.as_str()))
        .collect();
    assert_eq!(got[0], (0, true, "0.0000", "10.0000"));
    assert_eq!(got[1], (2, false, "1.0000", "11.0000"));
    assert_eq!(got[3], (7, true, "3.0000", "13.0000"));
    assert_eq!(push("NS", "T", &sessions).unwrap().len(), 3 + 6 * 6);
}

fn slot_entry(slot: u32, scraped: bool, active: &str, cumulative: &str) -> SlotSessions {
    SlotSessions {
        slot,
        scraped,
        active: active.to_string(),
        cumulative: cumulative.to_string(),
    }
}

#[test]
fn sessions_are_pushed() {
    assert!(push("NS", "T", &vec![]).is_none());
    assert!(push("NS", "T", &vec![slot_entry(1, false, "0.0000", "0.0000")]).is_none());
    let p = push(
        "NS",
        "2026-01-02T03:04:05Z",
        &vec![
            slot_entry(4, true, "5.0000", "42.0000"),
            slot_entry(6, false, "0.0000", "0.0000"),
            slot_entry(9, true, "1.0000", "2.0000"),
        ],
    )
    .unwrap();
    let at = |i: usize| (p[i].0.as_str(), p[i].1.as_str());
    assert_eq!(p.len(), 3 + 4 * 6);
    assert_eq!(at(0), ("Action", "PutMetricData"));
    assert_eq!(at(1), ("Version", "2010-08-01"));
    assert_eq!(at(2), ("Namespace", "NS"));
    assert_eq!(at(3), ("MetricData.member.1.MetricName", "ActiveSessions"));
    assert_eq!(at(4), ("MetricData.member.1.Value", "5.0000"));
    assert_eq!(at(5), ("MetricData.member.1.Unit", "Count"));
    assert_eq!(at(6), ("MetricData.member.1.Timestamp", "2026-01-02T03:04:05Z"));
    assert_eq!(at(7), ("MetricData.member.1.Dimensions.member.1.Name", "Slot"));
    assert_eq!(at(8), ("MetricData.member.1.Dimensions.member.1.Value", "4"));
    assert_eq!(at(9), ("MetricData.member.2.MetricName", "CumulativeSessions"));
    assert_eq!(at(26), ("MetricData.member.4.Dimensions.member.1.Value", "9"));
    assert!(push_confirmed("<PutMetricDataResponse/>") && push_confirmed("<RequestId>x"));
    assert!(!push_confirmed("<ErrorResponse/>"));
}
