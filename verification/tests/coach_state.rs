use aerosuite::coach::config::{Config, ConfigError, Variables};
use aerosuite::coach::delta::{check_sums, BandwidthSample, DeltaEngine};
use aerosuite::coach::metrics_store::{AgentTotals, MetricsStore};
use aerosuite::coach::ndjson::{
    file_name_at, line_of, new_file_name, safe_record_prefix, stem_from_path,
};
use aerosuite::coach::registry::{AgentStatus, Registry, SendOutcome};
use aerosuite::coach::state::{AppState, CoachState};
use aerosuite::proto::{
    CoachCommand, CommandPayload, MetricsUpdate, SliceTick, TransferRecord,
};

// ── Configuration ─────────────────────────────────────────────────────────

fn unset() -> Variables {
    Variables { grpc_port: None, http_port: None, plan_file: None, plan_dir: None, record_dir: None }
}

#[test]
fn defaults_when_nothing_set() {
    let cfg = Config::from_source(&unset()).unwrap();
    assert_eq!(cfg.grpc_port, 50051);
    assert_eq!(cfg.http_port, 8080);
    assert!(cfg.plan_file.is_none());
    assert!(cfg.plan_dir.is_none());
    assert_eq!(cfg.record_dir, "/data/records");
}

#[test]
fn custom_ports() {
    let mut v = unset();
    v.grpc_port = Some("9090".to_string());
    v.http_port = Some("3000".to_string());
    let cfg = Config::from_source(&v).unwrap();
    assert_eq!(cfg.grpc_port, 9090);
    assert_eq!(cfg.http_port, 3000);
}

#[test]
fn invalid_port_is_error() {
    let mut v = unset();
    v.grpc_port = Some("not-a-number".to_string());
    let result = Config::from_source(&v);
    assert!(result.is_err());
    let msg = result.unwrap_err().to_string();
    assert!(msg.contains("AEROCOACH_GRPC_PORT"), "error should name the variable: {msg}");
}

#[test]
fn plan_file_captured() {
    let mut v = unset();
    v.plan_file = Some("/etc/aerocoach/plan.json".to_string());
    let cfg = Config::from_source(&v).unwrap();
    assert_eq!(cfg.plan_file, Some("/etc/aerocoach/plan.json".to_string()));
}

#[test]
fn custom_record_dir() {
    let mut v = unset();
    v.record_dir = Some("/tmp/results".to_string());
    assert_eq!(Config::from_source(&v).unwrap().record_dir, "/tmp/results");
}

#[test]
fn ports_have_sixteen_bits() {
    let mut v = unset();
    v.http_port = Some("65535".to_string());
    assert_eq!(Config::from_source(&v).unwrap().http_port, 65535);
    v.http_port = Some("65536".to_string());
    let e = Config::from_source(&v).unwrap_err();
    assert_eq!(e, ConfigError::HttpPort);
    assert_eq!(e.to_string(), "AEROCOACH_HTTP_PORT must be a valid port number (0–65535)");
}

// ── State ─────────────────────────────────────────────────────────────────

#[test]
fn state_machine_predicates() {
    assert!(CoachState::Waiting.is_waiting());
    assert!(!CoachState::Waiting.is_running());
    assert!(!CoachState::Waiting.is_done());

    let running = CoachState::Running { current_slice: 3 };
    assert!(running.is_running());
    assert_eq!(running.current_slice(), Some(3));

    assert!(CoachState::Done.is_done());
    assert_eq!(CoachState::Done.current_slice(), None);
}

#[test]
fn display() {
    assert_eq!(CoachState::Waiting.to_string(), "WAITING");
    assert_eq!(CoachState::Running { current_slice: 2 }.to_string(), "RUNNING(slice=2)");
    assert_eq!(CoachState::Done.to_string(), "DONE");
}

#[test]
fn new_state_is_waiting_with_no_plan() {
    let state = AppState::new();
    assert!(state.coach_state.is_waiting());
    assert!(state.load_plan.is_none());
    assert_eq!(state.agent_count(), 0);
}

#[test]
fn stop_signal_round_trip() {
    let mut state = AppState::new();
    assert!(!state.renew_stop());
    assert!(!state.stop_requested);
    state.signal_stop();
    assert!(state.stop_requested);
    state.reset_stop();
    assert!(!state.stop_requested);
}

// ── Reports ───────────────────────────────────────────────────────────────

fn make_record(filename: &str, success: bool, bytes: u64) -> TransferRecord {
    TransferRecord {
        filename: filename.to_string(),
        bucket_id: "xs".to_string(),
        bytes_transferred: bytes,
        file_size_bytes: bytes,
        bandwidth_kibps: 1024,
        success,
        error_reason: if success { None } else { Some("550 error".to_string()) },
        start_time_ms: 0,
        end_time_ms: 1000,
        time_slice: 0,
    }
}

fn update_of(records: Vec<TransferRecord>) -> MetricsUpdate {
    MetricsUpdate {
        current_slice: 1,
        active_connections: 5,
        queued_connections: 0,
        completed_transfers: records,
    }
}

#[test]
fn record_update_accumulates_totals() {
    let mut store = MetricsStore::new();
    let update = update_of(vec![
        make_record("a00_s001_c001.dat", true, 1024),
        make_record("a00_s001_c002.dat", false, 0),
    ]);
    assert!(store.fits("a00", &update));
    store.record_update("a00".to_string(), &update);

    let totals = store.agent_totals("a00");
    assert_eq!(totals.success_count, 1);
    assert_eq!(totals.error_count, 1);
    assert_eq!(totals.bytes_transferred, 1024);
    assert_eq!(store.total_count(), 2);
}

#[test]
fn new_channels_hold_no_command() {
    let (_tx, mut rx) = Registry::new_cmd_channel();
    assert!(rx.try_recv().is_err());
}

#[test]
fn drain_completed_clears_buffer() {
    let mut store = MetricsStore::new();
    store.record_update("a01".to_string(), &update_of(vec![make_record("f.dat", true, 512)]));

    let drained = store.drain_completed();
    assert_eq!(drained.len(), 1);
    assert_eq!(drained[0].0, "a01");

    assert!(store.drain_completed().is_empty());
}

#[test]
fn failed_transfers_count_no_bytes() {
    let mut store = MetricsStore::new();
    store.record_update("a00".to_string(), &update_of(vec![make_record("x", false, 999)]));
    store.record_update("a00".to_string(), &update_of(vec![make_record("y", true, 7)]));
    store.record_update("a01".to_string(), &update_of(vec![make_record("z", true, 5)]));
    let t = store.agent_totals("a00");
    assert_eq!((t.success_count, t.error_count, t.bytes_transferred), (1, 1, 7));
    assert_eq!(store.agent_totals("a01").bytes_transferred, 5);
    assert_eq!(store.agent_totals("a02").success_count, 0);
    assert_eq!(store.total_count(), 3);
    assert!(!store.fits("a00", &update_of(vec![make_record("big", true, u64::MAX)])));
}

// ── Dashboard payload ─────────────────────────────────────────────────────

fn make_status(id: &str, idx: u32, connected: bool, conns: u32) -> AgentStatus {
    AgentStatus {
        agent_id: id.to_string(),
        agent_index: idx,
        private_ip: "10.0.0.1".to_string(),
        instance_id: "i-abc".to_string(),
        current_slice: 0,
        active_connections: conns,
        connected,
        plan_acked: false,
    }
}

fn totals(success: u32, errors: u32, bytes: u64, in_flight: u64) -> AgentTotals {
    AgentTotals {
        success_count: success,
        error_count: errors,
        bytes_transferred: bytes,
        bytes_in_flight: in_flight,
    }
}

/// The smoothing that is applied to the bandwidth.
fn smoothed(previous: f64, b: BandwidthSample) -> f64 {
    let raw = b.bytes as f64 / (b.elapsed_ms as f64 / 1000.0);
    0.4 * raw + 0.6 * previous
}

#[test]
fn compute_returns_correct_slice_info() {
    let mut engine = DeltaEngine::new();
    let snapshot = vec![make_status("a00", 0, true, 5)];
    let update = engine.compute(2, 6, &snapshot, &vec![totals(2, 0, 2048, 0)], &vec![]);
    assert_eq!(update.current_slice, 2);
    assert_eq!(update.total_slices, 6);
}

#[test]
fn global_stats_aggregated_correctly() {
    let mut engine = DeltaEngine::new();
    let snapshot = vec![make_status("a00", 0, true, 5), make_status("a01", 1, true, 3)];
    let all = vec![totals(10, 2, 8192, 0), totals(5, 1, 4096, 0)];
    assert!(check_sums(&snapshot, &all));
    let update = engine.compute(1, 3, &snapshot, &all, &vec![]);
    assert_eq!(update.global_stats.total_success, 15);
    assert_eq!(update.global_stats.total_errors, 3);
    assert_eq!(update.global_stats.total_bytes_transferred, 12288);
    assert_eq!(update.global_stats.active_agents, 2);
    assert_eq!(update.global_stats.active_connections, 8);
}

#[test]
fn error_rate_computed_correctly() {
    let mut engine = DeltaEngine::new();
    let snapshot = vec![make_status("a00", 0, true, 0)];
    let update = engine.compute(0, 1, &snapshot, &vec![totals(9, 1, 0, 0)], &vec![]);
    let g = update.global_stats;
    let rate = g.total_errors as f64 / (g.total_errors as f64 + g.total_success as f64);
    assert!((rate - 0.1).abs() < 1e-9);
}

#[test]
fn no_agents_produces_zero_stats() {
    let mut engine = DeltaEngine::new();
    let update = engine.compute(0, 1, &vec![], &vec![], &vec![]);
    assert_eq!(update.global_stats.total_success, 0);
    assert_eq!(update.global_stats.total_errors, 0);
    assert!(update.agents.is_empty());
}

#[test]
fn drained_transfers_appear_in_completed() {
    let mut engine = DeltaEngine::new();
    let drained = vec![
        ("a00".to_string(), make_record("a00_s001.dat", true, 1024)),
        ("a00".to_string(), make_record("a00_s001.dat", false, 0)),
    ];
    let update = engine.compute(0, 1, &vec![], &vec![], &drained);
    assert_eq!(update.completed_transfers.len(), 2);
    assert_eq!(update.completed_transfers[0].agent_id, "a00");
    assert!(update.completed_transfers[0].success);
    assert!(!update.completed_transfers[1].success);
}

#[test]
fn bandwidth_correct_for_small_files() {
    let mb = 1024 * 1024;
    let mut engine = DeltaEngine::new_at(0);
    let snapshot = vec![make_status("a00", 0, true, 50)];

    let u1 = engine.compute_at(3000, 0, 1, &snapshot, &vec![totals(0, 0, 0, 60 * mb)], &vec![]);
    assert_eq!(u1.bandwidth, BandwidthSample { bytes: 60 * mb, elapsed_ms: 3000 });
    let bw1 = smoothed(0.0, u1.bandwidth);
    assert!(bw1 > 0.0);

    let t2 = vec![totals(100, 0, 100 * mb, 80 * mb)];
    let u2 = engine.compute_at(6000, 0, 1, &snapshot, &t2, &vec![]);
    assert_eq!(u2.bandwidth, BandwidthSample { bytes: 120 * mb, elapsed_ms: 3000 });
    assert!(smoothed(bw1, u2.bandwidth) > bw1);
}

#[test]
fn bandwidth_continuous_across_file_completion() {
    let mb = 1024 * 1024;
    let mut engine = DeltaEngine::new_at(0);
    let snapshot = vec![make_status("a00", 0, true, 1)];

    let u1 = engine.compute_at(3000, 0, 1, &snapshot, &vec![totals(0, 0, 0, 100 * mb)], &vec![]);
    let bw1 = smoothed(0.0, u1.bandwidth);
    assert!(bw1 > 0.0);

    let u2 = engine.compute_at(6000, 0, 1, &snapshot, &vec![totals(1, 0, 100 * mb, 0)], &vec![]);
    assert_eq!(u2.bandwidth.bytes, 0);
    assert!(smoothed(bw1, u2.bandwidth) < bw1);
}

#[test]
fn inactive_agents_excluded_from_active_count() {
    let mut engine = DeltaEngine::new();
    let snapshot = vec![make_status("a00", 0, true, 4), make_status("a01", 1, false, 0)];
    let all = vec![totals(0, 0, 0, 0), totals(0, 0, 0, 0)];
    let update = engine.compute(0, 1, &snapshot, &all, &vec![]);
    assert_eq!(update.global_stats.active_agents, 1);
}

#[test]
fn time_that_stands_still_counts_as_a_millisecond() {
    let mut engine = DeltaEngine::new_at(500);
    let snapshot = vec![make_status("a00", 0, true, 1)];
    let u = engine.compute_at(400, 0, 1, &snapshot, &vec![totals(1, 0, 9, 1)], &vec![]);
    assert_eq!(u.bandwidth, BandwidthSample { bytes: 10, elapsed_ms: 1 });
    assert_eq!(u.timestamp_ms, 400);
    let u = engine.compute_at(900, 0, 1, &snapshot, &vec![totals(1, 0, 3, 0)], &vec![]);
    assert_eq!(u.bandwidth, BandwidthSample { bytes: 0, elapsed_ms: 500 });
    assert!(!check_sums(&snapshot, &vec![]));
    assert!(!check_sums(&snapshot, &vec![totals(0, 0, u64::MAX, 1)]));
}

// ── Registry ──────────────────────────────────────────────────────────────

fn entry(r: &mut Registry, id: &str) -> u32 {
    r.register(id.to_string(), "10.0.0.1".to_string(), "i-abc".to_string()).expect("register failed")
}

#[test]
fn register_assigns_sequential_indices() {
    let mut r = Registry::new();
    assert_eq!(entry(&mut r, "a00"), 0);
    assert_eq!(entry(&mut r, "a01"), 1);
    assert_eq!(entry(&mut r, "a02"), 2);
    assert_eq!(r.len(), 3);
}

#[test]
fn duplicate_connected_registration_rejected() {
    let mut r = Registry::new();
    entry(&mut r, "a00");
    let (tx, _rx) = Registry::new_cmd_channel();
    r.set_session_channel("a00", tx);
    let e = r.register("a00".to_string(), "10.0.0.1".to_string(), "i-x".to_string()).unwrap_err();
    assert_eq!(e, "agent \"a00\" is already registered and connected");
}

#[test]
fn disconnected_agent_may_re_register() {
    let mut r = Registry::new();
    let first_index = entry(&mut r, "a00");
    let (tx, _rx) = Registry::new_cmd_channel();
    r.set_session_channel("a00", tx);
    r.deregister("a00");
    let new_index = r
        .register("a00".to_string(), "10.0.0.2".to_string(), "i-new".to_string())
        .unwrap();
    assert_eq!(new_index, first_index);
    assert_eq!(r.len(), 1);
}

#[test]
fn set_session_channel_marks_connected() {
    let mut r = Registry::new();
    entry(&mut r, "a00");
    assert!(!r.entries[0].connected);
    let (tx, _rx) = Registry::new_cmd_channel();
    r.set_session_channel("a00", tx);
    assert!(r.entries[0].connected);
    assert_eq!(r.connected_count(), 1);
}

#[test]
fn deregister_marks_disconnected_and_clears_channel() {
    let mut r = Registry::new();
    entry(&mut r, "a00");
    let (tx, _rx) = Registry::new_cmd_channel();
    r.set_session_channel("a00", tx);
    r.deregister("a00");
    assert!(!r.entries[0].connected);
    assert!(r.entries[0].cmd_tx.is_none());
}

#[test]
fn all_acked_true_when_all_agents_up_to_date() {
    let mut r = Registry::new();
    entry(&mut r, "a00");
    entry(&mut r, "a01");
    let (tx0, _rx0) = Registry::new_cmd_channel();
    let (tx1, _rx1) = Registry::new_cmd_channel();
    r.set_session_channel("a00", tx0);
    r.set_session_channel("a01", tx1);
    r.update_slice("a00", 2);
    r.update_slice("a01", 2);
    assert!(r.all_acked(2));
}

#[test]
fn all_acked_false_when_one_agent_behind() {
    let mut r = Registry::new();
    entry(&mut r, "a00");
    entry(&mut r, "a01");
    let (tx0, _rx0) = Registry::new_cmd_channel();
    let (tx1, _rx1) = Registry::new_cmd_channel();
    r.set_session_channel("a00", tx0);
    r.set_session_channel("a01", tx1);
    r.update_slice("a00", 2);
    r.update_slice("a01", 1);
    assert!(!r.all_acked(2));
}

#[test]
fn all_acked_ignores_disconnected_agents() {
    let mut r = Registry::new();
    entry(&mut r, "a00");
    entry(&mut r, "a01");
    let (tx0, _rx0) = Registry::new_cmd_channel();
    r.set_session_channel("a00", tx0);
    r.update_slice("a00", 2);
    assert!(r.all_acked(2));
}

#[test]
fn status_snapshot_sorted_by_index() {
    let mut r = Registry::new();
    entry(&mut r, "a02");
    entry(&mut r, "a00");
    entry(&mut r, "a01");
    let snap = r.status_snapshot();
    let ids: Vec<&str> = snap.iter().map(|s| s.agent_id.as_str()).collect();
    assert_eq!(ids, ["a02", "a00", "a01"]);
}

fn tick(slice_index: u32) -> CoachCommand {
    CoachCommand {
        payload: Some(CommandPayload::SliceTick(SliceTick { slice_index, wall_clock_ms: 5 })),
    }
}

#[test]
fn broadcast_reaches_connected_agents_and_drops_closed_channels() {
    let mut r = Registry::new();
    entry(&mut r, "a00");
    entry(&mut r, "a01");
    entry(&mut r, "a02");
    let (tx0, mut rx0) = Registry::new_cmd_channel();
    assert_eq!(tx0.max_capacity(), 64);
    let (tx1, rx1) = Registry::new_cmd_channel();
    r.set_session_channel("a00", tx0);
    r.set_session_channel("a01", tx1);
    drop(rx1);
    assert_eq!(r.broadcast(&tick(4)), 1);
    match rx0.try_recv().unwrap().payload {
        Some(CommandPayload::SliceTick(t)) => assert_eq!((t.slice_index, t.wall_clock_ms), (4, 5)),
        other => panic!("unexpected {other:?}"),
    }
    assert_eq!(r.connected_count(), 1);
    assert!(!r.entries[1].connected);
    for _ in 0..64 {
        assert_eq!(r.broadcast(&tick(5)), 1);
    }
    assert_eq!(r.broadcast(&tick(6)), 0);
    assert!(r.entries[0].connected);
}

#[test]
fn outcomes_of_a_broadcast_are_applied() {
    let mut r = Registry::new();
    entry(&mut r, "a00");
    entry(&mut r, "a01");
    entry(&mut r, "a02");
    for id in ["a00", "a01", "a02"] {
        let (tx, _rx) = Registry::new_cmd_channel();
        r.set_session_channel(id, tx);
    }
    let outcomes =
        vec![Some(SendOutcome::Sent), Some(SendOutcome::Closed), Some(SendOutcome::Full)];
    assert_eq!(r.apply_sends(&outcomes), 1);
    assert!(r.entries[0].connected);
    assert!(!r.entries[1].connected);
    assert!(r.entries[2].connected);
}

#[test]
fn a_stale_close_is_ignored() {
    let mut r = Registry::new();
    entry(&mut r, "a00");
    let (tx, _rx) = Registry::new_cmd_channel();
    let first = r.set_session_channel("a00", tx);
    let (tx, _rx2) = Registry::new_cmd_channel();
    let second = r.set_session_channel("a00", tx);
    assert_eq!((first, second), (1, 2));
    r.close_session("a00", first);
    assert!(r.entries[0].connected);
    r.close_session("a00", second);
    assert!(!r.entries[0].connected);
    let (tx, _rx3) = Registry::new_cmd_channel();
    assert_eq!(r.set_session_channel("nobody", tx), 0);
}

#[test]
fn plan_acks_are_counted_and_forgotten() {
    let mut r = Registry::new();
    entry(&mut r, "a00");
    entry(&mut r, "a01");
    r.ack_plan("a01");
    r.ack_plan("nobody");
    assert_eq!(r.plan_ack_count(), 1);
    r.reset_plan_acks();
    assert_eq!(r.plan_ack_count(), 0);
    r.update_active_connections("a00", 9);
    assert_eq!(r.status_snapshot()[0].active_connections, 9);
    assert!(r.contains("a00") && !r.contains("nobody"));
}

// ── Record files ──────────────────────────────────────────────────────────

#[test]
fn record_prefixes_are_safe_everywhere() {
    assert_eq!(safe_record_prefix("01_parallel_fast"), "01_parallel_fast");
    assert_eq!(safe_record_prefix("  my plan: a/b..c  "), "my_plan_a_b_c");
    assert_eq!(safe_record_prefix("__x__y__"), "x_y");
    assert_eq!(safe_record_prefix("größe-1"), "gr_e-1");
    assert_eq!(safe_record_prefix("..."), "plan");
    assert_eq!(safe_record_prefix(""), "plan");
    assert_eq!(stem_from_path(&Some("a b".to_string()), "id"), "a_b");
    assert_eq!(stem_from_path(&None, "the id"), "the_id");
}

#[test]
fn record_file_names_hold_prefix_and_time() {
    assert_eq!(file_name_at("fast", "20260101T000000Z"), "fast_20260101T000000Z.ndjson");
    assert_eq!(file_name_at("__a__b _", "T"), "a__b_T.ndjson");
    assert_eq!(file_name_at("___", "T"), "plan_T.ndjson");
    let name = new_file_name("fast");
    assert!(name.starts_with("fast_20") && name.ends_with("Z.ndjson"));
    assert_eq!(name.len(), "fast_20260101T000000Z.ndjson".len());
}

#[test]
fn writes_valid_ndjson() {
    let mut ok = make_record("a00_s001_c001_1.dat", true, 1024);
    ok.bandwidth_kibps = 512;
    let mut bad = make_record("a00_s001_c001_1.dat", false, 1024);
    bad.error_reason = Some("550 denied".to_string());
    let content = line_of("a00", &ok) + &line_of("a01", &bad);
    let lines: Vec<&str> = content.lines().collect();
    assert_eq!(lines.len(), 2);

    let first: serde_json::Value = serde_json::from_str(lines[0]).expect("json");
    assert_eq!(first["agent_id"], "a00");
    assert_eq!(first["success"], true);
    assert_eq!(first["bucket_id"], "xs");
    assert!(first["error_reason"].is_null());
    assert_eq!(first["bandwidth_kibps"], 512);
    assert_eq!(first.as_object().unwrap().len(), 11);

    let second: serde_json::Value = serde_json::from_str(lines[1]).expect("json");
    assert_eq!(second["agent_id"], "a01");
    assert_eq!(second["success"], false);
    assert_eq!(second["error_reason"], "550 denied");
}

#[test]
fn record_lines_have_sorted_fields() {
    let mut r = make_record("f", true, 3);
    r.start_time_ms = -4;
    assert_eq!(
        line_of("a", &r),
        "{\"agent_id\":\"a\",\"bandwidth_kibps\":1024,\"bucket_id\":\"xs\",\
         \"bytes_transferred\":3,\"end_time_ms\":1000,\"error_reason\":null,\
         \"file_size_bytes\":3,\"filename\":\"f\",\"start_time_ms\":-4,\"success\":true,\
         \"time_slice\":0}\n"
    );
}
