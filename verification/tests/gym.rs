use aerosuite::gym::config::{Config, ConfigError, Threshold, Variables};
use aerosuite::gym::file_manager::{
    bucket_file_path, file_order, next_chunk, random_size_in_bucket, size_for_draw, size_in_bucket,
};
use aerosuite::gym::load_plan::{make_transfer_filename, per_agent_connections, AgentPlan};
use aerosuite::gym::metrics::MetricsAccumulator;
use aerosuite::gym::rate_limit::RateLimiterConfig;
use aerosuite::gym::registration::{check_response, exhausted, make_request, tries_again};
use aerosuite::gym::session::{hello, AgentSession, SessionAction};
use aerosuite::gym::transfer::{finish_transfer, upload_mode, TransferOutcome, UploadMode};
use aerosuite::proto::{
    CoachCommand, CommandPayload, FileSizeBucket, FileSizeDistribution, LoadPlan, LoadPlanUpdate,
    Percentage, RegisterResponse, ReportPayload, ShutdownCmd, SliceAck, SliceTick, TimeSlice,
};

fn bucket(id: &str, min: u64, max: u64, f: f32) -> FileSizeBucket {
    FileSizeBucket {
        bucket_id: id.to_string(),
        size_min_bytes: min,
        size_max_bytes: max,
        percentage: Percentage { bits: f.to_bits() },
    }
}

fn make_plan(total_connections: u32, total_agents: u32) -> AgentPlan {
    AgentPlan::new(
        LoadPlan {
            plan_id: "test".to_string(),
            slice_duration_ms: 60_000,
            total_bandwidth_bps: 10_000_000,
            total_agents,
            slices: vec![
                TimeSlice { slice_index: 0, total_connections },
                TimeSlice { slice_index: 1, total_connections: total_connections * 2 },
            ],
            file_distribution: Some(FileSizeDistribution {
                buckets: vec![
                    bucket("xs", 0, 10_485_760, 0.6),
                    bucket("lg", 10_485_760, 104_857_600, 0.4),
                ],
            }),
            start_time_ms: 0,
        },
        0,
    )
}

fn empty_update(from: u32) -> LoadPlanUpdate {
    LoadPlanUpdate {
        effective_from_slice: from,
        updated_slices: vec![],
        new_bandwidth_bps: None,
        new_file_distribution: None,
        new_total_agents: None,
    }
}

// ── Plan ──────────────────────────────────────────────────────────────────

#[test]
fn connections_split_evenly() {
    for i in 0..2 {
        let mut p = make_plan(10, 2);
        p.agent_index = i;
        assert_eq!(p.my_connections_for_slice(0), 5);
    }
}

#[test]
fn connections_remainder_goes_to_lower_indices() {
    let counts: Vec<u32> = (0..3)
        .map(|i| {
            let mut p = make_plan(10, 3);
            p.agent_index = i;
            p.my_connections_for_slice(0)
        })
        .collect();
    assert_eq!(counts, [4, 3, 3]);
    assert_eq!(counts.iter().sum::<u32>(), 10);
}

#[test]
fn unknown_slice_returns_zero() {
    let p = make_plan(10, 1);
    assert_eq!(p.my_connections_for_slice(99), 0);
}

#[test]
fn bandwidth_divided_by_agent_count() {
    let mut p = make_plan(0, 4);
    p.proto.total_bandwidth_bps = 10_000_000;
    assert_eq!(p.my_bandwidth_bps(), 2_500_000);
}

#[test]
fn apply_update_replaces_future_slices() {
    let mut p = make_plan(10, 1);
    let mut u = empty_update(1);
    u.updated_slices = vec![TimeSlice { slice_index: 1, total_connections: 999 }];
    p.apply_update(u);
    assert_eq!(p.my_connections_for_slice(0), 10);
    assert_eq!(p.my_connections_for_slice(1), 999);
}

#[test]
fn apply_update_changes_bandwidth() {
    let mut p = make_plan(0, 1);
    let mut u = empty_update(0);
    u.new_bandwidth_bps = Some(50_000_000);
    p.apply_update(u);
    assert_eq!(p.my_bandwidth_bps(), 50_000_000);
}

#[test]
fn filename_format() {
    assert_eq!(make_transfer_filename("a03", 7, 42), "a03_s007_c000042.dat");
}

#[test]
fn long_numbers_are_not_cut_in_filenames() {
    assert_eq!(make_transfer_filename("a", 12345, 98765432), "a_s12345_c98765432.dat");
}

#[test]
fn filenames_tell_agents_slices_and_connections_apart() {
    let mut names = Vec::new();
    for agent in ["a", "a_s001", "a_s001_c000001.dat"] {
        for slice in [0, 1, 1000] {
            for conn in [0, 1, 1_000_000] {
                let name = make_transfer_filename(agent, slice, conn);
                assert!(!names.contains(&name));
                names.push(name);
            }
        }
    }
}

#[test]
fn an_update_taken_in_twice_changes_nothing_more() {
    let update = || {
        let mut u = empty_update(1);
        u.updated_slices = vec![
            TimeSlice { slice_index: 4, total_connections: 40 },
            TimeSlice { slice_index: 1, total_connections: 11 },
            TimeSlice { slice_index: 4, total_connections: 41 },
        ];
        u.new_bandwidth_bps = Some(7);
        u
    };
    let mut p = make_plan(10, 1);
    p.apply_update(update());
    let once = p.proto.slices.clone();
    p.apply_update(update());
    assert_eq!(p.proto.slices, once);
    let got: Vec<u32> = once.iter().map(|s| s.total_connections).collect();
    assert_eq!(got, [10, 11, 40, 41]);
    assert_eq!(p.my_bandwidth_bps(), 7);
}

#[test]
fn agent_count_update_keeps_slices() {
    let mut p = make_plan(10, 1);
    let mut u = empty_update(u32::MAX);
    u.new_total_agents = Some(5);
    p.apply_update(u);
    assert_eq!(p.total_slices(), 2);
    assert_eq!(p.total_agents(), 5);
    assert_eq!(p.my_connections_for_slice(0), 2);
    assert_eq!(p.my_connections_for_slice(1), 4);
    assert_eq!(p.my_bandwidth_bps(), 2_000_000);
}

#[test]
fn updates_drop_slices_they_do_not_mention_and_sort_the_rest() {
    let mut p = make_plan(10, 1);
    let mut u = empty_update(1);
    u.updated_slices = vec![
        TimeSlice { slice_index: 5, total_connections: 50 },
        TimeSlice { slice_index: 3, total_connections: 30 },
    ];
    u.new_file_distribution = Some(FileSizeDistribution { buckets: vec![bucket("m", 1, 2, 1.0)] });
    p.apply_update(u);
    let indices: Vec<u32> = p.proto.slices.iter().map(|s| s.slice_index).collect();
    assert_eq!(indices, [0, 3, 5]);
    assert_eq!(p.my_connections_for_slice(1), 0);
    assert_eq!(p.my_connections_for_slice(3), 30);
    assert_eq!(p.buckets().len(), 1);
    assert_eq!(p.buckets()[0].bucket_id, "m");
}

#[test]
fn no_agents_count_as_one() {
    assert_eq!(per_agent_connections(7, 0, 0), 7);
    let p = make_plan(8, 0);
    assert_eq!(p.total_agents(), 1);
    assert_eq!(p.plan_id(), "test");
    assert_eq!(p.slice_duration_ms(), 60_000);
}

#[test]
fn rates_are_shared_between_transfers() {
    let p = make_plan(0, 2);
    assert_eq!(p.my_rate_config(), RateLimiterConfig::from_bps(5_000_000));
    assert_eq!(p.rate_per_transfer(10), RateLimiterConfig::from_bps(500_000));
    assert_eq!(p.rate_per_transfer(0), None);
    assert_eq!(p.rate_per_transfer(u32::MAX), None);
    let mut p = make_plan(0, 2);
    p.proto.total_bandwidth_bps = 0;
    assert_eq!(p.my_rate_config(), None);
    assert_eq!(p.rate_per_transfer(3), None);
}

#[test]
fn the_draw_chooses_the_bucket() {
    let p = make_plan(0, 1);
    let pick = |reached: Vec<bool>| p.weighted_random_bucket(&reached).unwrap().bucket_id.clone();
    assert_eq!(pick(vec![true, true]), "xs");
    assert_eq!(pick(vec![false, true]), "lg");
    assert_eq!(pick(vec![false, false]), "lg");
    let mut p = make_plan(0, 1);
    p.proto.file_distribution = None;
    assert!(p.weighted_random_bucket(&vec![]).is_none());
    assert!(p.buckets().is_empty());
}

// ── Accumulator ───────────────────────────────────────────────────────────

fn outcome(success: bool) -> TransferOutcome {
    TransferOutcome {
        conn_id: 0,
        filename: "f.dat".to_string(),
        bucket_id: "xs".to_string(),
        bytes_transferred: 1024,
        file_size_bytes: 1024,
        bandwidth_kibps: 512,
        success,
        error_reason: if success { None } else { Some("err".to_string()) },
        start_time_ms: 0,
        end_time_ms: 10,
        time_slice: 0,
    }
}

#[test]
fn accumulates_and_drains() {
    let mut acc = MetricsAccumulator::new();
    acc.record(outcome(true));
    acc.record(outcome(false));
    assert!(acc.has_pending());

    let update = acc.drain_into_update(1, 3, false).unwrap();
    assert_eq!(update.completed_transfers.len(), 2);
    assert_eq!(update.current_slice, 1);
    assert_eq!(update.active_connections, 3);
    assert!(update.completed_transfers[0].success);
    assert!(!update.completed_transfers[1].success);
    assert!(!acc.has_pending());
}

#[test]
fn drain_empty_returns_none_without_force() {
    let mut acc = MetricsAccumulator::new();
    assert!(acc.drain_into_update(0, 0, false).is_none());
}

#[test]
fn drain_empty_returns_some_with_force() {
    let mut acc = MetricsAccumulator::new();
    let update = acc.drain_into_update(2, 5, true).unwrap();
    assert_eq!(update.completed_transfers.len(), 0);
    assert_eq!(update.current_slice, 2);
}

#[test]
fn second_drain_is_empty() {
    let mut acc = MetricsAccumulator::new();
    acc.record(outcome(true));
    acc.drain_into_update(0, 1, false);
    assert!(acc.drain_into_update(0, 0, false).is_none());
}

// ── Rate limit ────────────────────────────────────────────────────────────

#[test]
fn zero_bps_returns_none() {
    assert!(RateLimiterConfig::from_bps(0).is_none());
}

#[test]
fn normal_path_uses_50ms_tick() {
    for bps in [10_592_u64, 50_000, 500_000, 5_000_000, 10 * 1024 * 1024] {
        let cfg = RateLimiterConfig::from_bps(bps).unwrap();
        assert_eq!(cfg.interval_ms, 50, "expected 50 ms tick for bps={bps}");
    }
}

#[test]
fn low_rate_path_extends_interval() {
    let cfg = RateLimiterConfig::from_bps(1_500).unwrap();
    assert_eq!(cfg.chunk_bytes, 512);
    assert!(cfg.interval_ms > 50, "interval should exceed 50 ms at low rate");
    assert_eq!(cfg.interval_ms, 341);
}

#[test]
fn small_file_gets_many_chunks() {
    let cfg = RateLimiterConfig::from_bps(10_591).unwrap();
    let xs_file_bytes: u64 = 36_948;
    let chunks = xs_file_bytes.div_ceil(cfg.chunk_bytes as u64);
    assert!(chunks > 50, "got only {chunks} chunks — small files will not be throttled");
}

#[test]
fn approx_bps_accurate_across_rate_range() {
    for bps in [1_500_u64, 5_000, 10_592, 50_000, 500_000, 5_000_000, 10 * 1024 * 1024] {
        let cfg = RateLimiterConfig::from_bps(bps).unwrap();
        let ratio = cfg.approx_bps() as f64 / bps as f64;
        assert!(
            (0.98..=1.02).contains(&ratio),
            "bps={bps}: approx={} ratio={ratio:.4}",
            cfg.approx_bps()
        );
    }
}

#[test]
fn chunk_clamped_at_upper_bound_for_extreme_rates() {
    let cfg = RateLimiterConfig::from_bps(u64::MAX).unwrap();
    assert_eq!(cfg.chunk_bytes, 4 * 1024 * 1024);
}

#[test]
fn no_interval_means_no_limit() {
    let cfg = RateLimiterConfig { chunk_bytes: 1, interval_ms: 0, mss: 0 };
    assert_eq!(cfg.approx_bps(), u64::MAX);
    assert_eq!(RateLimiterConfig::from_bps(1).unwrap().interval_ms, 512_000);
}

// ── Transfers ─────────────────────────────────────────────────────────────

fn dummy_outcome(success: bool) -> TransferOutcome {
    TransferOutcome {
        conn_id: 1,
        filename: "a00_s001_c000001.dat".to_string(),
        bucket_id: "xs".to_string(),
        bytes_transferred: if success { 4096 } else { 0 },
        file_size_bytes: 4096,
        bandwidth_kibps: if success { 512 } else { 0 },
        success,
        error_reason: if success { None } else { Some("550 Permission denied".to_string()) },
        start_time_ms: 1_000_000,
        end_time_ms: 1_001_000,
        time_slice: 1,
    }
}

#[test]
fn success_outcome_maps_to_proto() {
    let rec = dummy_outcome(true).into_proto();
    assert!(rec.success);
    assert_eq!(rec.filename, "a00_s001_c000001.dat");
    assert_eq!(rec.bucket_id, "xs");
    assert_eq!(rec.bytes_transferred, 4096);
    assert_eq!(rec.bandwidth_kibps, 512);
    assert!(rec.error_reason.is_none());
    assert_eq!(rec.time_slice, 1);
}

#[test]
fn error_outcome_maps_to_proto() {
    let rec = dummy_outcome(false).into_proto();
    assert!(!rec.success);
    assert_eq!(rec.bytes_transferred, 0);
    assert_eq!(rec.error_reason.as_deref(), Some("550 Permission denied"));
}

#[test]
fn outcome_of_an_upload() {
    let done = |result: Result<u64, String>, start: i64, end: i64| {
        finish_transfer(3, "f".to_string(), "xs".to_string(), 9, result, start, end, 4)
    };
    let o = done(Ok(2_097_152), 1000, 3000);
    assert!(o.success);
    assert_eq!(o.bandwidth_kibps, 1024);
    assert_eq!((o.conn_id, o.file_size_bytes, o.time_slice), (3, 9, 4));
    assert_eq!(done(Ok(1023), 0, 10).bandwidth_kibps, 0);
    assert_eq!(done(Ok(2048), 50, 50).bandwidth_kibps, 2000);
    let o = done(Err("no route".to_string()), 5, 6);
    assert!(!o.success);
    assert_eq!((o.bytes_transferred, o.bandwidth_kibps), (0, 0));
    assert_eq!(o.error_reason.as_deref(), Some("no route"));
}

#[test]
fn upload_modes() {
    assert_eq!(upload_mode(&None), UploadMode::Plain);
    let c = RateLimiterConfig { chunk_bytes: 7, interval_ms: 50, mss: 1400 };
    assert_eq!(
        upload_mode(&Some(c)),
        UploadMode::Throttled { chunk_bytes: 7, interval_ms: 50, mss: 1400 }
    );
    let c = RateLimiterConfig { chunk_bytes: 7, interval_ms: 0, mss: 1400 };
    assert_eq!(upload_mode(&Some(c)), UploadMode::Streamed { mss: 1400 });
}

// ── Files ─────────────────────────────────────────────────────────────────

#[test]
fn size_in_bucket_accepts_valid_sizes() {
    let b = bucket("xs", 1000, 2000, 1.0);
    assert!(size_in_bucket(1000, &b));
    assert!(size_in_bucket(1500, &b));
    assert!(size_in_bucket(1999, &b));
}

#[test]
fn size_in_bucket_rejects_out_of_range() {
    let b = bucket("xs", 1000, 2000, 1.0);
    assert!(!size_in_bucket(0, &b));
    assert!(!size_in_bucket(999, &b));
    assert!(!size_in_bucket(2000, &b));
    assert!(!size_in_bucket(9999, &b));
}

#[test]
fn size_in_bucket_treats_zero_min_as_one() {
    let b = bucket("xs", 0, 1000, 1.0);
    assert!(!size_in_bucket(0, &b), "zero-byte file must be rejected");
    assert!(size_in_bucket(1, &b));
    assert!(size_in_bucket(999, &b));
}

#[test]
fn random_size_within_range() {
    let b = bucket("test", 1000, 2000, 1.0);
    for _ in 0..100 {
        let s = random_size_in_bucket(&b);
        assert!((1000..2000).contains(&s));
    }
}

#[test]
fn draws_stand_for_sizes() {
    let b = bucket("test", 1000, 2000, 1.0);
    assert_eq!(size_for_draw(&b, 0), 1000);
    assert_eq!(size_for_draw(&b, 12_345), 1345);
    assert_eq!(size_for_draw(&bucket("e", 5, 5, 1.0), 77), 5);
    assert_eq!(size_for_draw(&bucket("e", 0, 0, 1.0), 77), 1);
    let wide = bucket("w", 0, u64::MAX, 1.0);
    let first = random_size_in_bucket(&wide);
    assert!((0..64).any(|_| random_size_in_bucket(&wide) != first));
}

#[test]
fn files_are_reused_when_they_fit() {
    let b = bucket("xs", 1024, 1025, 1.0);
    let o = file_order("/tmp/aerogym", "a00", &b, Some(1024));
    assert_eq!(o.path, "/tmp/aerogym/bucket_a00_xs.dat");
    assert_eq!(o.write_bytes, None);
    for existing in [None, Some(0), Some(512), Some(1025)] {
        let o = file_order("/tmp/aerogym/", "a00", &b, existing);
        assert_eq!(o.path, "/tmp/aerogym/bucket_a00_xs.dat");
        assert_eq!(o.write_bytes, Some(1024));
        assert_eq!(o.bucket_id, "xs");
    }
    assert_eq!(bucket_file_path("", "a", "b"), "bucket_a_b.dat");
}

#[test]
fn chunks_add_up_to_the_file() {
    let target = 20_000u64;
    let mut written = 0u64;
    let mut sizes = vec![];
    while written < target {
        let n = next_chunk(target, written);
        sizes.push(n);
        written += n;
    }
    assert_eq!(sizes, [8192, 8192, 3616]);
}

// ── Configuration ─────────────────────────────────────────────────────────

fn required() -> Variables {
    Variables {
        agent_id: Some("a03".to_string()),
        aerocoach_url: Some("http://10.0.1.5:50051".to_string()),
        ftp_target: Some("10.0.2.10:21".to_string()),
        ftp_user: None,
        ftp_pass: None,
        work_dir: None,
        private_ip: None,
        instance_id: None,
        refill_threshold: Threshold::Unset,
    }
}

/// The threshold that a text gives.
fn threshold(s: &str) -> Threshold {
    match s.parse::<f64>() {
        Ok(v) => Threshold::Number { bits: v.to_bits() },
        Err(_) => Threshold::NotANumber,
    }
}

#[test]
fn parses_required_fields() {
    let cfg = Config::from_source(&required()).unwrap();
    assert_eq!(cfg.agent_id, "a03");
    assert_eq!(cfg.aerocoach_url, "http://10.0.1.5:50051");
    assert_eq!(cfg.ftp_target, "10.0.2.10:21");
    assert_eq!(cfg.ftp_user, "test");
    assert_eq!(cfg.ftp_pass, "secret");
    assert_eq!(cfg.work_dir, "/tmp/aerogym");
}

#[test]
fn missing_agent_id_is_error() {
    let mut v = required();
    v.agent_id = None;
    assert_eq!(Config::from_source(&v).unwrap_err(), ConfigError::AgentIdMissing);
}

#[test]
fn missing_coach_url_is_error() {
    let mut v = required();
    v.aerocoach_url = None;
    assert_eq!(Config::from_source(&v).unwrap_err(), ConfigError::CoachUrlMissing);
}

#[test]
fn custom_work_dir() {
    let mut v = required();
    v.work_dir = Some("/data/agent".to_string());
    assert_eq!(Config::from_source(&v).unwrap().work_dir, "/data/agent");
}

#[test]
fn metadata_overrides() {
    let mut v = required();
    v.private_ip = Some("10.0.1.99".to_string());
    v.instance_id = Some("arn:aws:ecs:us-east-1:123456789012:task/abc".to_string());
    let cfg = Config::from_source(&v).unwrap();
    assert_eq!(cfg.private_ip, "10.0.1.99");
    assert_eq!(cfg.instance_id, "arn:aws:ecs:us-east-1:123456789012:task/abc");
}

#[test]
fn refill_threshold_default() {
    let cfg = Config::from_source(&required()).unwrap();
    assert!((f64::from_bits(cfg.refill_threshold_bits) - 0.80).abs() < 1e-9);
}

#[test]
fn refill_threshold_custom() {
    let mut v = required();
    v.refill_threshold = threshold("0.6");
    let cfg = Config::from_source(&v).unwrap();
    assert!((f64::from_bits(cfg.refill_threshold_bits) - 0.6).abs() < 1e-9);
}

#[test]
fn refill_threshold_out_of_range() {
    let mut v = required();
    v.refill_threshold = threshold("1.5");
    let e = Config::from_source(&v).unwrap_err();
    assert_eq!(e, ConfigError::ThresholdOutOfRange);
    assert_eq!(
        e.message("1.5"),
        "AEROGYM_REFILL_THRESHOLD must be in the range 0.0–1.0, got 1.5"
    );
}

#[test]
fn agent_config_errors() {
    let mut v = required();
    v.agent_id = Some("  ".to_string());
    let e = Config::from_source(&v).unwrap_err();
    assert_eq!(e.message(""), "AEROGYM_AGENT_ID must not be empty");
    let mut v = required();
    v.ftp_target = None;
    let e = Config::from_source(&v).unwrap_err();
    assert_eq!(e.message(""), "AEROSTRESS_TARGET is required (e.g. 10.0.2.10:21)");
    for s in ["0", "-0.0", "1", "1.0"] {
        let mut v = required();
        v.refill_threshold = threshold(s);
        assert!(Config::from_source(&v).is_ok(), "{s}");
    }
    for s in ["-0.1", "1.0000001", "nan", "inf"] {
        let mut v = required();
        v.refill_threshold = threshold(s);
        assert_eq!(Config::from_source(&v).unwrap_err(), ConfigError::ThresholdOutOfRange, "{s}");
    }
    let mut v = required();
    v.refill_threshold = threshold("much");
    assert_eq!(Config::from_source(&v).unwrap_err(), ConfigError::ThresholdNotANumber);
}

// ── Registration ──────────────────────────────────────────────────────────

#[test]
fn registration_needs_acceptance_and_a_plan() {
    let cfg = Config::from_source(&required()).unwrap();
    let req = make_request(&cfg, "1.2.3");
    assert_eq!((req.agent_id.as_str(), req.agent_version.as_str()), ("a03", "1.2.3"));

    let answer = |accepted: bool, plan: Option<LoadPlan>| RegisterResponse {
        accepted,
        reject_reason: "full".to_string(),
        agent_index: 7,
        load_plan: plan,
    };
    let plan = check_response(answer(true, Some(make_plan(4, 2).proto))).unwrap();
    assert_eq!((plan.agent_index, plan.plan_id()), (7, "test"));
    assert_eq!(
        check_response(answer(false, None)).unwrap_err(),
        "aerocoach rejected registration: full"
    );
    assert_eq!(
        check_response(answer(true, None)).unwrap_err(),
        "aerocoach accepted registration but sent no load plan"
    );
    assert!(tries_again(1) && tries_again(7) && !tries_again(8));
    assert_eq!(exhausted("down"), "registration failed after 8 attempts: down");
}

// ── Session ───────────────────────────────────────────────────────────────

fn command(p: CommandPayload) -> CoachCommand {
    CoachCommand { payload: Some(p) }
}

#[test]
fn a_slice_is_acknowledged_reported_and_filled_up() {
    let mut s = AgentSession::new("a00".to_string(), make_plan(10, 2));
    s.finished(outcome(true));
    let tick = CommandPayload::SliceTick(SliceTick { slice_index: 1, wall_clock_ms: 0 });
    match s.on_command(command(tick), 4) {
        SessionAction::Tick(o) => {
            assert_eq!(o.ack.agent_id, "a00");
            assert!(matches!(
                o.ack.payload,
                Some(ReportPayload::SliceAck(SliceAck { slice_index: 1 }))
            ));
            match o.metrics.unwrap().payload {
                Some(ReportPayload::MetricsUpdate(u)) => {
                    assert_eq!((u.current_slice, u.active_connections), (1, 4));
                    assert_eq!(u.completed_transfers.len(), 1);
                },
                other => panic!("unexpected {other:?}"),
            }
            assert_eq!(o.to_start, 6);
            assert_eq!(o.rate, RateLimiterConfig::from_bps(500_000));
        },
        other => panic!("unexpected {other:?}"),
    }
    let o = s.handle_slice_tick(0, 9);
    assert!(o.metrics.is_none());
    assert_eq!(o.to_start, 0);
}

#[test]
fn transfers_together_keep_the_ceiling() {
    let mut s = AgentSession::new("a00".to_string(), make_plan(4, 1));
    s.plan.proto.total_bandwidth_bps = 1_000_000;
    let o = s.handle_slice_tick(0, 0);
    assert_eq!(o.to_start, 4);
    assert_eq!(o.rate, RateLimiterConfig::from_bps(250_000));
    assert!(u64::from(o.to_start) * o.rate.unwrap().approx_bps() <= 1_000_000);
    let o = s.handle_slice_tick(0, 3);
    assert_eq!((o.to_start, o.rate), (1, RateLimiterConfig::from_bps(250_000)));
    s.plan.proto.total_bandwidth_bps = 0;
    assert_eq!(s.handle_slice_tick(0, 0).rate, None);
    s.plan.proto.total_bandwidth_bps = 3;
    assert_eq!(s.handle_slice_tick(0, 0).rate, None);
}

#[test]
fn transfers_are_numbered() {
    let mut s = AgentSession::new("a00".to_string(), make_plan(10, 2));
    let a = s.start_transfer(3, "xs");
    let b = s.start_transfer(3, "lg");
    assert_eq!((a.conn_id, b.conn_id), (1, 2));
    assert_eq!(a.filename, "a00_s003_c000001.dat");
    assert_eq!(b.filename, "a00_s003_c000002.dat");
    assert_eq!((b.bucket_id.as_str(), b.time_slice, b.rate), ("lg", 3, None));
    let c = s.start_transfer(1, "xs");
    assert_eq!(c.rate, RateLimiterConfig::from_bps(500_000));
    let mut u = empty_update(u32::MAX);
    u.new_bandwidth_bps = Some(2_000_000);
    s.on_command(command(CommandPayload::PlanUpdate(u)), 3);
    assert_eq!(s.start_transfer(1, "xs").rate, RateLimiterConfig::from_bps(100_000));
}

#[test]
fn finished_transfers_are_replaced_early_in_a_slice() {
    let s = AgentSession::new("a00".to_string(), make_plan(10, 2));
    assert!(s.refills(0, 4, true));
    assert!(!s.refills(0, 5, true));
    assert!(!s.refills(0, 4, false));
    assert!(s.refills(1, 9, true));
    assert!(!s.refills(7, 0, true));
}

#[test]
fn agent_follows_updates_and_shutdown() {
    let mut s = AgentSession::new("a00".to_string(), make_plan(10, 1));
    let mut u = empty_update(u32::MAX);
    u.new_total_agents = Some(10);
    assert!(matches!(
        s.on_command(command(CommandPayload::PlanUpdate(u)), 0),
        SessionAction::PlanUpdated
    ));
    assert_eq!(s.plan.my_connections_for_slice(0), 1);
    let stop = ShutdownCmd { graceful: true, reason: "done".to_string() };
    match s.on_command(command(CommandPayload::Shutdown(stop)), 0) {
        SessionAction::Shutdown { graceful, reason } => {
            assert!(graceful);
            assert_eq!(reason, "done");
        },
        other => panic!("unexpected {other:?}"),
    }
    assert!(matches!(s.on_command(CoachCommand { payload: None }, 0), SessionAction::Nothing));
    s.finished(outcome(false));
    for want in [1, 0] {
        match s.last_report().payload {
            Some(ReportPayload::MetricsUpdate(u)) => {
                assert_eq!(u.completed_transfers.len(), want);
                assert_eq!((u.current_slice, u.active_connections), (0, 0));
            },
            other => panic!("unexpected {other:?}"),
        }
    }
    let h = hello("a07");
    assert_eq!(h.agent_id, "a07");
    assert!(h.timestamp_ms > 1_600_000_000_000);
}
