use aerosuite::coach::agent_service::{
    can_handle, handle_report, open_session, register, session_check, RpcCode,
};
use aerosuite::coach::clock::{lagging, ClockEvent, ClockPhase, SliceClock, ACK_TIMEOUT_MS};
use aerosuite::coach::control::{
    confirm_plan, get_plan, join_path, last_plan_in_dir, listed, patch_plan, plan_entry,
    plan_files, plans_dir, put_plan, reset, results, select_check, select_commit, set_bandwidth, start_check,
    start_commit, startup_commit, startup_plan, stop, take_tick, Reply, ReplyBody, WriterDeadline,
    BAD_REQUEST, CONFLICT, NOT_FOUND, OK, PRECONDITION_FAILED, UNPROCESSABLE_ENTITY,
    WRITER_CLOSE_MS,
};
use aerosuite::coach::load_plan::{BucketSpec, FileDistributionSpec, LoadPlanFile, SliceSpec};
use aerosuite::coach::registry::{AgentStatus, Registry};
use aerosuite::coach::state::{AppState, CoachState};
use aerosuite::gym::load_plan::AgentPlan;
use aerosuite::proto::{
    AgentReport, CoachCommand, CommandPayload, LoadPlan, MetricsUpdate, Percentage,
    RegisterRequest, ReportPayload, SliceAck, TimeSlice, TransferRecord,
};

fn make_plan(n_slices: u32, slice_duration_ms: u64) -> LoadPlanFile {
    LoadPlanFile {
        plan_id: "clock-test".to_string(),
        slice_duration_ms,
        total_bandwidth_bps: 1_000_000,
        file_distribution: FileDistributionSpec {
            buckets: vec![BucketSpec {
                bucket_id: "xs".to_string(),
                size_min_bytes: 0,
                size_max_bytes: 1024,
                percentage: Percentage { bits: 1.0f32.to_bits() },
            }],
        },
        slices: (0..n_slices)
            .map(|i| SliceSpec { slice_index: i, total_connections: 10 })
            .collect(),
    }
}

fn state_with(n_slices: u32) -> AppState {
    let mut s = AppState::new();
    s.load_plan = Some(make_plan(n_slices, 60_000));
    s
}

fn message(r: &Reply) -> &str {
    match &r.body {
        ReplyBody::Error { message } => message.as_str(),
        other => panic!("unexpected {other:?}"),
    }
}

fn payload(c: Option<CoachCommand>) -> CommandPayload {
    c.unwrap().payload.unwrap()
}

type Commands = tokio::sync::mpsc::Receiver<CoachCommand>;

fn connect(s: &mut AppState, id: &str) -> Commands {
    s.registry.register(id.to_string(), "10.0.0.1".to_string(), "i-x".to_string()).unwrap();
    let (tx, rx) = Registry::new_cmd_channel();
    s.registry.set_session_channel(id, tx);
    rx
}

// ── Clock ─────────────────────────────────────────────────────────────────

/// Lets the timers run until the clock has finished, and returns the slices
/// that were seen.
fn run_clock(s: &mut AppState) -> Vec<u32> {
    let mut clock = match SliceClock::new(s) {
        Some(c) => c,
        None => return vec![],
    };
    let mut seen = vec![];
    while clock.phase != ClockPhase::Finished {
        let event = match clock.phase {
            ClockPhase::Acks { .. } => ClockEvent::AckTimeout,
            _ => ClockEvent::Tick,
        };
        let event = if s.stop_requested { ClockEvent::Stop } else { event };
        clock.step(s, event);
        if let Some(n) = s.coach_state.current_slice() {
            if seen.last() != Some(&n) {
                seen.push(n);
            }
        }
    }
    seen
}

#[test]
fn clock_completes_all_slices_no_agents() {
    let mut s = state_with(3);
    run_clock(&mut s);
    assert!(s.coach_state.is_done());
}

#[test]
fn clock_visits_each_slice_in_order() {
    let mut s = state_with(3);
    assert_eq!(run_clock(&mut s), [0, 1, 2]);
    assert!(s.coach_state.is_done());
}

#[test]
fn stop_signal_terminates_clock_early() {
    let mut s = state_with(5);
    s.signal_stop();
    assert!(run_clock(&mut s).is_empty());
    assert!(s.coach_state.is_done());
}

#[test]
fn ack_timeout_does_not_stall_clock() {
    let mut s = state_with(2);
    let _rx = connect(&mut s, "a00");
    assert_eq!(run_clock(&mut s), [0, 1]);
    assert!(s.coach_state.is_done());
}

#[test]
fn prompt_ack_advances_clock_immediately() {
    let mut s = state_with(2);
    let mut rx = connect(&mut s, "a00");
    let mut clock = SliceClock::new(&mut s).unwrap();
    clock.step_at(&mut s, ClockEvent::Tick, 11);
    assert_eq!(clock.phase, ClockPhase::Tick { next: 1 });
    clock.step_at(&mut s, ClockEvent::Tick, 22);
    assert_eq!(clock.phase, ClockPhase::Acks { slice: 1 });
    s.registry.update_slice("a00", 1);
    let step = clock.step_at(&mut s, ClockEvent::Ack, 33);
    assert!(step.command.is_none());
    assert_eq!(clock.phase, ClockPhase::LastSlice);
    let mut ticks = vec![];
    while let Ok(c) = rx.try_recv() {
        match c.payload {
            Some(CommandPayload::SliceTick(t)) => ticks.push((t.slice_index, t.wall_clock_ms)),
            other => panic!("unexpected {other:?}"),
        }
    }
    assert_eq!(ticks, [(0, 11), (1, 22)]);
    clock.step_at(&mut s, ClockEvent::Tick, 44);
    assert!(s.coach_state.is_done());
    match payload(rx.try_recv().ok()) {
        CommandPayload::Shutdown(c) => {
            assert!(c.graceful);
            assert_eq!(c.reason, "test complete");
        },
        other => panic!("unexpected {other:?}"),
    }
}

#[test]
fn no_plan_exits_cleanly() {
    let mut s = AppState::new();
    assert!(SliceClock::new(&mut s).is_none());
    assert!(s.coach_state.is_done());
}

#[test]
fn lagging_agents_are_named_and_stop_gives_its_reason() {
    let mut s = state_with(3);
    let _rx = connect(&mut s, "slow");
    let mut clock = SliceClock::new(&mut s).unwrap();
    assert_eq!((clock.slice_duration_ms, clock.total_slices), (60_000, 3));
    clock.step(&mut s, ClockEvent::Tick);
    clock.step(&mut s, ClockEvent::Tick);
    assert_eq!(lagging(&s, 1), ["slow"]);
    let mut other = clock;
    let step = other.step(&mut s, ClockEvent::Stop);
    match payload(step.command) {
        CommandPayload::Shutdown(c) => assert_eq!(c.reason, "stop during ack wait"),
        other => panic!("unexpected {other:?}"),
    }
    assert!(s.coach_state.is_done());
    let step = clock.step(&mut s, ClockEvent::AckTimeout);
    assert_eq!(step.lagging, ["slow"]);
    assert_eq!(clock.phase, ClockPhase::Tick { next: 2 });
    assert_eq!(ACK_TIMEOUT_MS, 5_000);
}

// ── Plan requests ─────────────────────────────────────────────────────────

#[test]
fn plans_are_replaced_only_while_waiting() {
    let mut s = AppState::new();
    let r = get_plan(&s).unwrap();
    assert_eq!(r.status, NOT_FOUND);
    assert_eq!(message(&r), "no plan is loaded; supply one via PUT /plan");

    let mut bad = make_plan(1, 5);
    bad.plan_id = "".to_string();
    let r = put_plan(&mut s, bad, true, "");
    assert_eq!((r.status, message(&r)), (UNPROCESSABLE_ENTITY, "plan_id must not be empty"));

    s.plan_filename_stem = Some("old".to_string());
    let r = put_plan(&mut s, make_plan(2, 5), true, "");
    assert_eq!(r.status, OK);
    assert!(matches!(r.body, ReplyBody::Plan { ref plan_id } if plan_id == "clock-test"));
    assert!(s.plan_filename_stem.is_none());
    assert!(get_plan(&s).is_none());

    s.coach_state = CoachState::Running { current_slice: 1 };
    let r = put_plan(&mut s, make_plan(3, 5), true, "");
    assert_eq!(r.status, CONFLICT);
    assert_eq!(
        message(&r),
        "cannot replace plan while in state RUNNING(slice=1); plan replacement requires WAITING"
    );
    assert_eq!(s.load_plan.as_ref().unwrap().total_slices(), 2);
}

#[test]
fn patches_change_slices_and_reach_agents_while_running() {
    let mut s = state_with(3);
    let mut rx = connect(&mut s, "a00");
    let change = vec![
        SliceSpec { slice_index: 2, total_connections: 77 },
        SliceSpec { slice_index: 9, total_connections: 1 },
    ];
    let r = patch_plan(&mut s, 1, &change, None);
    assert!(r.command.is_none() && r.status == OK);
    let plan = s.load_plan.as_ref().unwrap();
    let got: Vec<u32> = plan.slices.iter().map(|x| x.total_connections).collect();
    assert_eq!(got, [10, 10, 77]);
    assert_eq!(plan.total_bandwidth_bps, 1_000_000);

    s.coach_state = CoachState::Running { current_slice: 0 };
    let r = patch_plan(&mut s, 1, &change, Some(5));
    assert_eq!(r.sent, 1);
    match payload(rx.try_recv().ok()) {
        CommandPayload::PlanUpdate(u) => {
            assert_eq!(u.effective_from_slice, 1);
            let sent: Vec<(u32, u32)> =
                u.updated_slices.iter().map(|x| (x.slice_index, x.total_connections)).collect();
            assert_eq!(sent, [(1, 10), (2, 77)]);
            assert_eq!(u.new_bandwidth_bps, Some(5));
            assert_eq!(u.new_total_agents, None);
        },
        other => panic!("unexpected {other:?}"),
    }
    assert_eq!(s.load_plan.as_ref().unwrap().total_bandwidth_bps, 5);

    s.coach_state = CoachState::Done;
    let r = patch_plan(&mut s, 1, &change, None);
    assert_eq!((r.status, message(&r)), (CONFLICT, "cannot patch plan in DONE state"));
    let mut none = AppState::new();
    let r = patch_plan(&mut none, 0, &vec![], None);
    assert_eq!((r.status, message(&r)), (NOT_FOUND, "no plan is loaded"));
}

#[test]
fn patches_leave_slices_before_their_boundary_alone() {
    let mut s = state_with(3);
    let change = vec![
        SliceSpec { slice_index: 0, total_connections: 1 },
        SliceSpec { slice_index: 1, total_connections: 2 },
        SliceSpec { slice_index: 2, total_connections: 3 },
        SliceSpec { slice_index: 1, total_connections: 4 },
    ];
    patch_plan(&mut s, 1, &change, None);
    let plan = s.load_plan.as_ref().unwrap();
    let got: Vec<(u32, u32)> =
        plan.slices.iter().map(|x| (x.slice_index, x.total_connections)).collect();
    assert_eq!(got, [(0, 10), (1, 4), (2, 3)]);
    patch_plan(&mut s, 3, &change, None);
    let plan = s.load_plan.as_ref().unwrap();
    assert_eq!(plan.slices[2].total_connections, 3);
}

#[test]
fn coach_and_agents_plan_the_same_after_a_patch() {
    let mut s = state_with(3);
    let mut rx = connect(&mut s, "a00");
    let slices = s.load_plan.as_ref().unwrap().slices.iter();
    let proto = LoadPlan {
        plan_id: "p".to_string(),
        slice_duration_ms: 1,
        total_bandwidth_bps: 0,
        total_agents: 1,
        slices: slices
            .map(|x| TimeSlice {
                slice_index: x.slice_index,
                total_connections: x.total_connections,
            })
            .collect(),
        file_distribution: None,
        start_time_ms: 0,
    };
    let mut agent = AgentPlan::new(proto, 0);
    s.coach_state = CoachState::Running { current_slice: 0 };
    let change = vec![
        SliceSpec { slice_index: 0, total_connections: 99 },
        SliceSpec { slice_index: 7, total_connections: 8 },
        SliceSpec { slice_index: 1, total_connections: 4 },
        SliceSpec { slice_index: 1, total_connections: 5 },
    ];
    patch_plan(&mut s, 1, &change, None);
    match payload(rx.try_recv().ok()) {
        CommandPayload::PlanUpdate(u) => agent.apply_update(u),
        other => panic!("unexpected {other:?}"),
    }
    for x in &s.load_plan.as_ref().unwrap().slices {
        assert_eq!(agent.my_connections_for_slice(x.slice_index), x.total_connections);
    }
    assert_eq!(agent.my_connections_for_slice(0), 10);
    assert_eq!(agent.my_connections_for_slice(1), 5);
    assert_eq!(agent.my_connections_for_slice(2), 10);
    assert_eq!(agent.my_connections_for_slice(7), 0);

    s.coach_state = CoachState::Running { current_slice: 1 };
    set_bandwidth(&mut s, 12);
    match payload(rx.try_recv().ok()) {
        CommandPayload::PlanUpdate(u) => agent.apply_update(u),
        other => panic!("unexpected {other:?}"),
    }
    assert_eq!(agent.my_bandwidth_bps(), 12);
    for x in &s.load_plan.as_ref().unwrap().slices {
        assert_eq!(agent.my_connections_for_slice(x.slice_index), x.total_connections);
    }
}

#[test]
fn plans_are_listed_with_their_ids() {
    let entry = |raw: Option<&str>| {
        let e = plan_entry("night.json", &raw.map(|s| s.to_string()));
        assert_eq!(e.filename, "night.json");
        e.plan_id
    };
    assert_eq!(entry(Some("{\"slices\": [], \"plan_id\": \"ramp \\u00e9\"}")), "ramp é");
    assert_eq!(entry(Some("{\"plan_id\": 7}")), "night.json");
    assert_eq!(entry(Some("{\"plan\": \"x\"}")), "night.json");
    assert_eq!(entry(Some("[\"plan_id\"]")), "night.json");
    assert_eq!(entry(Some("{\"plan_id\": \"x\"")), "night.json");
    assert_eq!(entry(None), "night.json");
    assert_eq!(listed("a.json", Some("id".to_string())).plan_id, "id");
    assert_eq!(listed("a.json", None).plan_id, "a.json");
}

#[test]
fn confirming_makes_agents_register_again() {
    let mut s = AppState::new();
    let r = confirm_plan(&mut s);
    assert_eq!(r.status, PRECONDITION_FAILED);
    assert_eq!(message(&r), "no plan loaded; select a plan before confirming");
    s.load_plan = Some(make_plan(1, 5));
    let mut rx = connect(&mut s, "a00");
    s.registry.ack_plan("a00");
    assert_eq!(s.registry.plan_ack_count(), 1);
    let r = confirm_plan(&mut s);
    assert_eq!(s.registry.plan_ack_count(), 0);
    assert!(matches!(r.body, ReplyBody::Confirmed { agents_notified: 1 }));
    match payload(rx.try_recv().ok()) {
        CommandPayload::Shutdown(c) => {
            assert!(!c.graceful);
            assert_eq!(c.reason, "plan confirmed — re-register to receive the updated plan");
        },
        other => panic!("unexpected {other:?}"),
    }
    s.coach_state = CoachState::Done;
    let r = confirm_plan(&mut s);
    assert_eq!(message(&r), "cannot confirm plan while in state DONE; must be WAITING");
}

#[test]
fn plan_files_are_sorted_and_the_last_one_starts() {
    let names: Vec<String> = ["b.json", "notes.txt", ".json", "a.json", "c.JSON", "x.json.bak"]
        .iter()
        .map(|s| s.to_string())
        .collect();
    assert_eq!(plan_files(&names), ["a.json", "b.json"]);
    assert_eq!(last_plan_in_dir(&names).as_deref(), Some("b.json"));
    assert_eq!(last_plan_in_dir(&vec!["x".to_string()]), None);
    assert_eq!(join_path("/a", "b"), "/a/b");
    assert_eq!(join_path("/a/", "b"), "/a/b");
}

#[test]
fn startup_prefers_the_plan_directory() {
    let dir = Some("/plans".to_string());
    let file = Some("/etc/plan.json".to_string());
    let names = Some(vec!["b.json".to_string(), "a.json".to_string(), "z.txt".to_string()]);
    assert_eq!(startup_plan(&dir, &file, &names).as_deref(), Some("/plans/b.json"));
    assert_eq!(startup_plan(&dir, &file, &Some(vec![])), None);
    assert_eq!(startup_plan(&dir, &file, &None), None);
    assert_eq!(startup_plan(&None, &file, &None), file);
    assert_eq!(startup_plan(&None, &None, &names), None);

    let mut s = AppState::new();
    startup_commit(&mut s, &Some("my plan (2)".to_string()), make_plan(1, 1000));
    assert_eq!(s.plan_filename_stem.as_deref(), Some("my_plan_2"));
    assert_eq!(s.load_plan.as_ref().map(|p| p.total_slices()), Some(1));
    startup_commit(&mut s, &None, make_plan(2, 1000));
    assert_eq!(s.plan_filename_stem.as_deref(), Some("clock-test"));
}

#[test]
fn selecting_a_plan_keeps_to_the_directory() {
    let mut s = AppState::new();
    let r = select_check(&s, "a.json").unwrap_err();
    assert_eq!(r.status, NOT_FOUND);
    let r = plans_dir(&s).unwrap_err();
    assert_eq!(message(&r), "no plan directory configured (AEROCOACH_PLAN_DIR not set)");
    s.plan_dir = Some("/plans".to_string());
    assert_eq!(plans_dir(&s).unwrap(), "/plans");
    for name in ["../a.json", "x/a.json", "x\\a.json", "a..json"] {
        let r = select_check(&s, name).unwrap_err();
        assert_eq!(
            (r.status, message(&r)),
            (BAD_REQUEST, "filename must not contain path separators")
        );
    }
    let r = select_check(&s, "a.txt").unwrap_err();
    assert_eq!((r.status, message(&r)), (BAD_REQUEST, "filename must end with .json"));
    assert_eq!(select_check(&s, "01 fast.json").unwrap(), "/plans/01 fast.json");
    let r = select_commit(&mut s, "01 fast.json", make_plan(1, 5));
    assert!(matches!(r.body, ReplyBody::Plan { ref plan_id } if plan_id == "clock-test"));
    assert_eq!(s.plan_filename_stem.as_deref(), Some("01_fast"));
    s.coach_state = CoachState::Done;
    assert_eq!(
        message(&select_check(&s, "a.json").unwrap_err()),
        "cannot select plan while in state DONE; must be WAITING"
    );
}

// ── Test run ──────────────────────────────────────────────────────────────

#[test]
fn a_run_from_start_to_reset() {
    let mut s = AppState::new();
    assert_eq!(start_check(&s).unwrap_err().status, PRECONDITION_FAILED);
    s.load_plan = Some(make_plan(1, 5));
    assert_eq!(start_check(&s).unwrap(), "clock-test");
    s.plan_filename_stem = Some("stem".to_string());
    assert_eq!(start_check(&s).unwrap(), "stem");
    assert_eq!(message(&stop(&mut s)), "cannot stop: coach is in state WAITING, must be RUNNING");
    let (r, told) = reset(&mut s);
    assert_eq!(message(&r), "cannot reset: coach is in state WAITING, must be DONE");
    assert!(told.is_none());
    assert_eq!(results(&s).unwrap_err().status, NOT_FOUND);

    let mut rx = connect(&mut s, "a00");
    s.registry.register("a01".to_string(), "".to_string(), "".to_string()).unwrap();
    s.signal_stop();
    let r = start_commit(&mut s, Some("/data/records/x.ndjson".to_string()));
    assert!(matches!(r.body, ReplyBody::Started { agents: 1 }));
    assert_eq!(s.coach_state, CoachState::Running { current_slice: 0 });
    assert!(!s.stop_requested && s.record_open);
    assert_eq!(results(&s).unwrap(), "/data/records/x.ndjson");
    match payload(rx.try_recv().ok()) {
        CommandPayload::PlanUpdate(u) => {
            assert_eq!(u.effective_from_slice, u32::MAX);
            assert!(u.updated_slices.is_empty());
            assert_eq!(u.new_total_agents, Some(2));
        },
        other => panic!("unexpected {other:?}"),
    }
    assert_eq!(
        message(&start_check(&s).unwrap_err()),
        "cannot start: coach is in state RUNNING(slice=0), must be WAITING"
    );
    assert!(matches!(stop(&mut s).body, ReplyBody::Stopping));
    assert!(s.stop_requested);

    s.coach_state = CoachState::Done;
    let (r, told) = reset(&mut s);
    let told = told.unwrap();
    assert!(told.contains("a00") && told.contains("a01") && told.len() == 2);
    assert!(matches!(r.body, ReplyBody::Waiting));
    assert_eq!(r.sent, 1);
    match payload(rx.try_recv().ok()) {
        CommandPayload::Shutdown(c) => {
            assert!(!c.graceful);
            assert_eq!(c.reason, "coach reset — abort and re-register");
        },
        other => panic!("unexpected {other:?}"),
    }
    assert!(s.coach_state.is_waiting());
    assert_eq!(s.agent_count(), 0);
    assert!(s.load_plan.is_some() && !s.record_open && s.record_file_path.is_none());
}

#[test]
fn bandwidth_is_set_and_sent() {
    let mut s = state_with(2);
    let r = set_bandwidth(&mut s, 0);
    assert_eq!(r.status, UNPROCESSABLE_ENTITY);
    assert_eq!(message(&r), "total_bandwidth_bps must be greater than zero");
    let mut rx = connect(&mut s, "a00");
    let r = set_bandwidth(&mut s, 9);
    assert!(matches!(r.body, ReplyBody::Bandwidth { total_bandwidth_bps: 9 }));
    assert!(r.command.is_none());
    s.coach_state = CoachState::Running { current_slice: 1 };
    set_bandwidth(&mut s, 8);
    match payload(rx.try_recv().ok()) {
        CommandPayload::PlanUpdate(u) => {
            assert_eq!(u.effective_from_slice, u32::MAX);
            assert!(u.updated_slices.is_empty());
            assert_eq!(u.new_bandwidth_bps, Some(8));
        },
        other => panic!("unexpected {other:?}"),
    }
    s.coach_state = CoachState::Done;
    assert_eq!(message(&set_bandwidth(&mut s, 7)), "cannot update bandwidth in DONE state");
    s.coach_state = CoachState::Waiting;
    s.load_plan = None;
    assert_eq!(message(&set_bandwidth(&mut s, 7)), "no plan is loaded");
}

#[test]
fn record_files_close_when_agents_have_drained() {
    let busy = vec![AgentStatus {
        agent_id: "a".to_string(),
        agent_index: 0,
        private_ip: "".to_string(),
        instance_id: "".to_string(),
        current_slice: 0,
        active_connections: 2,
        connected: true,
        plan_acked: false,
    }];
    let idle = vec![];
    let mut d = WriterDeadline { at_ms: None };
    assert!(!d.tick(false, 10, &idle).close);
    let c = d.tick(true, 1000, &busy);
    assert!(!c.close);
    assert_eq!(d.at_ms, Some(1000 + WRITER_CLOSE_MS));
    assert!(!d.tick(true, 120_999, &busy).close);
    let c = d.tick(true, 121_000, &busy);
    assert!(c.close && c.forced);
    let c = d.tick(true, 2000, &idle);
    assert!(c.close && !c.forced);
    d.tick(false, 3000, &busy);
    assert_eq!(d.at_ms, None);
}

// ── Agents ────────────────────────────────────────────────────────────────

fn request(id: &str) -> RegisterRequest {
    RegisterRequest {
        agent_id: id.to_string(),
        agent_version: "1".to_string(),
        private_ip: "10.0.0.9".to_string(),
        instance_id: "i-9".to_string(),
    }
}

#[test]
fn registration_is_answered_with_index_and_plan() {
    let mut s = AppState::new();
    let e = register(&mut s, request("a00")).unwrap_err();
    assert_eq!(e.code, RpcCode::FailedPrecondition);
    assert_eq!(
        e.message,
        "no load plan is loaded; supply one via AEROCOACH_PLAN_FILE or PUT /plan"
    );
    s.load_plan = Some(make_plan(2, 5));
    let a = register(&mut s, request("a00")).unwrap();
    let b = register(&mut s, request("a01")).unwrap();
    assert!(a.accepted && a.reject_reason.is_empty());
    assert_eq!((a.agent_index, b.agent_index), (0, 1));
    let plan = a.load_plan.unwrap();
    assert_eq!((plan.total_agents, plan.slices.len(), plan.start_time_ms), (1, 2, 0));

    let (tx, _rx) = Registry::new_cmd_channel();
    s.registry.set_session_channel("a00", tx);
    let e = register(&mut s, request("a00")).unwrap_err();
    assert_eq!(e.code, RpcCode::AlreadyExists);
    assert_eq!(e.message, "agent \"a00\" is already registered and connected");

    s.coach_state = CoachState::Running { current_slice: 0 };
    let e = register(&mut s, request("a02")).unwrap_err();
    assert_eq!(
        e.message,
        "aerocoach is in state RUNNING(slice=0); registrations are only accepted while WAITING"
    );
}

#[test]
fn sessions_need_a_registered_agent() {
    let mut s = state_with(1);
    let e = session_check(&s, "").unwrap_err();
    assert_eq!(e.code, RpcCode::InvalidArgument);
    assert_eq!(e.message, "first AgentReport must contain a non-empty agent_id");
    let e = session_check(&s, "x\ny").unwrap_err();
    assert_eq!(e.code, RpcCode::NotFound);
    assert_eq!(e.message, "agent \"x\\ny\" has not registered; call Register first");
    register(&mut s, request("a00")).unwrap();
    assert!(session_check(&s, "a00").is_ok());
    let (tx, _rx) = Registry::new_cmd_channel();
    let first = report("a00", Some(ReportPayload::SliceAck(SliceAck { slice_index: 3 })));
    assert_eq!(open_session(&mut s, &first, tx), 1);
    assert_eq!(s.registry.entries[0].current_slice, 3);
}

fn report(id: &str, p: Option<ReportPayload>) -> AgentReport {
    AgentReport { agent_id: id.to_string(), timestamp_ms: 0, payload: p }
}

fn transfers(n: usize) -> ReportPayload {
    ReportPayload::MetricsUpdate(MetricsUpdate {
        current_slice: 0,
        active_connections: 4,
        queued_connections: 0,
        completed_transfers: (0..n)
            .map(|_| TransferRecord {
                filename: "f".to_string(),
                bucket_id: "xs".to_string(),
                bytes_transferred: 10,
                file_size_bytes: 10,
                bandwidth_kibps: 1,
                success: true,
                error_reason: None,
                start_time_ms: 0,
                end_time_ms: 1,
                time_slice: 0,
            })
            .collect(),
    })
}

#[test]
fn reports_change_the_state() {
    let mut s = state_with(1);
    let _rx = connect(&mut s, "a00");
    assert!(handle_report(&mut s, &report("a00", Some(ReportPayload::SliceAck(SliceAck { slice_index: 2 })))));
    assert_eq!(s.registry.entries[0].current_slice, 2);
    assert!(!handle_report(&mut s, &report("a00", Some(ReportPayload::PlanAck))));
    assert_eq!(s.registry.plan_ack_count(), 1);
    assert!(!handle_report(&mut s, &report("a00", None)));

    let late = report("a00", Some(transfers(2)));
    handle_report(&mut s, &late);
    assert_eq!(s.metrics.total_count(), 0);
    assert_eq!(s.registry.entries[0].active_connections, 0);

    s.coach_state = CoachState::Running { current_slice: 0 };
    assert!(can_handle(&s, &late));
    handle_report(&mut s, &late);
    assert_eq!(s.metrics.total_count(), 2);
    assert_eq!(s.registry.entries[0].active_connections, 4);

    let d = take_tick(&mut s);
    assert_eq!((d.drained.len(), d.snapshot.len(), d.totals.len()), (2, 1, 1));
    assert_eq!((d.totals[0].bytes_transferred, d.current_slice, d.total_slices), (20, 0, 1));
    assert!(take_tick(&mut s).drained.is_empty());
}
