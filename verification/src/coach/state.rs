//! The state of a coach: the phase of the test run, the plan, the agents and
//! what they have reported.

use vstd::prelude::*;

use crate::coach::load_plan::LoadPlanFile;
use crate::coach::metrics_store::MetricsStore;
use crate::coach::registry::Registry;
use crate::text;

verus! {

/// The phase of the test run.
#[derive(Debug, Clone, Copy, PartialEq, Eq, Structural)]
pub enum CoachState {
    /// Agents may register and the plan may be replaced.
    Waiting,
    /// The clock is running.
    Running {
        /// The slice that is being executed, from 0.
        current_slice: u32,
    },
    /// All slices are over, or the run was stopped.
    Done,
}

/// The phase in words.
pub open spec fn state_text(s: CoachState) -> Seq<char> {
    match s {
        CoachState::Waiting => "WAITING"@,
        CoachState::Running { current_slice } => "RUNNING(slice="@ + text::decimal(
            current_slice as nat,
        ) + ")"@,
        CoachState::Done => "DONE"@,
    }
}

impl CoachState {
    /// Whether the run has not started.
    pub fn is_waiting(&self) -> (yes: bool)
        ensures
            yes == (*self is Waiting),
    {
        matches!(self, CoachState::Waiting)
    }

    /// Whether the clock is running.
    pub fn is_running(&self) -> (yes: bool)
        ensures
            yes == (*self is Running),
    {
        matches!(self, CoachState::Running { .. })
    }

    /// Whether the run is over.
    pub fn is_done(&self) -> (yes: bool)
        ensures
            yes == (*self is Done),
    {
        matches!(self, CoachState::Done)
    }

    /// The slice that is being executed.
    pub fn current_slice(&self) -> (r: Option<u32>)
        ensures
            r == (match *self {
                CoachState::Running { current_slice } => Some(current_slice),
                _ => None,
            }),
    {
        match self {
            CoachState::Running { current_slice } => Some(*current_slice),
            _ => None,
        }
    }

    /// The phase in words.
    pub fn to_string(&self) -> (out: String)
        ensures
            out@ == state_text(*self),
    {
        match self {
            CoachState::Waiting => text::copy_str("WAITING"),
            CoachState::Running { current_slice } => {
                let mut out = text::copy_str("RUNNING(slice=");
                out.push_str(text::decimal_of(*current_slice as u64).as_str());
                out.push_str(")");
                out
            },
            CoachState::Done => text::copy_str("DONE"),
        }
    }
}

/// All that a coach knows.
#[derive(Debug)]
pub struct AppState {
    pub coach_state: CoachState,
    /// The plan, from a file or from a request.
    pub load_plan: Option<LoadPlanFile>,
    pub registry: Registry,
    pub metrics: MetricsStore,
    /// Whether the clock has been asked to stop.
    pub stop_requested: bool,
    /// Directory of the record files.
    pub record_dir: String,
    /// Directory of the plan files.
    pub plan_dir: Option<String>,
    /// Prefix of record files, from the name of the plan file; `None` where the
    /// plan has no file.
    pub plan_filename_stem: Option<String>,
    /// Whether the record file of the current run is open.
    pub record_open: bool,
    /// The record file of the current or last run.
    pub record_file_path: Option<String>,
}

impl AppState {
    /// The registry and the reports are sound.
    pub open spec fn wf(self) -> bool {
        self.registry.wf() && self.metrics.wf()
    }

    /// A coach that waits for agents, without a plan.
    pub fn new() -> (s: AppState)
        ensures
            s.wf(),
            s.coach_state == CoachState::Waiting,
            s.load_plan is None,
            s.registry.agents().len() == 0,
            s.metrics.pending().len() == 0,
            s.metrics.totals@.len() == 0,
            !s.stop_requested,
            s.record_dir@ == "/data/records"@,
            s.plan_dir is None,
            s.plan_filename_stem is None,
            !s.record_open,
            s.record_file_path is None,
    {
        AppState {
            coach_state: CoachState::Waiting,
            load_plan: None,
            registry: Registry::new(),
            metrics: MetricsStore::new(),
            stop_requested: false,
            record_dir: text::copy_str("/data/records"),
            plan_dir: None,
            plan_filename_stem: None,
            record_open: false,
            record_file_path: None,
        }
    }

    /// Back to waiting: all agents and reports are forgotten, the plan stays.
    pub fn reset(&mut self)
        ensures
            final(self).wf(),
            final(self).coach_state == CoachState::Waiting,
            final(self).registry.agents().len() == 0,
            final(self).metrics.pending().len() == 0,
            final(self).metrics.totals@.len() == 0,
            !final(self).stop_requested,
            !final(self).record_open,
            final(self).record_file_path is None,
            final(self).load_plan == old(self).load_plan,
            final(self).record_dir == old(self).record_dir,
            final(self).plan_dir == old(self).plan_dir,
            final(self).plan_filename_stem == old(self).plan_filename_stem,
    {
        self.record_open = false;
        self.record_file_path = None;
        self.coach_state = CoachState::Waiting;
        self.registry = Registry::new();
        self.metrics = MetricsStore::new();
        self.reset_stop();
    }

    /// How many agents have registered.
    pub fn agent_count(&self) -> (n: usize)
        ensures
            n == self.registry.agents().len(),
    {
        self.registry.len()
    }

    /// Asks the clock to stop.
    pub fn signal_stop(&mut self)
        ensures
            *final(self) == (AppState { stop_requested: true, ..*old(self) }),
    {
        self.stop_requested = true;
    }

    /// Withdraws the request to stop.
    pub fn reset_stop(&mut self)
        ensures
            *final(self) == (AppState { stop_requested: false, ..*old(self) }),
    {
        self.stop_requested = false;
    }

    /// Prepares the stop signal for a new run and returns its value: nothing
    /// that was asked of an earlier run counts.
    pub fn renew_stop(&mut self) -> (stop: bool)
        ensures
            !stop,
            *final(self) == (AppState { stop_requested: false, ..*old(self) }),
    {
        self.stop_requested = false;
        self.stop_requested
    }
}

} // verus!
