//! The messages that coach and agents exchange.

use vstd::prelude::*;

use crate::text;

verus! {

/// A fraction, as the bit pattern of a single-precision number.
#[derive(Debug, Clone, Copy, PartialEq, Eq, Structural)]
pub struct Percentage {
    pub bits: u32,
}

impl Percentage {
    /// Whether the number is between 0 and 1, both included: the bit patterns
    /// of the numbers from +0 on are ordered like the numbers, and −0 counts as
    /// 0.
    pub open spec fn in_unit(self) -> bool {
        self.bits <= 0x3f80_0000 || self.bits == 0x8000_0000
    }

    /// Whether the number is between 0 and 1, both included.
    pub fn is_in_unit(&self) -> (yes: bool)
        ensures
            yes == self.in_unit(),
    {
        self.bits <= 0x3f80_0000 || self.bits == 0x8000_0000
    }
}

/// Connections of the whole fleet in one time slice.
#[derive(Debug, Clone, Copy, PartialEq, Eq, Structural)]
pub struct TimeSlice {
    pub slice_index: u32,
    pub total_connections: u32,
}

/// One bucket of the file-size histogram.
#[derive(Debug)]
pub struct FileSizeBucket {
    pub bucket_id: String,
    pub size_min_bytes: u64,
    pub size_max_bytes: u64,
    pub percentage: Percentage,
}

/// A bucket with the text of its id.
pub struct BucketView {
    pub bucket_id: Seq<char>,
    pub size_min_bytes: u64,
    pub size_max_bytes: u64,
    pub percentage: Percentage,
}

impl View for FileSizeBucket {
    type V = BucketView;

    open spec fn view(&self) -> BucketView {
        BucketView {
            bucket_id: self.bucket_id@,
            size_min_bytes: self.size_min_bytes,
            size_max_bytes: self.size_max_bytes,
            percentage: self.percentage,
        }
    }
}

impl Clone for FileSizeBucket {
    fn clone(&self) -> (out: FileSizeBucket)
        ensures
            out@ == self@,
    {
        FileSizeBucket {
            bucket_id: text::copy_str(self.bucket_id.as_str()),
            size_min_bytes: self.size_min_bytes,
            size_max_bytes: self.size_max_bytes,
            percentage: self.percentage,
        }
    }
}

/// The views of a list of buckets.
pub open spec fn bucket_views(v: Seq<FileSizeBucket>) -> Seq<BucketView> {
    Seq::new(v.len(), |i: int| v[i]@)
}

/// Copies a list of buckets.
pub fn copy_buckets(v: &Vec<FileSizeBucket>) -> (out: Vec<FileSizeBucket>)
    ensures
        bucket_views(out@) == bucket_views(v@),
{
    let mut out: Vec<FileSizeBucket> = Vec::new();
    let mut i: usize = 0;
    while i < v.len()
        invariant
            i <= v@.len(),
            out@.len() == i,
            forall|k: int| 0 <= k < i ==> (#[trigger] out@[k])@ == v@[k]@,
        decreases v@.len() - i,
    {
        out.push(v[i].clone());
        i = i + 1;
    }
    assert(bucket_views(out@) =~= bucket_views(v@));
    out
}

/// The file-size histogram.
#[derive(Debug)]
pub struct FileSizeDistribution {
    pub buckets: Vec<FileSizeBucket>,
}

/// The plan as agents get it.
#[derive(Debug)]
pub struct LoadPlan {
    pub plan_id: String,
    pub start_time_ms: i64,
    pub slice_duration_ms: u64,
    pub slices: Vec<TimeSlice>,
    pub file_distribution: Option<FileSizeDistribution>,
    pub total_bandwidth_bps: u64,
    pub total_agents: u32,
}

/// A change of the plan from a slice on.
#[derive(Debug)]
pub struct LoadPlanUpdate {
    pub effective_from_slice: u32,
    pub updated_slices: Vec<TimeSlice>,
    pub new_bandwidth_bps: Option<u64>,
    pub new_file_distribution: Option<FileSizeDistribution>,
    pub new_total_agents: Option<u32>,
}

/// A change of the plan with the texts of its buckets.
pub struct UpdateView {
    pub effective_from_slice: u32,
    pub updated_slices: Seq<TimeSlice>,
    pub new_bandwidth_bps: Option<u64>,
    pub new_buckets: Option<Seq<BucketView>>,
    pub new_total_agents: Option<u32>,
}

impl View for LoadPlanUpdate {
    type V = UpdateView;

    open spec fn view(&self) -> UpdateView {
        UpdateView {
            effective_from_slice: self.effective_from_slice,
            updated_slices: self.updated_slices@,
            new_bandwidth_bps: self.new_bandwidth_bps,
            new_buckets: match self.new_file_distribution {
                Some(d) => Some(bucket_views(d.buckets@)),
                None => None,
            },
            new_total_agents: self.new_total_agents,
        }
    }
}

impl Clone for LoadPlanUpdate {
    fn clone(&self) -> (out: LoadPlanUpdate)
        ensures
            out@ == self@,
    {
        LoadPlanUpdate {
            effective_from_slice: self.effective_from_slice,
            updated_slices: self.updated_slices.clone(),
            new_bandwidth_bps: self.new_bandwidth_bps,
            new_file_distribution: match &self.new_file_distribution {
                Some(d) => Some(FileSizeDistribution { buckets: copy_buckets(&d.buckets) }),
                None => None,
            },
            new_total_agents: self.new_total_agents,
        }
    }
}

/// One finished transfer.
#[derive(Debug)]
pub struct TransferRecord {
    pub filename: String,
    pub bucket_id: String,
    pub bytes_transferred: u64,
    pub file_size_bytes: u64,
    pub bandwidth_kibps: u32,
    pub success: bool,
    pub error_reason: Option<String>,
    pub start_time_ms: i64,
    pub end_time_ms: i64,
    pub time_slice: u32,
}

/// A transfer with the texts of its fields.
pub struct RecordView {
    pub filename: Seq<char>,
    pub bucket_id: Seq<char>,
    pub bytes_transferred: u64,
    pub file_size_bytes: u64,
    pub bandwidth_kibps: u32,
    pub success: bool,
    pub error_reason: Option<Seq<char>>,
    pub start_time_ms: i64,
    pub end_time_ms: i64,
    pub time_slice: u32,
}

impl View for TransferRecord {
    type V = RecordView;

    open spec fn view(&self) -> RecordView {
        RecordView {
            filename: self.filename@,
            bucket_id: self.bucket_id@,
            bytes_transferred: self.bytes_transferred,
            file_size_bytes: self.file_size_bytes,
            bandwidth_kibps: self.bandwidth_kibps,
            success: self.success,
            error_reason: text::opt_text(self.error_reason),
            start_time_ms: self.start_time_ms,
            end_time_ms: self.end_time_ms,
            time_slice: self.time_slice,
        }
    }
}

impl Clone for TransferRecord {
    fn clone(&self) -> (out: TransferRecord)
        ensures
            out@ == self@,
    {
        TransferRecord {
            filename: text::copy_str(self.filename.as_str()),
            bucket_id: text::copy_str(self.bucket_id.as_str()),
            bytes_transferred: self.bytes_transferred,
            file_size_bytes: self.file_size_bytes,
            bandwidth_kibps: self.bandwidth_kibps,
            success: self.success,
            error_reason: text::copy_opt(&self.error_reason),
            start_time_ms: self.start_time_ms,
            end_time_ms: self.end_time_ms,
            time_slice: self.time_slice,
        }
    }
}

/// The views of a list of transfers.
pub open spec fn record_views(v: Seq<TransferRecord>) -> Seq<RecordView> {
    Seq::new(v.len(), |i: int| v[i]@)
}

/// What an agent reports of its transfers.
#[derive(Debug)]
pub struct MetricsUpdate {
    pub current_slice: u32,
    pub active_connections: u32,
    pub queued_connections: u32,
    pub completed_transfers: Vec<TransferRecord>,
}

/// The agent has seen the tick of a slice.
#[derive(Debug, Clone, Copy, PartialEq, Eq, Structural)]
pub struct SliceAck {
    pub slice_index: u32,
}

/// What a report carries.
#[derive(Debug)]
pub enum ReportPayload {
    SliceAck(SliceAck),
    MetricsUpdate(MetricsUpdate),
    PlanAck,
}

/// A message from an agent to the coach.
#[derive(Debug)]
pub struct AgentReport {
    pub agent_id: String,
    pub timestamp_ms: i64,
    pub payload: Option<ReportPayload>,
}

/// The start of a slice.
#[derive(Debug, Clone, Copy, PartialEq, Eq, Structural)]
pub struct SliceTick {
    pub slice_index: u32,
    pub wall_clock_ms: i64,
}

/// The end of a test run.
#[derive(Debug)]
pub struct ShutdownCmd {
    pub graceful: bool,
    pub reason: String,
}

/// What a command carries.
#[derive(Debug)]
pub enum CommandPayload {
    SliceTick(SliceTick),
    PlanUpdate(LoadPlanUpdate),
    Shutdown(ShutdownCmd),
}

/// A command with its texts.
pub enum CommandView {
    SliceTick(SliceTick),
    PlanUpdate(UpdateView),
    Shutdown(bool, Seq<char>),
}

impl View for CommandPayload {
    type V = CommandView;

    open spec fn view(&self) -> CommandView {
        match *self {
            CommandPayload::SliceTick(t) => CommandView::SliceTick(t),
            CommandPayload::PlanUpdate(u) => CommandView::PlanUpdate(u@),
            CommandPayload::Shutdown(s) => CommandView::Shutdown(s.graceful, s.reason@),
        }
    }
}

impl Clone for CommandPayload {
    fn clone(&self) -> (out: CommandPayload)
        ensures
            out@ == self@,
    {
        match self {
            CommandPayload::SliceTick(t) => CommandPayload::SliceTick(*t),
            CommandPayload::PlanUpdate(u) => CommandPayload::PlanUpdate(u.clone()),
            CommandPayload::Shutdown(s) => CommandPayload::Shutdown(
                ShutdownCmd { graceful: s.graceful, reason: text::copy_str(s.reason.as_str()) },
            ),
        }
    }
}

/// A message from the coach to an agent.
#[derive(Debug)]
pub struct CoachCommand {
    pub payload: Option<CommandPayload>,
}

impl View for CoachCommand {
    type V = Option<CommandView>;

    open spec fn view(&self) -> Option<CommandView> {
        match self.payload {
            Some(p) => Some(p@),
            None => None,
        }
    }
}

impl Clone for CoachCommand {
    fn clone(&self) -> (out: CoachCommand)
        ensures
            out@ == self@,
    {
        CoachCommand {
            payload: match &self.payload {
                Some(p) => Some(p.clone()),
                None => None,
            },
        }
    }
}

/// A request to take part in a test.
#[derive(Debug)]
pub struct RegisterRequest {
    pub agent_id: String,
    pub agent_version: String,
    pub private_ip: String,
    pub instance_id: String,
}

/// The answer to a request to take part.
#[derive(Debug)]
pub struct RegisterResponse {
    pub accepted: bool,
    pub reject_reason: String,
    pub agent_index: u32,
    pub load_plan: Option<LoadPlan>,
}

/// The current time in Unix milliseconds, from `chrono::Utc::now`.
///
/// Nothing is promised of the value: it is whatever the system clock says.
#[verifier::external_body]
pub(crate) fn utc_now_ms() -> i64 {
    chrono::Utc::now().timestamp_millis()
}

} // verus!
