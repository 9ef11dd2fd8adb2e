//! The load plan as it is written in a file: its validation and its form on
//! the wire.

use vstd::prelude::*;

use crate::proto;
use crate::proto::{FileSizeBucket, FileSizeDistribution, LoadPlan, Percentage, TimeSlice};
use crate::text;

verus! {

/// Connections of the whole fleet in one time slice.
#[derive(Debug, Clone, Copy, PartialEq, Eq, Structural)]
pub struct SliceSpec {
    /// Position of the slice, from 0.
    pub slice_index: u32,
    /// Concurrent connections of all agents together.
    pub total_connections: u32,
}

/// One bucket of the file-size histogram.
#[derive(Debug)]
pub struct BucketSpec {
    pub bucket_id: String,
    pub size_min_bytes: u64,
    pub size_max_bytes: u64,
    /// Fraction of the connections that use this bucket.
    pub percentage: Percentage,
}

/// The file-size histogram.
#[derive(Debug)]
pub struct FileDistributionSpec {
    pub buckets: Vec<BucketSpec>,
}

/// A load plan.
#[derive(Debug)]
pub struct LoadPlanFile {
    pub plan_id: String,
    /// Duration of every slice in milliseconds.
    pub slice_duration_ms: u64,
    /// Bytes per second of all agents together; 0 means no limit.
    pub total_bandwidth_bps: u64,
    pub file_distribution: FileDistributionSpec,
    pub slices: Vec<SliceSpec>,
}

/// What is wrong with a plan.
#[derive(Debug, Clone, Copy, PartialEq, Eq, Structural)]
pub enum PlanError {
    EmptyPlanId,
    ZeroSliceDuration,
    NoSlices,
    /// The slice at this position has another index.
    SliceOutOfOrder { position: usize },
    NoBuckets,
    /// The bucket at this position has a blank id.
    EmptyBucketId { position: usize },
    /// The bucket at this position has the id of an earlier one.
    DuplicateBucketId { position: usize },
    /// The smallest size of the bucket at this position is not below the
    /// largest.
    InvertedRange { position: usize },
    /// The fraction of the bucket at this position is not between 0 and 1.
    PercentageOutOfRange { position: usize },
    /// The fractions do not add up to 1, give or take 0.01.
    PercentagesDoNotSumToOne,
}

/// The text of an error; see [`PlanError::message`].
pub open spec fn error_text(e: PlanError, plan: LoadPlanFile, number: Seq<char>) -> Seq<char> {
    let b = plan.file_distribution.buckets@;
    match e {
        PlanError::EmptyPlanId => "plan_id must not be empty"@,
        PlanError::ZeroSliceDuration => "slice_duration_ms must be greater than zero"@,
        PlanError::NoSlices => "plan must contain at least one slice"@,
        PlanError::SliceOutOfOrder { position } => "slice at position "@ + text::decimal(
            position as nat,
        ) + " has slice_index "@ + text::decimal(plan.slices@[position as int].slice_index as nat)
            + "; expected "@ + text::decimal(position as nat)
            + " (slices must be ordered 0, 1, …, n-1 with no gaps)"@,
        PlanError::NoBuckets => "file_distribution must contain at least one bucket"@,
        PlanError::EmptyBucketId { position } => "every bucket must have a non-empty bucket_id"@,
        PlanError::DuplicateBucketId { position } => "duplicate bucket_id "@ + text::debug_text(
            b[position as int].bucket_id@,
        ),
        PlanError::InvertedRange { position } => "bucket "@ + text::debug_text(
            b[position as int].bucket_id@,
        ) + ": size_min_bytes ("@ + text::decimal(b[position as int].size_min_bytes as nat)
            + ") must be less than size_max_bytes ("@ + text::decimal(
            b[position as int].size_max_bytes as nat,
        ) + ")"@,
        PlanError::PercentageOutOfRange { position } => "bucket "@ + text::debug_text(
            b[position as int].bucket_id@,
        ) + ": percentage "@ + number + " is outside [0.0, 1.0]"@,
        PlanError::PercentagesDoNotSumToOne => "bucket percentages sum to "@ + number
            + "; expected 1.0 ± 0.01"@,
    }
}

/// Whether the position that an error names is one of the plan.
pub open spec fn names_position_of(e: PlanError, plan: LoadPlanFile) -> bool {
    match e {
        PlanError::SliceOutOfOrder { position } => position < plan.slices@.len(),
        PlanError::EmptyBucketId { position } => position
            < plan.file_distribution.buckets@.len(),
        PlanError::DuplicateBucketId { position } => position
            < plan.file_distribution.buckets@.len(),
        PlanError::InvertedRange { position } => position < plan.file_distribution.buckets@.len(),
        PlanError::PercentageOutOfRange { position } => position
            < plan.file_distribution.buckets@.len(),
        _ => true,
    }
}

impl PlanError {
    /// The error in words, for the plan that it was found in.
    ///
    /// `number` is how the caller writes the fraction that is out of range, or
    /// the sum of the fractions; the other errors do not use it.
    pub fn message(&self, plan: &LoadPlanFile, number: &str) -> (out: String)
        requires
            names_position_of(*self, *plan),
        ensures
            out@ == error_text(*self, *plan, number@),
    {
        let buckets = &plan.file_distribution.buckets;
        match self {
            PlanError::EmptyPlanId => text::copy_str("plan_id must not be empty"),
            PlanError::ZeroSliceDuration => text::copy_str(
                "slice_duration_ms must be greater than zero",
            ),
            PlanError::NoSlices => text::copy_str("plan must contain at least one slice"),
            PlanError::SliceOutOfOrder { position } => {
                let at = text::decimal_of(*position as u64);
                let mut out = text::copy_str("slice at position ");
                out.push_str(at.as_str());
                out.push_str(" has slice_index ");
                out.push_str(text::decimal_of(plan.slices[*position].slice_index as u64).as_str());
                out.push_str("; expected ");
                out.push_str(at.as_str());
                out.push_str(" (slices must be ordered 0, 1, …, n-1 with no gaps)");
                out
            },
            PlanError::NoBuckets => text::copy_str(
                "file_distribution must contain at least one bucket",
            ),
            PlanError::EmptyBucketId { .. } => text::copy_str(
                "every bucket must have a non-empty bucket_id",
            ),
            PlanError::DuplicateBucketId { position } => {
                let mut out = text::copy_str("duplicate bucket_id ");
                out.push_str(text::quoted(buckets[*position].bucket_id.as_str()).as_str());
                out
            },
            PlanError::InvertedRange { position } => {
                let b = &buckets[*position];
                let mut out = text::copy_str("bucket ");
                out.push_str(text::quoted(b.bucket_id.as_str()).as_str());
                out.push_str(": size_min_bytes (");
                out.push_str(text::decimal_of(b.size_min_bytes).as_str());
                out.push_str(") must be less than size_max_bytes (");
                out.push_str(text::decimal_of(b.size_max_bytes).as_str());
                out.push_str(")");
                out
            },
            PlanError::PercentageOutOfRange { position } => {
                let mut out = text::copy_str("bucket ");
                out.push_str(text::quoted(buckets[*position].bucket_id.as_str()).as_str());
                out.push_str(": percentage ");
                out.push_str(number);
                out.push_str(" is outside [0.0, 1.0]");
                out
            },
            PlanError::PercentagesDoNotSumToOne => {
                let mut out = text::copy_str("bucket percentages sum to ");
                out.push_str(number);
                out.push_str("; expected 1.0 ± 0.01");
                out
            },
        }
    }
}

/// The first slice whose index is not its position, from `i` on.
pub open spec fn bad_slice(slices: Seq<SliceSpec>, i: int) -> Option<int>
    decreases slices.len() - i,
{
    if i < 0 || i >= slices.len() {
        None
    } else if slices[i].slice_index != i {
        Some(i)
    } else {
        bad_slice(slices, i + 1)
    }
}

/// Whether an earlier bucket has the id of bucket `i`.
pub open spec fn repeats(b: Seq<BucketSpec>, i: int) -> bool {
    exists|j: int| 0 <= j < i && (#[trigger] b[j]).bucket_id@ == b[i].bucket_id@
}

/// What is wrong with bucket `i`, given the ones before it.
pub open spec fn bucket_error(b: Seq<BucketSpec>, i: int) -> Option<PlanError> {
    if text::trim(b[i].bucket_id@).len() == 0 {
        Some(PlanError::EmptyBucketId { position: i as usize })
    } else if repeats(b, i) {
        Some(PlanError::DuplicateBucketId { position: i as usize })
    } else if b[i].size_min_bytes >= b[i].size_max_bytes {
        Some(PlanError::InvertedRange { position: i as usize })
    } else if !b[i].percentage.in_unit() {
        Some(PlanError::PercentageOutOfRange { position: i as usize })
    } else {
        None
    }
}

/// The first thing that is wrong with the buckets from `i` on.
pub open spec fn buckets_error(b: Seq<BucketSpec>, i: int) -> Option<PlanError>
    decreases b.len() - i,
{
    if i < 0 || i >= b.len() {
        None
    } else {
        match bucket_error(b, i) {
            Some(e) => Some(e),
            None => buckets_error(b, i + 1),
        }
    }
}

impl LoadPlanFile {
    /// The first thing that is wrong with the plan.
    pub open spec fn first_error(self, percentages_sum_to_one: bool) -> Option<PlanError> {
        if text::trim(self.plan_id@).len() == 0 {
            Some(PlanError::EmptyPlanId)
        } else if self.slice_duration_ms == 0 {
            Some(PlanError::ZeroSliceDuration)
        } else if self.slices@.len() == 0 {
            Some(PlanError::NoSlices)
        } else if bad_slice(self.slices@, 0) is Some {
            Some(
                PlanError::SliceOutOfOrder { position: bad_slice(self.slices@, 0)->0 as usize },
            )
        } else if self.file_distribution.buckets@.len() == 0 {
            Some(PlanError::NoBuckets)
        } else if buckets_error(self.file_distribution.buckets@, 0) is Some {
            buckets_error(self.file_distribution.buckets@, 0)
        } else if !percentages_sum_to_one {
            Some(PlanError::PercentagesDoNotSumToOne)
        } else {
            None
        }
    }

    /// A plan that can be run.
    pub open spec fn valid(self) -> bool {
        &&& text::trim(self.plan_id@).len() > 0
        &&& self.slice_duration_ms > 0
        &&& self.slices@.len() > 0
        &&& forall|i: int|
            0 <= i < self.slices@.len() ==> (#[trigger] self.slices@[i]).slice_index == i
        &&& self.file_distribution.buckets@.len() > 0
        &&& forall|i: int|
            #![trigger self.file_distribution.buckets@[i]]
            0 <= i < self.file_distribution.buckets@.len() ==> {
                let b = self.file_distribution.buckets@[i];
                &&& text::trim(b.bucket_id@).len() > 0
                &&& b.size_min_bytes < b.size_max_bytes
                &&& b.percentage.in_unit()
                &&& !repeats(self.file_distribution.buckets@, i)
            }
    }

    /// Checks the plan and returns the first thing that is wrong with it.
    ///
    /// Whether the fractions of the buckets add up to 1, give or take 0.01, is
    /// for the caller to say. A bandwidth of 0 means no limit and is accepted.
    pub fn validate(&self, percentages_sum_to_one: bool) -> (r: Result<(), PlanError>)
        ensures
            match r {
                Ok(_) => self.first_error(percentages_sum_to_one) is None,
                Err(e) => self.first_error(percentages_sum_to_one) == Some(e) && names_position_of(
                    e,
                    *self,
                ),
            },
    {
        if text::is_blank(self.plan_id.as_str()) {
            return Err(PlanError::EmptyPlanId);
        }
        if self.slice_duration_ms == 0 {
            return Err(PlanError::ZeroSliceDuration);
        }
        if self.slices.len() == 0 {
            return Err(PlanError::NoSlices);
        }
        let mut i: usize = 0;
        while i < self.slices.len()
            invariant
                i <= self.slices@.len(),
                bad_slice(self.slices@, 0) == bad_slice(self.slices@, i as int),
                text::trim(self.plan_id@).len() > 0,
                self.slice_duration_ms > 0,
                self.slices@.len() > 0,
            decreases self.slices@.len() - i,
        {
            if self.slices[i].slice_index as usize != i {
                return Err(PlanError::SliceOutOfOrder { position: i });
            }
            i = i + 1;
        }
        let buckets = &self.file_distribution.buckets;
        if buckets.len() == 0 {
            return Err(PlanError::NoBuckets);
        }
        let mut k: usize = 0;
        while k < buckets.len()
            invariant
                k <= buckets@.len(),
                buckets@ == self.file_distribution.buckets@,
                buckets@.len() > 0,
                bad_slice(self.slices@, 0) is None,
                text::trim(self.plan_id@).len() > 0,
                self.slice_duration_ms > 0,
                self.slices@.len() > 0,
                buckets_error(buckets@, 0) == buckets_error(buckets@, k as int),
            decreases buckets@.len() - k,
        {
            if text::is_blank(buckets[k].bucket_id.as_str()) {
                return Err(PlanError::EmptyBucketId { position: k });
            }
            let mut j: usize = 0;
            while j < k
                invariant
                    j <= k < buckets@.len(),
                    buckets@ == self.file_distribution.buckets@,
                    bad_slice(self.slices@, 0) is None,
                    text::trim(self.plan_id@).len() > 0,
                    self.slice_duration_ms > 0,
                    self.slices@.len() > 0,
                    buckets_error(buckets@, 0) == buckets_error(buckets@, k as int),
                    text::trim(buckets@[k as int].bucket_id@).len() > 0,
                    forall|m: int|
                        0 <= m < j ==> (#[trigger] buckets@[m]).bucket_id@
                            != buckets@[k as int].bucket_id@,
                decreases k - j,
            {
                if text::str_eq(buckets[j].bucket_id.as_str(), buckets[k].bucket_id.as_str()) {
                    assert(repeats(buckets@, k as int));
                    return Err(PlanError::DuplicateBucketId { position: k });
                }
                j = j + 1;
            }
            if buckets[k].size_min_bytes >= buckets[k].size_max_bytes {
                return Err(PlanError::InvertedRange { position: k });
            }
            if !buckets[k].percentage.is_in_unit() {
                return Err(PlanError::PercentageOutOfRange { position: k });
            }
            k = k + 1;
        }
        if !percentages_sum_to_one {
            return Err(PlanError::PercentagesDoNotSumToOne);
        }
        Ok(())
    }

    /// The plan as agents get it. The start time is filled in when the test
    /// starts, and the number of agents is only known at run time.
    pub fn to_proto(&self, total_agents: u32) -> (p: LoadPlan)
        ensures
            p.plan_id@ == self.plan_id@,
            p.start_time_ms == 0,
            p.slice_duration_ms == self.slice_duration_ms,
            p.total_bandwidth_bps == self.total_bandwidth_bps,
            p.total_agents == total_agents,
            p.slices@.len() == self.slices@.len(),
            forall|i: int|
                0 <= i < p.slices@.len() ==> (#[trigger] p.slices@[i]) == (TimeSlice {
                    slice_index: self.slices@[i].slice_index,
                    total_connections: self.slices@[i].total_connections,
                }),
            p.file_distribution is Some,
            p.file_distribution->0.buckets@.len() == self.file_distribution.buckets@.len(),
            forall|i: int|
                0 <= i < self.file_distribution.buckets@.len()
                    ==> (#[trigger] p.file_distribution->0.buckets@[i])@ == (proto::BucketView {
                    bucket_id: self.file_distribution.buckets@[i].bucket_id@,
                    size_min_bytes: self.file_distribution.buckets@[i].size_min_bytes,
                    size_max_bytes: self.file_distribution.buckets@[i].size_max_bytes,
                    percentage: self.file_distribution.buckets@[i].percentage,
                }),
    {
        let slices = to_time_slices(&self.slices);
        let src = &self.file_distribution.buckets;
        let mut buckets: Vec<FileSizeBucket> = Vec::new();
        let mut i: usize = 0;
        while i < src.len()
            invariant
                i <= src@.len(),
                src@ == self.file_distribution.buckets@,
                buckets@.len() == i,
                forall|k: int|
                    0 <= k < i ==> (#[trigger] buckets@[k])@ == (proto::BucketView {
                        bucket_id: src@[k].bucket_id@,
                        size_min_bytes: src@[k].size_min_bytes,
                        size_max_bytes: src@[k].size_max_bytes,
                        percentage: src@[k].percentage,
                    }),
            decreases src@.len() - i,
        {
            buckets.push(
                FileSizeBucket {
                    bucket_id: text::copy_str(src[i].bucket_id.as_str()),
                    size_min_bytes: src[i].size_min_bytes,
                    size_max_bytes: src[i].size_max_bytes,
                    percentage: src[i].percentage,
                },
            );
            i = i + 1;
        }
        LoadPlan {
            plan_id: text::copy_str(self.plan_id.as_str()),
            start_time_ms: 0,
            slice_duration_ms: self.slice_duration_ms,
            slices,
            file_distribution: Some(FileSizeDistribution { buckets }),
            total_bandwidth_bps: self.total_bandwidth_bps,
            total_agents,
        }
    }

    /// The number of slices. A plan that passes validation has at most 2³²
    /// slices; of a longer one the number is taken modulo 2³².
    pub fn total_slices(&self) -> (n: u32)
        ensures
            n == self.slices@.len() as u32,
            self.slices@.len() <= u32::MAX ==> n == self.slices@.len(),
    {
        #[verifier::truncate]
        (self.slices.len() as u32)
    }

    /// The number of agents that a registration is answered with. The true
    /// number follows in an update when the test starts.
    pub fn total_agents_hint(&self) -> (n: u32)
        ensures
            n == 1,
    {
        1
    }
}

/// Slices in the form that agents get.
pub fn to_time_slices(slices: &Vec<SliceSpec>) -> (out: Vec<TimeSlice>)
    ensures
        out@.len() == slices@.len(),
        forall|i: int|
            0 <= i < out@.len() ==> (#[trigger] out@[i]) == (TimeSlice {
                slice_index: slices@[i].slice_index,
                total_connections: slices@[i].total_connections,
            }),
{
    let mut out: Vec<TimeSlice> = Vec::new();
    let mut i: usize = 0;
    while i < slices.len()
        invariant
            i <= slices@.len(),
            out@.len() == i,
            forall|k: int|
                0 <= k < i ==> (#[trigger] out@[k]) == (TimeSlice {
                    slice_index: slices@[k].slice_index,
                    total_connections: slices@[k].total_connections,
                }),
        decreases slices@.len() - i,
    {
        out.push(
            TimeSlice {
                slice_index: slices[i].slice_index,
                total_connections: slices[i].total_connections,
            },
        );
        i = i + 1;
    }
    out
}

proof fn lemma_slices_in_order(slices: Seq<SliceSpec>, i: int)
    requires
        0 <= i <= slices.len(),
        bad_slice(slices, i) is None,
    ensures
        forall|k: int| i <= k < slices.len() ==> (#[trigger] slices[k]).slice_index == k,
    decreases slices.len() - i,
{
    if i < slices.len() {
        lemma_slices_in_order(slices, i + 1);
    }
}

proof fn lemma_buckets_sound(b: Seq<BucketSpec>, i: int)
    requires
        0 <= i <= b.len(),
        buckets_error(b, i) is None,
    ensures
        forall|k: int| #![trigger b[k]] i <= k < b.len() ==> bucket_error(b, k) is None,
    decreases b.len() - i,
{
    if i < b.len() {
        lemma_buckets_sound(b, i + 1);
    }
}

/// A plan that passes validation has a name, a duration, slices numbered from
/// 0 without gaps, and buckets with distinct names, proper ranges and fractions
/// between 0 and 1.
pub proof fn law_validated_plan_is_valid(plan: LoadPlanFile)
    requires
        plan.first_error(true) is None,
    ensures
        plan.valid(),
{
    lemma_slices_in_order(plan.slices@, 0);
    lemma_buckets_sound(plan.file_distribution.buckets@, 0);
}

/// A valid plan passes validation, unless its fractions do not add up.
pub proof fn law_valid_plan_passes(plan: LoadPlanFile)
    requires
        plan.valid(),
    ensures
        plan.first_error(true) is None,
        plan.first_error(false) == Some(PlanError::PercentagesDoNotSumToOne),
{
    lemma_no_bad_slice(plan.slices@, 0);
    lemma_no_bad_bucket(plan.file_distribution.buckets@, 0);
}

proof fn lemma_no_bad_slice(slices: Seq<SliceSpec>, i: int)
    requires
        0 <= i,
        forall|k: int| 0 <= k < slices.len() ==> (#[trigger] slices[k]).slice_index == k,
    ensures
        bad_slice(slices, i) is None,
    decreases slices.len() - i,
{
    if i < slices.len() {
        lemma_no_bad_slice(slices, i + 1);
    }
}

proof fn lemma_no_bad_bucket(b: Seq<BucketSpec>, i: int)
    requires
        0 <= i,
        forall|k: int|
            #![trigger b[k]]
            0 <= k < b.len() ==> text::trim(b[k].bucket_id@).len() > 0 && b[k].size_min_bytes
                < b[k].size_max_bytes && b[k].percentage.in_unit() && !repeats(b, k),
    ensures
        buckets_error(b, i) is None,
    decreases b.len() - i,
{
    if i < b.len() {
        assert(bucket_error(b, i) is None);
        lemma_no_bad_bucket(b, i + 1);
    }
}

proof fn lemma_bad_slice(slices: Seq<SliceSpec>, i: int)
    requires
        0 <= i,
    ensures
        bad_slice(slices, i) matches Some(k) ==> i <= k < slices.len() && slices[k].slice_index != k
            && forall|j: int| i <= j < k ==> (#[trigger] slices[j]).slice_index == j,
    decreases slices.len() - i,
{
    if i < slices.len() && slices[i].slice_index == i {
        lemma_bad_slice(slices, i + 1);
    }
}

proof fn lemma_bad_bucket(b: Seq<BucketSpec>, i: int)
    requires
        0 <= i,
    ensures
        buckets_error(b, i) matches Some(e) ==> exists|k: int|
            i <= k < b.len() && #[trigger] bucket_error(b, k) == Some(e) && forall|j: int|
                i <= j < k ==> #[trigger] bucket_error(b, j) is None,
    decreases b.len() - i,
{
    if i < b.len() {
        match bucket_error(b, i) {
            Some(e) => {},
            None => {
                lemma_bad_bucket(b, i + 1);
                match buckets_error(b, i + 1) {
                    Some(e) => {
                        let k = choose|k: int|
                            i + 1 <= k < b.len() && #[trigger] bucket_error(b, k) == Some(e)
                                && forall|j: int|
                                i + 1 <= j < k ==> #[trigger] bucket_error(b, j) is None;
                        assert(bucket_error(b, k) == Some(e));
                    },
                    None => {},
                }
            },
        }
    }
}

/// Every error says what is the matter with the plan: it names the first slice
/// whose index is not its position, or what is wrong with a bucket before which
/// all buckets are sound.
pub proof fn law_plan_errors_are_true(plan: LoadPlanFile, sums_to_one: bool)
    requires
        plan.slices@.len() <= usize::MAX,
        plan.file_distribution.buckets@.len() <= usize::MAX,
    ensures
        ({
            let b = plan.file_distribution.buckets@;
            let named = text::trim(plan.plan_id@).len() > 0;
            let ordered = forall|k: int|
                0 <= k < plan.slices@.len() ==> (#[trigger] plan.slices@[k]).slice_index == k;
            match plan.first_error(sums_to_one) {
                None => sums_to_one && plan.valid(),
                Some(PlanError::EmptyPlanId) => !named,
                Some(PlanError::ZeroSliceDuration) => named && plan.slice_duration_ms == 0,
                Some(PlanError::NoSlices) => plan.slices@.len() == 0,
                Some(PlanError::SliceOutOfOrder { position }) => {
                    &&& position < plan.slices@.len()
                    &&& plan.slices@[position as int].slice_index != position
                    &&& forall|k: int|
                        0 <= k < position ==> (#[trigger] plan.slices@[k]).slice_index == k
                },
                Some(PlanError::NoBuckets) => ordered && b.len() == 0,
                Some(PlanError::EmptyBucketId { position }) => position < b.len() && text::trim(
                    b[position as int].bucket_id@,
                ).len() == 0,
                Some(PlanError::DuplicateBucketId { position }) => position < b.len() && exists|
                    j: int,
                |
                    0 <= j < position && (#[trigger] b[j]).bucket_id@
                        == b[position as int].bucket_id@,
                Some(PlanError::InvertedRange { position }) => position < b.len()
                    && b[position as int].size_min_bytes >= b[position as int].size_max_bytes,
                Some(PlanError::PercentageOutOfRange { position }) => position < b.len()
                    && b[position as int].percentage.bits > 0x3f80_0000
                    && b[position as int].percentage.bits != 0x8000_0000,
                Some(PlanError::PercentagesDoNotSumToOne) => !sums_to_one && plan.valid(),
            }
        }),
{
    lemma_bad_slice(plan.slices@, 0);
    let b = plan.file_distribution.buckets@;
    lemma_bad_bucket(b, 0);
    if bad_slice(plan.slices@, 0) is None {
        lemma_slices_in_order(plan.slices@, 0);
    }
    match buckets_error(b, 0) {
        Some(e) => {
            let k = choose|k: int| 0 <= k < b.len() && #[trigger] bucket_error(b, k) == Some(e);
            assert(k as usize == k);
        },
        None => {
            lemma_buckets_sound(b, 0);
        },
    }
}

} // verus!
