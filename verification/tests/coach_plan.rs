use aerosuite::coach::distributor::{per_agent_bandwidth, per_agent_connections};
use aerosuite::coach::load_plan::{
    BucketSpec, FileDistributionSpec, LoadPlanFile, PlanError, SliceSpec,
};
use aerosuite::proto::Percentage;

fn fraction(f: f32) -> Percentage {
    Percentage { bits: f.to_bits() }
}

fn bucket(id: &str, min: u64, max: u64, f: f32) -> BucketSpec {
    BucketSpec {
        bucket_id: id.to_string(),
        size_min_bytes: min,
        size_max_bytes: max,
        percentage: fraction(f),
    }
}

fn slice(index: u32, connections: u32) -> SliceSpec {
    SliceSpec { slice_index: index, total_connections: connections }
}

fn minimal_plan() -> LoadPlanFile {
    LoadPlanFile {
        plan_id: "test".to_string(),
        slice_duration_ms: 60_000,
        total_bandwidth_bps: 10_000_000,
        file_distribution: FileDistributionSpec {
            buckets: vec![bucket("xs", 0, 10_485_760, 1.0)],
        },
        slices: vec![slice(0, 10)],
    }
}

/// Whether the fractions add up to 1, give or take 0.01.
fn sums_to_one(p: &LoadPlanFile) -> bool {
    let mut sum = 0.0f64;
    for b in &p.file_distribution.buckets {
        sum += f32::from_bits(b.percentage.bits) as f64;
    }
    (sum - 1.0).abs() <= 0.01
}

fn validate(p: &LoadPlanFile) -> Result<(), PlanError> {
    p.validate(sums_to_one(p))
}

// ── Shares ────────────────────────────────────────────────────────────────

#[test]
fn connections_divides_evenly() {
    for i in 0..4 {
        assert_eq!(per_agent_connections(12, i, 4), 3);
    }
}

#[test]
fn connections_remainder_distributed_to_front() {
    assert_eq!(per_agent_connections(10, 0, 3), 4);
    assert_eq!(per_agent_connections(10, 1, 3), 3);
    assert_eq!(per_agent_connections(10, 2, 3), 3);
}

#[test]
fn connections_sum_always_matches_fleet_total() {
    for total in [0u32, 1, 7, 10, 99, 100, 101] {
        for n_agents in 1u32..=10 {
            let sum: u32 = (0..n_agents).map(|i| per_agent_connections(total, i, n_agents)).sum();
            assert_eq!(sum, total, "sum mismatch for total={total} n_agents={n_agents}");
        }
    }
}

#[test]
fn connections_zero_total() {
    for i in 0..5 {
        assert_eq!(per_agent_connections(0, i, 5), 0);
    }
}

#[test]
fn connections_single_agent_gets_all() {
    assert_eq!(per_agent_connections(42, 0, 1), 42);
}

#[test]
fn connections_more_agents_than_connections() {
    for i in 0..3 {
        assert_eq!(per_agent_connections(3, i, 10), 1);
    }
    for i in 3..10 {
        assert_eq!(per_agent_connections(3, i, 10), 0);
    }
}

#[test]
fn bandwidth_divides_evenly() {
    assert_eq!(per_agent_bandwidth(104_857_600, 4), 26_214_400);
}

#[test]
fn bandwidth_truncates_remainder() {
    assert_eq!(per_agent_bandwidth(10, 3), 3);
}

#[test]
fn bandwidth_single_agent_gets_all() {
    assert_eq!(per_agent_bandwidth(999_999, 1), 999_999);
}

#[test]
fn shares_of_the_first_agents_are_not_smaller() {
    for i in 0..6u32 {
        let here = per_agent_connections(100, i, 7);
        let next = per_agent_connections(100, i + 1, 7);
        assert!(next <= here && here <= next + 1);
    }
}

#[test]
fn bandwidth_loses_less_than_a_byte_per_agent() {
    let total = 1_000_003u64;
    let all = 7 * per_agent_bandwidth(total, 7);
    assert!(all <= total && total < all + 7);
}

// ── Validation ────────────────────────────────────────────────────────────

#[test]
fn valid_plan_passes() {
    assert!(validate(&minimal_plan()).is_ok());
}

#[test]
fn empty_plan_id_rejected() {
    let mut p = minimal_plan();
    p.plan_id = "  ".to_string();
    assert_eq!(validate(&p), Err(PlanError::EmptyPlanId));
}

#[test]
fn zero_slice_duration_rejected() {
    let mut p = minimal_plan();
    p.slice_duration_ms = 0;
    assert_eq!(validate(&p), Err(PlanError::ZeroSliceDuration));
}

#[test]
fn zero_bandwidth_means_unlimited() {
    let mut p = minimal_plan();
    p.total_bandwidth_bps = 0;
    assert!(validate(&p).is_ok());
}

#[test]
fn no_slices_rejected() {
    let mut p = minimal_plan();
    p.slices.clear();
    assert_eq!(validate(&p), Err(PlanError::NoSlices));
}

#[test]
fn gap_in_slice_indices_rejected() {
    let mut p = minimal_plan();
    p.slices.push(slice(2, 20));
    assert_eq!(validate(&p), Err(PlanError::SliceOutOfOrder { position: 1 }));
}

#[test]
fn duplicate_bucket_id_rejected() {
    let mut p = minimal_plan();
    p.file_distribution.buckets.push(bucket("xs", 0, 1024, 0.0));
    assert_eq!(validate(&p), Err(PlanError::DuplicateBucketId { position: 1 }));
}

#[test]
fn inverted_bucket_range_rejected() {
    let mut p = minimal_plan();
    p.file_distribution.buckets[0].size_min_bytes = 1024;
    p.file_distribution.buckets[0].size_max_bytes = 512;
    assert_eq!(validate(&p), Err(PlanError::InvertedRange { position: 0 }));
}

#[test]
fn percentages_not_summing_to_one_rejected() {
    let mut p = minimal_plan();
    p.file_distribution.buckets[0].percentage = fraction(0.5);
    assert_eq!(validate(&p), Err(PlanError::PercentagesDoNotSumToOne));
}

#[test]
fn no_buckets_rejected() {
    let mut p = minimal_plan();
    p.file_distribution.buckets.clear();
    assert_eq!(validate(&p), Err(PlanError::NoBuckets));
}

#[test]
fn blank_bucket_id_rejected() {
    let mut p = minimal_plan();
    p.file_distribution.buckets[0].bucket_id = "\t ".to_string();
    assert_eq!(validate(&p), Err(PlanError::EmptyBucketId { position: 0 }));
}

#[test]
fn fraction_out_of_range_rejected() {
    for f in [-0.1f32, 1.5, f32::NAN, f32::INFINITY] {
        let mut p = minimal_plan();
        p.file_distribution.buckets[0].percentage = fraction(f);
        assert_eq!(validate(&p), Err(PlanError::PercentageOutOfRange { position: 0 }));
    }
    for f in [0.0f32, -0.0, 0.25, 1.0] {
        assert!(fraction(f).is_in_unit());
        assert!((0.0..=1.0).contains(&f));
    }
}

#[test]
fn to_proto_round_trip() {
    let plan = minimal_plan();
    let proto = plan.to_proto(3);
    assert_eq!(proto.plan_id, "test");
    assert_eq!(proto.slice_duration_ms, 60_000);
    assert_eq!(proto.total_agents, 3);
    assert_eq!(proto.slices.len(), 1);
    assert_eq!(proto.slices[0].slice_index, 0);
    assert_eq!(proto.slices[0].total_connections, 10);
    let dist = proto.file_distribution.unwrap();
    assert_eq!(dist.buckets.len(), 1);
    assert_eq!(dist.buckets[0].bucket_id, "xs");
}

#[test]
fn full_distribution_valid() {
    let plan = LoadPlanFile {
        plan_id: "reference".to_string(),
        slice_duration_ms: 60_000,
        total_bandwidth_bps: 104_857_600,
        file_distribution: FileDistributionSpec {
            buckets: vec![
                bucket("xs", 0, 10_485_760, 0.580),
                bucket("sm", 10_485_760, 52_428_800, 0.129),
                bucket("md", 52_428_800, 104_857_600, 0.087),
                bucket("lg", 104_857_600, 209_715_200, 0.063),
                bucket("xl", 209_715_200, 524_288_000, 0.052),
                bucket("xxl", 524_288_000, 1_073_741_824, 0.040),
                bucket("giant", 1_073_741_824, 2_147_483_648, 0.049),
            ],
        },
        slices: vec![slice(0, 50), slice(1, 120), slice(2, 280)],
    };
    assert!(validate(&plan).is_ok());
    assert_eq!(plan.total_slices(), 3);
    assert_eq!(plan.total_agents_hint(), 1);
}

#[test]
fn plan_errors_in_words() {
    let mut p = minimal_plan();
    p.slices.push(slice(2, 20));
    let e = validate(&p).unwrap_err();
    assert_eq!(
        e.message(&p, ""),
        "slice at position 1 has slice_index 2; expected 1 \
         (slices must be ordered 0, 1, …, n-1 with no gaps)"
    );

    let mut p = minimal_plan();
    p.file_distribution.buckets[0].bucket_id = "a\"b".to_string();
    p.file_distribution.buckets[0].size_min_bytes = 9;
    p.file_distribution.buckets[0].size_max_bytes = 7;
    let e = validate(&p).unwrap_err();
    assert_eq!(
        e.message(&p, ""),
        "bucket \"a\\\"b\": size_min_bytes (9) must be less than size_max_bytes (7)"
    );

    let mut p = minimal_plan();
    p.file_distribution.buckets.push(bucket("xs", 0, 1024, 0.0));
    assert_eq!(validate(&p).unwrap_err().message(&p, ""), "duplicate bucket_id \"xs\"");

    let mut p = minimal_plan();
    p.file_distribution.buckets[0].percentage = fraction(0.5);
    assert_eq!(
        validate(&p).unwrap_err().message(&p, "0.5000"),
        "bucket percentages sum to 0.5000; expected 1.0 ± 0.01"
    );

    let mut p = minimal_plan();
    p.file_distribution.buckets[0].percentage = fraction(1.5);
    assert_eq!(
        validate(&p).unwrap_err().message(&p, "1.5"),
        "bucket \"xs\": percentage 1.5 is outside [0.0, 1.0]"
    );
}
