//! The plan as one agent sees it: its share of connections and bandwidth, and
//! changes that arrive during the run.

use vstd::prelude::*;

use crate::coach::distributor;
use crate::gym::rate_limit;
use crate::gym::rate_limit::RateLimiterConfig;
use crate::order;
use crate::order::stable_order;
use crate::proto;
use crate::proto::{BucketView, FileSizeBucket, LoadPlan, LoadPlanUpdate, TimeSlice};
use crate::text;

verus! {

/// The plan, with the index of the agent that looks at it.
#[derive(Debug)]
pub struct AgentPlan {
    pub proto: LoadPlan,
    pub agent_index: u32,
}

/// The first slice with this index, from `i` on.
pub open spec fn find_slice(slices: Seq<TimeSlice>, index: u32, i: int) -> Option<int>
    decreases slices.len() - i,
{
    if i < 0 || i >= slices.len() {
        None
    } else if slices[i].slice_index == index {
        Some(i)
    } else {
        find_slice(slices, index, i + 1)
    }
}

/// The connections that a plan gives to a slice of the whole fleet; `None` where
/// it has no such slice.
pub open spec fn planned(slices: Seq<TimeSlice>, index: u32) -> Option<u32> {
    match find_slice(slices, index, 0) {
        Some(i) => Some(slices[i].total_connections),
        None => None,
    }
}

/// The number of agents, at least 1.
pub open spec fn effective_agents(total_agents: u32) -> nat {
    if total_agents == 0 {
        1
    } else {
        total_agents as nat
    }
}

/// The slices before a boundary.
pub open spec fn slices_before(slices: Seq<TimeSlice>, from: u32) -> Seq<TimeSlice>
    decreases slices.len(),
{
    if slices.len() == 0 {
        slices
    } else if slices.last().slice_index < from {
        slices_before(slices.drop_last(), from).push(slices.last())
    } else {
        slices_before(slices.drop_last(), from)
    }
}

/// The indices of slices, as sort keys.
pub open spec fn slice_keys(slices: Seq<TimeSlice>) -> Seq<u64> {
    Seq::new(slices.len(), |i: int| slices[i].slice_index as u64)
}

/// Whether `sorted` holds these slices ordered by index, with slices of the same
/// index in their given order.
pub open spec fn is_sorted_form(all: Seq<TimeSlice>, sorted: Seq<TimeSlice>) -> bool {
    exists|p: Seq<usize>|
        #[trigger] order::is_stable_order(slice_keys(all), p) && sorted == order::permuted(all, p)
}

/// Whether `after` is the plan `before` with an update taken in: slices from the
/// boundary on are replaced by those of the update, what else the update holds is
/// set, and the rest is as it was.
pub open spec fn is_updated(before: AgentPlan, update: LoadPlanUpdate, after: AgentPlan) -> bool {
    &&& is_sorted_form(
        slices_before(before.proto.slices@, update.effective_from_slice) + update.updated_slices@,
        after.proto.slices@,
    )
    &&& after.proto.total_bandwidth_bps == (match update.new_bandwidth_bps {
        Some(bps) => bps,
        None => before.proto.total_bandwidth_bps,
    })
    &&& after.proto.file_distribution == (match update.new_file_distribution {
        Some(d) => Some(d),
        None => before.proto.file_distribution,
    })
    &&& after.proto.total_agents == (match update.new_total_agents {
        Some(n) => n,
        None => before.proto.total_agents,
    })
    &&& after.proto.plan_id == before.proto.plan_id
    &&& after.proto.start_time_ms == before.proto.start_time_ms
    &&& after.proto.slice_duration_ms == before.proto.slice_duration_ms
    &&& after.agent_index == before.agent_index
}

impl AgentPlan {
    /// The buckets of the plan; none where it has no distribution.
    pub open spec fn bucket_list(self) -> Seq<BucketView> {
        match self.proto.file_distribution {
            Some(d) => proto::bucket_views(d.buckets@),
            None => Seq::empty(),
        }
    }

    /// The bandwidth of this agent; 0 means no limit.
    pub open spec fn bandwidth(self) -> nat {
        self.proto.total_bandwidth_bps as nat / effective_agents(self.proto.total_agents)
    }

    /// The bandwidth of each of `n` transfers that share the bandwidth of this
    /// agent; 0 where nothing limits them, or where less than 1 byte per second is
    /// left for each.
    pub open spec fn bandwidth_per_transfer(self, n: nat) -> nat {
        if n == 0 {
            0
        } else {
            self.bandwidth() / n
        }
    }

    /// The plan for the agent with this index.
    pub fn new(proto: LoadPlan, agent_index: u32) -> (p: AgentPlan)
        ensures
            p.proto == proto,
            p.agent_index == agent_index,
    {
        AgentPlan { proto, agent_index }
    }

    /// The id of the plan.
    pub fn plan_id(&self) -> (id: &str)
        ensures
            id@ == self.proto.plan_id@,
    {
        self.proto.plan_id.as_str()
    }

    /// The number of agents, at least 1.
    pub fn total_agents(&self) -> (n: u32)
        ensures
            n == effective_agents(self.proto.total_agents),
            n >= 1,
    {
        if self.proto.total_agents == 0 {
            1
        } else {
            self.proto.total_agents
        }
    }

    /// The number of slices, modulo 2³².
    pub fn total_slices(&self) -> (n: u32)
        ensures
            n == self.proto.slices@.len() as u32,
            self.proto.slices@.len() <= u32::MAX ==> n == self.proto.slices@.len(),
    {
        #[verifier::truncate]
        (self.proto.slices.len() as u32)
    }

    /// The duration of a slice in milliseconds.
    pub fn slice_duration_ms(&self) -> (ms: u64)
        ensures
            ms == self.proto.slice_duration_ms,
    {
        self.proto.slice_duration_ms
    }

    /// The connections that this agent keeps during a slice; 0 where the plan
    /// has no such slice.
    pub fn my_connections_for_slice(&self, slice_index: u32) -> (n: u32)
        ensures
            n == (match planned(self.proto.slices@, slice_index) {
                Some(total) => distributor::share(
                    total as nat,
                    self.agent_index as nat,
                    effective_agents(self.proto.total_agents),
                ),
                None => 0,
            }),
    {
        let slices = &self.proto.slices;
        let mut i: usize = 0;
        while i < slices.len()
            invariant
                i <= slices@.len(),
                slices@ == self.proto.slices@,
                find_slice(slices@, slice_index, 0) == find_slice(slices@, slice_index, i as int),
            decreases slices@.len() - i,
        {
            if slices[i].slice_index == slice_index {
                return per_agent_connections(
                    slices[i].total_connections,
                    self.agent_index,
                    self.total_agents(),
                );
            }
            i = i + 1;
        }
        0
    }

    /// The bandwidth of this agent in bytes per second; 0 means no limit.
    pub fn my_bandwidth_bps(&self) -> (bps: u64)
        ensures
            bps == self.bandwidth(),
    {
        self.proto.total_bandwidth_bps / self.total_agents() as u64
    }

    /// The rate limit for the bandwidth of this agent; `None` where there is no
    /// limit.
    pub fn my_rate_config(&self) -> (r: Option<RateLimiterConfig>)
        ensures
            r == (if self.bandwidth() == 0 {
                None
            } else {
                Some(rate_limit::config_for(self.bandwidth()))
            }),
    {
        RateLimiterConfig::from_bps(self.my_bandwidth_bps())
    }

    /// The rate limit of one of `n` transfers that share the bandwidth of this
    /// agent; `None` where there is no limit or no transfer, or where less than
    /// 1 byte per second is left for each.
    pub fn rate_per_transfer(&self, n: u32) -> (r: Option<RateLimiterConfig>)
        ensures
            r == (if self.bandwidth_per_transfer(n as nat) == 0 {
                None
            } else {
                Some(rate_limit::config_for(self.bandwidth_per_transfer(n as nat)))
            }),
    {
        let bps: u64 = self.my_bandwidth_bps();
        if n == 0 {
            return None;
        }
        RateLimiterConfig::from_bps(bps / n as u64)
    }

    /// The bucket that a draw has chosen: the first one whose cumulative
    /// fraction reaches the draw, or the last one where none does, which happens
    /// when the fractions do not quite add up to 1. `None` where there are no
    /// buckets.
    ///
    /// `reached` says of each bucket whether its cumulative fraction reaches the
    /// draw.
    pub fn weighted_random_bucket(&self, reached: &Vec<bool>) -> (r: Option<&FileSizeBucket>)
        requires
            reached@.len() == self.bucket_list().len(),
        ensures
            match r {
                Some(b) => self.bucket_list().len() > 0 && b@ == self.bucket_list()[chosen(
                    reached@,
                    0,
                )],
                None => self.bucket_list().len() == 0,
            },
    {
        match &self.proto.file_distribution {
            Some(d) => {
                let buckets = &d.buckets;
                let n: usize = buckets.len();
                if n == 0 {
                    return None;
                }
                let mut i: usize = 0;
                while i + 1 < n && !reached[i]
                    invariant
                        i < n,
                        n == buckets@.len(),
                        n == reached@.len(),
                        chosen(reached@, 0) == chosen(reached@, i as int),
                    decreases n - i,
                {
                    i = i + 1;
                }
                assert(self.bucket_list()[i as int] == buckets@[i as int]@);
                Some(&buckets[i])
            },
            None => None,
        }
    }

    /// All buckets of the plan, in their order.
    pub fn buckets(&self) -> (out: Vec<FileSizeBucket>)
        ensures
            proto::bucket_views(out@) == self.bucket_list(),
    {
        match &self.proto.file_distribution {
            Some(d) => proto::copy_buckets(&d.buckets),
            None => {
                let out: Vec<FileSizeBucket> = Vec::new();
                assert(proto::bucket_views(out@) =~= self.bucket_list());
                out
            },
        }
    }

    /// Takes in a change of the plan: slices from the boundary on are replaced
    /// by those of the update, and what else the update holds is set.
    pub fn apply_update(&mut self, update: LoadPlanUpdate)
        ensures
            is_updated(*old(self), update, *final(self)),
    {
        let merged = merge(&self.proto.slices, update.effective_from_slice, &update.updated_slices);
        self.proto.slices = sort_slices(&merged);
        match update.new_bandwidth_bps {
            Some(bps) => {
                self.proto.total_bandwidth_bps = bps;
            },
            None => {},
        }
        match update.new_file_distribution {
            Some(d) => {
                self.proto.file_distribution = Some(d);
            },
            None => {},
        }
        match update.new_total_agents {
            Some(n) => {
                self.proto.total_agents = n;
            },
            None => {},
        }
    }
}

/// The first position from `i` on that is true; the last position where none is.
pub open spec fn chosen(reached: Seq<bool>, i: int) -> int
    decreases reached.len() - i,
{
    if i >= reached.len() - 1 || reached[i] {
        i
    } else {
        chosen(reached, i + 1)
    }
}

fn merge(slices: &Vec<TimeSlice>, from: u32, updated: &Vec<TimeSlice>) -> (out: Vec<TimeSlice>)
    ensures
        out@ == slices_before(slices@, from) + updated@,
{
    let mut out: Vec<TimeSlice> = Vec::new();
    let mut i: usize = 0;
    assert(slices@.take(0) =~= Seq::<TimeSlice>::empty());
    while i < slices.len()
        invariant
            i <= slices@.len(),
            out@ == slices_before(slices@.take(i as int), from),
        decreases slices@.len() - i,
    {
        proof {
            assert(slices@.take(i + 1).last() == slices@[i as int]);
            assert(slices@.take(i + 1).drop_last() =~= slices@.take(i as int));
        }
        if slices[i].slice_index < from {
            out.push(slices[i]);
        }
        i = i + 1;
    }
    assert(slices@.take(i as int) =~= slices@);
    let ghost kept = out@;
    let mut k: usize = 0;
    assert(kept + updated@.take(0) =~= kept);
    while k < updated.len()
        invariant
            k <= updated@.len(),
            out@ == kept + updated@.take(k as int),
        decreases updated@.len() - k,
    {
        out.push(updated[k]);
        assert(kept + updated@.take(k + 1) =~= (kept + updated@.take(k as int)).push(
            updated@[k as int],
        ));
        k = k + 1;
    }
    assert(updated@.take(k as int) =~= updated@);
    out
}

fn sort_slices(slices: &Vec<TimeSlice>) -> (out: Vec<TimeSlice>)
    ensures
        is_sorted_form(slices@, out@),
{
    let mut keys: Vec<u64> = Vec::new();
    let mut i: usize = 0;
    while i < slices.len()
        invariant
            i <= slices@.len(),
            keys@ == slice_keys(slices@).take(i as int),
        decreases slices@.len() - i,
    {
        keys.push(slices[i].slice_index as u64);
        assert(keys@ =~= slice_keys(slices@).take(i + 1));
        i = i + 1;
    }
    assert(keys@ =~= slice_keys(slices@));
    let p = stable_order(&keys);
    let mut out: Vec<TimeSlice> = Vec::new();
    let mut k: usize = 0;
    while k < p.len()
        invariant
            k <= p@.len(),
            order::is_stable_order(keys@, p@),
            keys@ == slice_keys(slices@),
            out@ == order::permuted(slices@, p@).take(k as int),
        decreases p@.len() - k,
    {
        let at: usize = p[k];
        out.push(slices[at]);
        assert(out@ =~= order::permuted(slices@, p@).take(k + 1));
        k = k + 1;
    }
    assert(out@ =~= order::permuted(slices@, p@));
    out
}

/// The connections of one agent: the total divided as evenly as possible, with
/// the remainder to the agents with the lowest index, one each. No agents count
/// as one.
pub fn per_agent_connections(total: u32, agent_index: u32, total_agents: u32) -> (n: u32)
    ensures
        n == distributor::share(
            total as nat,
            agent_index as nat,
            effective_agents(total_agents),
        ),
{
    let agents: u32 = if total_agents == 0 {
        1
    } else {
        total_agents
    };
    let base: u32 = total / agents;
    let remainder: u32 = total % agents;
    proof {
        vstd::arithmetic::div_mod::lemma_fundamental_div_mod(total as int, agents as int);
        assert(base <= agents * base) by (nonlinear_arith)
            requires
                agents >= 1,
                base >= 0,
        ;
    }
    if agent_index < remainder {
        base + 1
    } else {
        base
    }
}

/// The remote name of the file of a transfer.
pub open spec fn transfer_filename(agent_id: Seq<char>, slice_index: u32, conn_id: u64) -> Seq<char> {
    agent_id + "_s"@ + text::pad_left(text::decimal(slice_index as nat), '0', 3) + "_c"@
        + text::pad_left(text::decimal(conn_id as nat), '0', 6) + ".dat"@
}

/// The remote name of the file of a transfer: agent, slice and connection, with
/// at least three and six digits.
pub fn make_transfer_filename(agent_id: &str, slice_index: u32, conn_id: u64) -> (out: String)
    ensures
        out@ == transfer_filename(agent_id@, slice_index, conn_id),
{
    let slice = text::decimal_of(slice_index as u64);
    let conn = text::decimal_of(conn_id);
    let mut out = text::copy_str(agent_id);
    out.push_str("_s");
    out.push_str(text::padded_left(slice.as_str(), '0', 3).as_str());
    out.push_str("_c");
    out.push_str(text::padded_left(conn.as_str(), '0', 6).as_str());
    out.push_str(".dat");
    out
}

// ── Laws ──────────────────────────────────────────────────────────────────

proof fn lemma_find_slice(slices: Seq<TimeSlice>, index: u32, i: int)
    requires
        0 <= i,
    ensures
        match find_slice(slices, index, i) {
            Some(k) => i <= k < slices.len() && slices[k].slice_index == index && forall|j: int|
                i <= j < k ==> (#[trigger] slices[j]).slice_index != index,
            None => forall|j: int| i <= j < slices.len() ==> (#[trigger] slices[j]).slice_index
                != index,
        },
    decreases slices.len() - i,
{
    if i < slices.len() && slices[i].slice_index != index {
        lemma_find_slice(slices, index, i + 1);
    }
}

/// Sorting slices changes what no slice is planned to have.
proof fn lemma_sorting_keeps_plan(all: Seq<TimeSlice>, sorted: Seq<TimeSlice>, index: u32)
    requires
        is_sorted_form(all, sorted),
    ensures
        planned(sorted, index) == planned(all, index),
{
    let keys = slice_keys(all);
    let p = choose|p: Seq<usize>|
        #[trigger] order::is_stable_order(keys, p) && sorted == order::permuted(all, p);
    lemma_find_slice(all, index, 0);
    lemma_find_slice(sorted, index, 0);
    match find_slice(all, index, 0) {
        Some(f) => {
            order::law_stable_order_is_permutation(keys, p, f);
            let i = choose|i: int| 0 <= i < p.len() && p[i] == f;
            assert(sorted[i] == all[f]);
            match find_slice(sorted, index, 0) {
                Some(j) => {
                    assert(sorted[j] == all[p[j] as int]);
                    if j < i {
                        assert(order::before(keys, p[j] as int, p[i] as int));
                        assert(keys[p[j] as int] == keys[p[i] as int]);
                        assert(all[p[j] as int].slice_index != index);
                    }
                },
                None => {},
            }
        },
        None => {
            match find_slice(sorted, index, 0) {
                Some(j) => {
                    assert(sorted[j] == all[p[j] as int]);
                },
                None => {},
            }
        },
    }
}

proof fn lemma_before_boundary(slices: Seq<TimeSlice>, from: u32, index: u32)
    ensures
        planned(slices_before(slices, from), index) == (if index < from {
            planned(slices, index)
        } else {
            None
        }),
    decreases slices.len(),
{
    let kept = slices_before(slices, from);
    lemma_find_slice(kept, index, 0);
    lemma_find_slice(slices, index, 0);
    if slices.len() > 0 {
        let front = slices.drop_last();
        let kept_front = slices_before(front, from);
        lemma_before_boundary(front, from, index);
        lemma_find_slice(front, index, 0);
        lemma_find_slice(kept_front, index, 0);
        lemma_push_plan(front, slices.last(), index);
        assert(front.push(slices.last()) =~= slices);
        if slices.last().slice_index < from {
            lemma_push_plan(kept_front, slices.last(), index);
        }
    }
}

proof fn lemma_push_plan(front: Seq<TimeSlice>, last: TimeSlice, index: u32)
    ensures
        planned(front.push(last), index) == (match planned(front, index) {
            Some(n) => Some(n),
            None => if last.slice_index == index {
                Some(last.total_connections)
            } else {
                None
            },
        }),
{
    let all = front.push(last);
    lemma_find_slice(front, index, 0);
    lemma_find_slice(all, index, 0);
    match find_slice(front, index, 0) {
        Some(i) => {
            assert(all[i] == front[i]);
            let k = find_slice(all, index, 0)->0;
            if k < i {
                assert(all[k] == front[k]);
            }
        },
        None => {
            match find_slice(all, index, 0) {
                Some(k) => {
                    if k < front.len() {
                        assert(all[k] == front[k]);
                    }
                },
                None => {
                    assert(all[front.len() as int] == last);
                },
            }
        },
    }
}

proof fn lemma_concat_plan(a: Seq<TimeSlice>, b: Seq<TimeSlice>, index: u32)
    ensures
        planned(a + b, index) == (match planned(a, index) {
            Some(n) => Some(n),
            None => planned(b, index),
        }),
    decreases b.len(),
{
    if b.len() == 0 {
        assert(a + b =~= a);
        lemma_find_slice(b, index, 0);
    } else {
        let front = b.drop_last();
        lemma_concat_plan(a, front, index);
        assert((a + front).push(b.last()) =~= a + b);
        assert(front.push(b.last()) =~= b);
        lemma_push_plan(a + front, b.last(), index);
        lemma_push_plan(front, b.last(), index);
    }
}

/// After a change of the plan every slice before the boundary is planned as
/// before, and every other slice as the change says; a slice from the boundary
/// on that the change does not mention is gone.
pub proof fn law_update_replaces_from_boundary(
    before: Seq<TimeSlice>,
    from: u32,
    updated: Seq<TimeSlice>,
    after: Seq<TimeSlice>,
    index: u32,
)
    requires
        is_sorted_form(slices_before(before, from) + updated, after),
    ensures
        planned(after, index) == (if index < from && planned(before, index) is Some {
            planned(before, index)
        } else {
            planned(updated, index)
        }),
{
    let all = slices_before(before, from) + updated;
    lemma_sorting_keeps_plan(all, after, index);
    lemma_concat_plan(slices_before(before, from), updated, index);
    lemma_before_boundary(before, from, index);
}

/// A change with the boundary beyond all slices and no slices of its own leaves
/// every slice as it is. That is how agents are told how many they are and which
/// bandwidth they share.
pub proof fn law_update_beyond_slices_keeps_them(
    before: Seq<TimeSlice>,
    after: Seq<TimeSlice>,
    index: u32,
)
    requires
        is_sorted_form(slices_before(before, u32::MAX) + Seq::<TimeSlice>::empty(), after),
        index < u32::MAX,
    ensures
        planned(after, index) == planned(before, index),
{
    law_update_replaces_from_boundary(before, u32::MAX, Seq::empty(), after, index);
    lemma_find_slice(Seq::<TimeSlice>::empty(), index, 0);
}

/// Taking in an update a second time changes nothing, where the update lists no
/// slice before its boundary.
pub proof fn law_update_is_idempotent(
    before: AgentPlan,
    update: LoadPlanUpdate,
    once: AgentPlan,
    twice: AgentPlan,
)
    requires
        is_updated(before, update, once),
        is_updated(once, update, twice),
        forall|i: int|
            0 <= i < update.updated_slices@.len() ==> (#[trigger] update.updated_slices@[i]).slice_index
                >= update.effective_from_slice,
    ensures
        twice.proto.slices@ == once.proto.slices@,
        twice.proto.total_bandwidth_bps == once.proto.total_bandwidth_bps,
        twice.proto.file_distribution == once.proto.file_distribution,
        twice.proto.total_agents == once.proto.total_agents,
        twice.proto.plan_id == once.proto.plan_id,
        twice.proto.start_time_ms == once.proto.start_time_ms,
        twice.proto.slice_duration_ms == once.proto.slice_duration_ms,
        twice.agent_index == once.agent_index,
{
    lemma_merge_twice(
        before.proto.slices@,
        update.effective_from_slice,
        update.updated_slices@,
        once.proto.slices@,
        twice.proto.slices@,
    );
}

/// What is kept lies before the boundary.
proof fn lemma_before_is_below(slices: Seq<TimeSlice>, from: u32)
    ensures
        forall|i: int|
            0 <= i < slices_before(slices, from).len() ==> (#[trigger] slices_before(
                slices,
                from,
            )[i]).slice_index < from,
    decreases slices.len(),
{
    if slices.len() > 0 {
        let front = slices_before(slices.drop_last(), from);
        lemma_before_is_below(slices.drop_last(), from);
        assert forall|i: int| 0 <= i < slices_before(slices, from).len() implies (
        #[trigger] slices_before(slices, from)[i]).slice_index < from by {
            if i < front.len() {
                assert(front[i].slice_index < from);
            }
        }
    }
}

/// Where the first `a` slices are those before the boundary, they are kept.
proof fn lemma_before_is_prefix(slices: Seq<TimeSlice>, from: u32, a: int)
    requires
        0 <= a <= slices.len(),
        forall|i: int|
            0 <= i < slices.len() ==> ((#[trigger] slices[i]).slice_index < from <==> i < a),
    ensures
        slices_before(slices, from) == slices.take(a),
    decreases slices.len(),
{
    if slices.len() > 0 {
        let front = slices.drop_last();
        let n = if a < slices.len() {
            a
        } else {
            a - 1
        };
        lemma_before_is_prefix(front, from, n);
        assert(slices.last() == slices[slices.len() - 1]);
        if a < slices.len() {
            assert(front.take(a) =~= slices.take(a));
        } else {
            assert(front.take(n).push(slices.last()) =~= slices.take(a));
        }
    } else {
        assert(slices.take(a) =~= slices);
    }
}

proof fn lemma_merge_twice(
    before: Seq<TimeSlice>,
    from: u32,
    updated: Seq<TimeSlice>,
    once: Seq<TimeSlice>,
    twice: Seq<TimeSlice>,
)
    requires
        is_sorted_form(slices_before(before, from) + updated, once),
        is_sorted_form(slices_before(once, from) + updated, twice),
        forall|i: int|
            0 <= i < updated.len() ==> (#[trigger] updated[i]).slice_index >= from,
    ensures
        twice == once,
{
    let kept = slices_before(before, from);
    let a = kept.len() as int;
    let all = kept + updated;
    let keys = slice_keys(all);
    let p = choose|p: Seq<usize>|
        #[trigger] order::is_stable_order(keys, p) && once == order::permuted(all, p);
    lemma_before_is_below(before, from);
    // The slices that were kept stand first.
    assert forall|i: int| 0 <= i < p.len() implies (#[trigger] p[i] < a <==> i < a) by {
        order::lemma_split_order(keys, p, a, i);
    }
    assert forall|i: int| 0 <= i < once.len() implies ((#[trigger] once[i]).slice_index < from
        <==> i < a) by {
        assert(once[i] == all[p[i] as int]);
    }
    lemma_before_is_prefix(once, from, a);
    // So the positions of the second merge are those of the first, with the kept
    // slices in place.
    let again = once.take(a) + updated;
    let keys2 = slice_keys(again);
    let q = Seq::<usize>::new(
        p.len(),
        |i: int|
            if i < a {
                i as usize
            } else {
                p[i]
            },
    );
    assert forall|i: int| 0 <= i < q.len() implies again[q[i] as int] == once[i] && 0
        <= #[trigger] q[i] < keys2.len() && q[i] == (if i < a {
        i
    } else {
        p[i] as int
    }) by {
        assert(once[i] == all[p[i] as int]);
        if i < a {
            order::law_stable_order_is_permutation(keys, p, i);
        }
    }
    assert forall|i: int, j: int| 0 <= i < j < q.len() implies order::before(
        keys2,
        #[trigger] q[i] as int,
        #[trigger] q[j] as int,
    ) by {
        assert(again[q[i] as int] == once[i]);
        assert(again[q[j] as int] == once[j]);
        assert(once[i] == all[p[i] as int]);
        assert(once[j] == all[p[j] as int]);
        assert(order::before(keys, p[i] as int, p[j] as int));
    }
    assert(order::is_stable_order(keys2, q));
    assert(order::permuted(again, q) =~= once);
    let r = choose|r: Seq<usize>|
        #[trigger] order::is_stable_order(keys2, r) && twice == order::permuted(again, r);
    order::law_stable_order_unique(keys2, q, r);
}

/// The position that a draw chooses is reached and no earlier one is; it is the
/// last position where none is reached.
pub proof fn law_first_reached_bucket_is_chosen(reached: Seq<bool>)
    requires
        reached.len() > 0,
    ensures
        0 <= chosen(reached, 0) < reached.len(),
        forall|k: int| 0 <= k < chosen(reached, 0) ==> !#[trigger] reached[k],
        reached[chosen(reached, 0)] || chosen(reached, 0) == reached.len() - 1,
{
    lemma_chosen(reached, 0);
}

proof fn lemma_chosen(reached: Seq<bool>, i: int)
    requires
        0 <= i < reached.len(),
    ensures
        i <= chosen(reached, i) < reached.len(),
        forall|k: int| i <= k < chosen(reached, i) ==> !#[trigger] reached[k],
        reached[chosen(reached, i)] || chosen(reached, i) == reached.len() - 1,
    decreases reached.len() - i,
{
    if i < reached.len() - 1 && !reached[i] {
        lemma_chosen(reached, i + 1);
    }
}

/// What a plan gives to a slice is what its first slice with that index says; it
/// gives nothing only where it has no such slice.
pub proof fn law_planned_is_first_listing(slices: Seq<TimeSlice>, index: u32)
    ensures
        match planned(slices, index) {
            Some(n) => exists|i: int|
                0 <= i < slices.len() && (#[trigger] slices[i]).slice_index == index
                    && slices[i].total_connections == n && forall|k: int|
                    0 <= k < i ==> (#[trigger] slices[k]).slice_index != index,
            None => forall|k: int| 0 <= k < slices.len() ==> (#[trigger] slices[k]).slice_index
                != index,
        },
{
    lemma_find_slice(slices, index, 0);
    match find_slice(slices, index, 0) {
        Some(i) => {
            assert(slices[i].slice_index == index);
        },
        None => {},
    }
}

/// What lies before a boundary of two lists of slices lies before it in the first
/// or in the second, in this order; one slice lies before it where its index does.
pub proof fn law_slices_before_boundary(
    a: Seq<TimeSlice>,
    b: Seq<TimeSlice>,
    x: TimeSlice,
    from: u32,
)
    ensures
        slices_before(a + b, from) == slices_before(a, from) + slices_before(b, from),
        slices_before(seq![x], from) == (if x.slice_index < from {
            seq![x]
        } else {
            Seq::empty()
        }),
    decreases b.len(),
{
    reveal_with_fuel(slices_before, 2);
    assert(seq![x].drop_last() =~= Seq::<TimeSlice>::empty());
    assert(slices_before(seq![x], from) =~= (if x.slice_index < from {
        seq![x]
    } else {
        Seq::empty()
    }));
    if b.len() == 0 {
        assert(a + b =~= a);
        assert(slices_before(a, from) + slices_before(b, from) =~= slices_before(a, from));
    } else {
        law_slices_before_boundary(a, b.drop_last(), x, from);
        assert((a + b).drop_last() =~= a + b.drop_last());
        assert(slices_before(a + b, from) =~= slices_before(a, from) + slices_before(b, from));
    }
}

/// An update sets exactly what it holds: each of its values replaces that of the
/// plan, and what it leaves out stays.
pub proof fn law_update_sets_what_it_holds(before: AgentPlan, u: LoadPlanUpdate, after: AgentPlan)
    requires
        is_updated(before, u, after),
    ensures
        u.new_bandwidth_bps matches Some(bps) ==> after.proto.total_bandwidth_bps == bps,
        u.new_bandwidth_bps is None ==> after.proto.total_bandwidth_bps
            == before.proto.total_bandwidth_bps,
        u.new_total_agents matches Some(n) ==> after.proto.total_agents == n,
        u.new_total_agents is None ==> after.proto.total_agents == before.proto.total_agents,
        u.new_file_distribution is Some ==> after.proto.file_distribution
            == u.new_file_distribution,
        u.new_file_distribution is None ==> after.proto.file_distribution
            == before.proto.file_distribution,
        after.proto.plan_id == before.proto.plan_id,
        after.proto.start_time_ms == before.proto.start_time_ms,
        after.proto.slice_duration_ms == before.proto.slice_duration_ms,
        after.agent_index == before.agent_index,
        after.proto.slices@.len() <= before.proto.slices@.len() + u.updated_slices@.len(),
{
    let all = slices_before(before.proto.slices@, u.effective_from_slice) + u.updated_slices@;
    lemma_before_is_shorter(before.proto.slices@, u.effective_from_slice);
    let p = choose|p: Seq<usize>|
        #[trigger] order::is_stable_order(slice_keys(all), p) && after.proto.slices@
            == order::permuted(all, p);
    assert(p.len() == all.len());
}

proof fn lemma_before_is_shorter(slices: Seq<TimeSlice>, from: u32)
    ensures
        slices_before(slices, from).len() <= slices.len(),
    decreases slices.len(),
{
    if slices.len() > 0 {
        lemma_before_is_shorter(slices.drop_last(), from);
    }
}

/// The slices of a plan are in the order of their indices after an update.
pub proof fn law_updated_slices_are_sorted(all: Seq<TimeSlice>, sorted: Seq<TimeSlice>, i: int, j: int)
    requires
        is_sorted_form(all, sorted),
        0 <= i < j < sorted.len(),
    ensures
        sorted[i].slice_index <= sorted[j].slice_index,
        sorted.len() == all.len(),
        all.contains(sorted[i]),
{
    let keys = slice_keys(all);
    let p = choose|p: Seq<usize>|
        #[trigger] order::is_stable_order(keys, p) && sorted == order::permuted(all, p);
    assert(order::before(keys, p[i] as int, p[j] as int));
    assert(sorted[i] == all[p[i] as int]);
    assert(sorted[j] == all[p[j] as int]);
}

/// The agents share the bandwidth of the plan: all of them together stay within
/// it, and less than one byte per second and agent is lost. No agents count as
/// one.
pub proof fn law_agents_share_bandwidth(plan: AgentPlan)
    ensures
        ({
            let n = if plan.proto.total_agents == 0 {
                1
            } else {
                plan.proto.total_agents as int
            };
            n * plan.bandwidth() <= plan.proto.total_bandwidth_bps < n * (plan.bandwidth() + 1)
        }),
{
    let n = effective_agents(plan.proto.total_agents) as int;
    let total = plan.proto.total_bandwidth_bps as int;
    let each = plan.bandwidth() as int;
    assert(n * each <= total < n * (each + 1)) by (nonlinear_arith)
        requires
            n > 0,
            each == total / n,
    ;
}

/// Transfers share the bandwidth of their agent evenly: together they have no more
/// than it, and less than one byte per second and transfer is left over.
pub proof fn law_transfers_share_evenly(plan: AgentPlan, n: nat)
    ensures
        n == 0 ==> plan.bandwidth_per_transfer(n) == 0,
        n > 0 ==> plan.bandwidth_per_transfer(n) * n <= plan.bandwidth() < (
        plan.bandwidth_per_transfer(n) + 1) * n,
{
    if n > 0 {
        let b = plan.bandwidth();
        let q = b / n;
        assert(q * n <= b < (q + 1) * n) by (nonlinear_arith)
            requires
                n > 0,
                q == b / n,
        ;
    }
}

} // verus!
