//! Cleanup decisions drawn from a snapshot.
//!
//! Three sections look at leases, at instances without a lease and at
//! backends without a lease. All of them only decide; the actions are carried
//! out by the caller, and only on the active load balancer.

use vstd::prelude::*;

use crate::infra::ipv4;
use crate::infra::ipv4::Ipv4;
use crate::infra::redis_pool;
use crate::infra::redis_pool::{KEY_AVAILABLE, KEY_LEASES};
use crate::scale::leases::{OWNER_MISSING, OWNER_UNKNOWN};
use crate::scale::scaler;
use crate::scale::snapshot;
use crate::scale::snapshot::{
    AsgGroupInfo, AsgInstance, BackendState, BackendStatus, BackendView, InstanceView, LeaseView,
    SlotLease, StateView, SystemSnapshot,
};
use crate::text;

verus! {

/// Weight of an active backend.
pub const WEIGHT_ACTIVE: &'static str = "0";

/// Weight of a draining backend.
pub const WEIGHT_DRAINING: &'static str = "-1";

/// Weight of a disabled backend.
pub const WEIGHT_DISABLED: &'static str = "-2147483648";

/// What is done about a backend or an instance.
#[derive(Debug)]
pub enum Action {
    /// Give the slot back to the pool.
    ReleaseSlot { slot: u32 },
    /// Write the weight of an active backend.
    Enable { ip: Ipv4 },
    /// Write the weight of a disabled backend.
    Disable { ip: Ipv4 },
    /// Terminate an instance; with `decrement` the group shrinks.
    Terminate { instance_id: String, decrement: bool },
}

/// An action with the text of its instance.
pub enum ActionView {
    ReleaseSlot { slot: u32 },
    Enable { ip: Ipv4 },
    Disable { ip: Ipv4 },
    Terminate { instance_id: Seq<char>, decrement: bool },
}

impl View for Action {
    type V = ActionView;

    open spec fn view(&self) -> ActionView {
        match self {
            Action::ReleaseSlot { slot } => ActionView::ReleaseSlot { slot: *slot },
            Action::Enable { ip } => ActionView::Enable { ip: *ip },
            Action::Disable { ip } => ActionView::Disable { ip: *ip },
            Action::Terminate { instance_id, decrement } => ActionView::Terminate {
                instance_id: instance_id@,
                decrement: *decrement,
            },
        }
    }
}

/// The views of a list of actions.
pub open spec fn action_views(v: Seq<Action>) -> Seq<ActionView> {
    Seq::new(v.len(), |i: int| v[i]@)
}

// ── Leases ────────────────────────────────────────────────────────────────

/// What became of a lease.
#[derive(Debug, Clone, Copy, PartialEq, Eq, Structural)]
pub enum LeaseOutcome {
    /// The owner is not known; nothing is done.
    OwnerUnconfirmed,
    /// The owner is not in service any more; the slot is released and the
    /// backend, where it is known, disabled.
    OwnerGone { backend: Option<Ipv4> },
    /// The owner is in service, but its backend is not known yet.
    NotResolved,
    /// The backend is active.
    Healthy,
    /// The backend has drained, but the group is at its minimum size.
    MinSizeReached { ip: Ipv4 },
    /// The backend has drained and is disabled and terminated.
    Drained { ip: Ipv4 },
    /// The backend still has connections.
    StillDraining { ip: Ipv4, active_connections: u32 },
    /// The lease of a disabled backend has run out; nothing is done.
    StaleLease { ip: Ipv4 },
    /// The backend is disabled although its lease is live; it is enabled.
    Reenabled { ip: Ipv4 },
    /// The weight of the backend is not known; nothing is done.
    UnknownWeight { ip: Ipv4 },
}

/// The first backend that carries the lease of a slot.
pub open spec fn backend_of_slot(list: Seq<BackendView>, slot: u32) -> Option<BackendView>
    decreases list.len(),
{
    if list.len() == 0 {
        None
    } else if list[0].lease is Some && list[0].lease->0.slot == slot {
        Some(list[0])
    } else {
        backend_of_slot(list.skip(1), slot)
    }
}

/// Whether an instance in service has this id.
pub open spec fn in_service_with_id(asg: Seq<InstanceView>, id: Seq<char>) -> bool {
    exists|i: int| 0 <= i < asg.len() && (#[trigger] asg[i]).in_service() && asg[i].id == id
}

/// Whether the owner of a lease is one of the two marks for an owner that is
/// not known.
pub open spec fn unconfirmed(owner: Seq<char>) -> bool {
    owner == OWNER_MISSING@ || owner == OWNER_UNKNOWN@
}

/// The connections of a backend, 0 where IPVS does not know it.
pub open spec fn connections(b: BackendView) -> u32 {
    match b.ipvs {
        Some(v) => v.active_connections,
        None => 0,
    }
}

/// What becomes of a lease at the wall-clock time `now`.
pub open spec fn lease_outcome(
    lease: LeaseView,
    asg: Seq<InstanceView>,
    backends: Seq<BackendView>,
    group_at_min: bool,
    now: u64,
) -> LeaseOutcome {
    let backend = backend_of_slot(backends, lease.slot);
    if unconfirmed(lease.owner) {
        LeaseOutcome::OwnerUnconfirmed
    } else if !in_service_with_id(asg, lease.owner) {
        LeaseOutcome::OwnerGone {
            backend: match backend {
                Some(b) => Some(b.ip),
                None => None,
            },
        }
    } else {
        match backend {
            None => LeaseOutcome::NotResolved,
            Some(b) => match b.state {
                StateView::Active => LeaseOutcome::Healthy,
                StateView::Draining => if connections(b) > 0 {
                    LeaseOutcome::StillDraining { ip: b.ip, active_connections: connections(b) }
                } else if group_at_min {
                    LeaseOutcome::MinSizeReached { ip: b.ip }
                } else {
                    LeaseOutcome::Drained { ip: b.ip }
                },
                StateView::Disabled => if lease.expires_ms <= now {
                    LeaseOutcome::StaleLease { ip: b.ip }
                } else {
                    LeaseOutcome::Reenabled { ip: b.ip }
                },
                StateView::Unknown(_) => LeaseOutcome::UnknownWeight { ip: b.ip },
            },
        }
    }
}

fn find_backend(list: &Vec<BackendStatus>, slot: u32) -> (r: Option<usize>)
    ensures
        match r {
            Some(i) => i < list@.len() && backend_of_slot(snapshot::backend_views(list@), slot)
                == Some(list@[i as int]@),
            None => backend_of_slot(snapshot::backend_views(list@), slot) is None,
        },
{
    let ghost all = snapshot::backend_views(list@);
    let mut i: usize = 0;
    assert(all.skip(0) =~= all);
    while i < list.len()
        invariant
            i <= list@.len(),
            all == snapshot::backend_views(list@),
            backend_of_slot(all, slot) == backend_of_slot(all.skip(i as int), slot),
        decreases list@.len() - i,
    {
        assert(all.skip(i as int)[0] == list@[i as int]@);
        match &list[i].lease {
            Some(l) => {
                if l.slot == slot {
                    return Some(i);
                }
            },
            None => {},
        }
        assert(all.skip(i as int).skip(1) =~= all.skip(i + 1));
        i = i + 1;
    }
    None
}

fn owner_in_service(asg: &Vec<AsgInstance>, id: &str) -> (yes: bool)
    ensures
        yes == in_service_with_id(snapshot::instance_views(asg@), id@),
{
    let ghost all = snapshot::instance_views(asg@);
    let mut i: usize = 0;
    while i < asg.len()
        invariant
            i <= asg@.len(),
            all == snapshot::instance_views(asg@),
            forall|k: int|
                0 <= k < i ==> !((#[trigger] all[k]).in_service() && all[k].id == id@),
        decreases asg@.len() - i,
    {
        assert(all[i as int] == asg@[i as int]@);
        if asg[i].is_in_service() && text::str_eq(asg[i].instance_id.as_str(), id) {
            return true;
        }
        i = i + 1;
    }
    false
}

/// Decides what becomes of a lease at the wall-clock time `now`.
///
/// Only instances in service count as owners. A lease whose owner could not be
/// confirmed is left alone.
pub fn handle_lease(
    lease: &SlotLease,
    asg: &Vec<AsgInstance>,
    backends: &Vec<BackendStatus>,
    group: &Option<AsgGroupInfo>,
    now: u64,
) -> (out: LeaseOutcome)
    ensures
        out == lease_outcome(
            lease@,
            snapshot::instance_views(asg@),
            snapshot::backend_views(backends@),
            group is Some && group->0.desired_capacity <= group->0.min_size,
            now,
        ),
{
    let owner = lease.owner_instance_id.as_str();
    if text::str_eq(owner, OWNER_MISSING) || text::str_eq(owner, OWNER_UNKNOWN) {
        return LeaseOutcome::OwnerUnconfirmed;
    }
    let backend: Option<usize> = find_backend(backends, lease.slot);
    if !owner_in_service(asg, owner) {
        let ip: Option<Ipv4> = match backend {
            Some(i) => Some(backends[i].ip),
            None => None,
        };
        return LeaseOutcome::OwnerGone { backend: ip };
    }
    let b = match backend {
        Some(i) => &backends[i],
        None => return LeaseOutcome::NotResolved,
    };
    let ip = b.ip;
    match &b.weight_state {
        BackendState::Active => LeaseOutcome::Healthy,
        BackendState::Draining => {
            let active: u32 = match b.ipvs {
                Some(v) => v.active_connections,
                None => 0,
            };
            let at_min: bool = match group {
                Some(g) => g.would_violate_min(),
                None => false,
            };
            if active > 0 {
                LeaseOutcome::StillDraining { ip, active_connections: active }
            } else if at_min {
                LeaseOutcome::MinSizeReached { ip }
            } else {
                LeaseOutcome::Drained { ip }
            }
        },
        BackendState::Disabled => {
            if lease.is_expired_at(now) {
                LeaseOutcome::StaleLease { ip }
            } else {
                LeaseOutcome::Reenabled { ip }
            }
        },
        BackendState::Unknown(_) => LeaseOutcome::UnknownWeight { ip },
    }
}

/// What is done about a lease: each action only if the one before it worked.
pub open spec fn actions_of(lease: LeaseView, out: LeaseOutcome, decrement: bool) -> Seq<
    ActionView,
> {
    match out {
        LeaseOutcome::OwnerGone { backend } => match backend {
            Some(ip) => seq![
                ActionView::ReleaseSlot { slot: lease.slot },
                ActionView::Disable { ip },
            ],
            None => seq![ActionView::ReleaseSlot { slot: lease.slot }],
        },
        LeaseOutcome::Drained { ip } => seq![
            ActionView::Disable { ip },
            ActionView::Terminate { instance_id: lease.owner, decrement },
        ],
        LeaseOutcome::Reenabled { ip } => seq![ActionView::Enable { ip }],
        _ => Seq::empty(),
    }
}

/// The actions for a lease, in order; one that fails ends the list.
pub fn lease_actions(lease: &SlotLease, out: LeaseOutcome, decrement: bool) -> (actions: Vec<
    Action,
>)
    ensures
        action_views(actions@) == actions_of(lease@, out, decrement),
{
    let mut actions: Vec<Action> = Vec::new();
    match out {
        LeaseOutcome::OwnerGone { backend } => {
            actions.push(Action::ReleaseSlot { slot: lease.slot });
            match backend {
                Some(ip) => {
                    actions.push(Action::Disable { ip });
                },
                None => {},
            }
        },
        LeaseOutcome::Drained { ip } => {
            actions.push(Action::Disable { ip });
            actions.push(
                Action::Terminate {
                    instance_id: text::copy_str(lease.owner_instance_id.as_str()),
                    decrement,
                },
            );
        },
        LeaseOutcome::Reenabled { ip } => {
            actions.push(Action::Enable { ip });
        },
        _ => {},
    }
    assert(action_views(actions@) =~= actions_of(lease@, out, decrement));
    actions
}

/// The outcome of the pass over all leases.
#[derive(Debug)]
pub enum LeasePass {
    /// The query for the group failed; nothing is done.
    GroupUnknown,
    /// No instance is in service although leases exist, which is not
    /// plausible; nothing is done.
    NoneInService,
    /// One outcome per lease.
    Outcomes(Vec<LeaseOutcome>),
}

/// Whether any instance is in service.
pub open spec fn any_in_service(asg: Seq<InstanceView>) -> bool {
    exists|i: int| 0 <= i < asg.len() && (#[trigger] asg[i]).in_service()
}

fn has_service(asg: &Vec<AsgInstance>) -> (yes: bool)
    ensures
        yes == any_in_service(snapshot::instance_views(asg@)),
{
    let ghost all = snapshot::instance_views(asg@);
    let mut i: usize = 0;
    while i < asg.len()
        invariant
            i <= asg@.len(),
            all == snapshot::instance_views(asg@),
            forall|k: int| 0 <= k < i ==> !(#[trigger] all[k]).in_service(),
        decreases asg@.len() - i,
    {
        assert(all[i as int] == asg@[i as int]@);
        if asg[i].is_in_service() {
            return true;
        }
        i = i + 1;
    }
    false
}

/// Goes over all leases of a snapshot.
///
/// Data that looks wrong is not acted on: without capacity information the
/// instance list is not reliable, and a group without any instance in service
/// cannot have leases.
pub fn section_21_active_leases(snap: &SystemSnapshot, now: u64) -> (pass: LeasePass)
    ensures
        match pass {
            LeasePass::GroupUnknown => snap.asg_group is None,
            LeasePass::NoneInService => snap.asg_group is Some && snap.leases@.len() > 0
                && !any_in_service(snapshot::instance_views(snap.asg@)),
            LeasePass::Outcomes(v) => {
                &&& snap.asg_group is Some
                &&& snap.leases@.len() == 0 || any_in_service(snapshot::instance_views(snap.asg@))
                &&& v@.len() == snap.leases@.len()
                &&& forall|i: int|
                    0 <= i < v@.len() ==> #[trigger] v@[i] == lease_outcome(
                        snap.leases@[i]@,
                        snapshot::instance_views(snap.asg@),
                        snapshot::backend_views(snap.backends@),
                        snap.asg_group->0.desired_capacity <= snap.asg_group->0.min_size,
                        now,
                    )
            },
        },
{
    if snap.asg_group.is_none() {
        return LeasePass::GroupUnknown;
    }
    if snap.leases.len() > 0 && !has_service(&snap.asg) {
        return LeasePass::NoneInService;
    }
    let mut out: Vec<LeaseOutcome> = Vec::new();
    let mut i: usize = 0;
    while i < snap.leases.len()
        invariant
            i <= snap.leases@.len(),
            snap.asg_group is Some,
            out@.len() == i,
            forall|k: int|
                0 <= k < i ==> #[trigger] out@[k] == lease_outcome(
                    snap.leases@[k]@,
                    snapshot::instance_views(snap.asg@),
                    snapshot::backend_views(snap.backends@),
                    snap.asg_group->0.desired_capacity <= snap.asg_group->0.min_size,
                    now,
                ),
        decreases snap.leases@.len() - i,
    {
        out.push(handle_lease(&snap.leases[i], &snap.asg, &snap.backends, &snap.asg_group, now));
        i = i + 1;
    }
    LeasePass::Outcomes(out)
}

/// Nothing destructive is done on a slot whose owner could not be confirmed.
pub proof fn law_unconfirmed_owner_untouched(
    lease: LeaseView,
    asg: Seq<InstanceView>,
    backends: Seq<BackendView>,
    group_at_min: bool,
    now: u64,
    decrement: bool,
)
    requires
        unconfirmed(lease.owner),
    ensures
        actions_of(
            lease,
            lease_outcome(lease, asg, backends, group_at_min, now),
            decrement,
        ).len() == 0,
{
}

/// An instance is only terminated for a lease where it is in service, its
/// backend is draining without connections and the group is above its minimum
/// size; a slot is only released where its owner is not in service.
pub proof fn law_lease_actions_are_safe(
    lease: LeaseView,
    asg: Seq<InstanceView>,
    backends: Seq<BackendView>,
    group_at_min: bool,
    now: u64,
    decrement: bool,
    i: int,
)
    requires
        ({
            let out = lease_outcome(lease, asg, backends, group_at_min, now);
            0 <= i < actions_of(lease, out, decrement).len()
        }),
    ensures
        ({
            let out = lease_outcome(lease, asg, backends, group_at_min, now);
            let a = actions_of(lease, out, decrement)[i];
            &&& a matches ActionView::Terminate { instance_id, decrement: d } ==> {
                &&& instance_id == lease.owner
                &&& d == decrement
                &&& in_service_with_id(asg, lease.owner)
                &&& !group_at_min
                &&& backend_of_slot(backends, lease.slot) matches Some(b) && b.state is Draining
                    && connections(b) == 0
            }
            &&& a is ReleaseSlot ==> !in_service_with_id(asg, lease.owner)
            &&& a is Enable ==> in_service_with_id(asg, lease.owner) && lease.expires_ms > now
        }),
{
}

// ── Instances without a lease ─────────────────────────────────────────────

/// When an instance in service was first seen without a lease.
#[derive(Debug)]
pub struct OrphanEntry {
    pub instance_id: String,
    /// Nanoseconds of a monotonic clock.
    pub first_seen: u64,
}

/// What survives from pass to pass.
#[derive(Debug)]
pub struct CleanupState {
    /// The instances seen without a lease; no instance occurs twice.
    pub orphan_first_seen: Vec<OrphanEntry>,
}

/// The entries with the texts of their instances.
pub open spec fn seen_view(v: Seq<OrphanEntry>) -> Seq<(Seq<char>, u64)> {
    Seq::new(v.len(), |i: int| (v[i].instance_id@, v[i].first_seen))
}

/// No instance occurs twice.
pub open spec fn distinct(seen: Seq<(Seq<char>, u64)>) -> bool {
    forall|i: int, j: int|
        0 <= i < j < seen.len() ==> (#[trigger] seen[i]).0 != (#[trigger] seen[j]).0
}

/// When an instance was first seen.
pub open spec fn seen_at(seen: Seq<(Seq<char>, u64)>, id: Seq<char>) -> Option<u64>
    decreases seen.len(),
{
    if seen.len() == 0 {
        None
    } else if seen.last().0 == id {
        Some(seen.last().1)
    } else {
        seen_at(seen.drop_last(), id)
    }
}

/// The entries of all other instances.
pub open spec fn without(seen: Seq<(Seq<char>, u64)>, id: Seq<char>) -> Seq<(Seq<char>, u64)>
    decreases seen.len(),
{
    if seen.len() == 0 {
        Seq::empty()
    } else {
        let rest = without(seen.drop_last(), id);
        if seen.last().0 == id {
            rest
        } else {
            rest.push(seen.last())
        }
    }
}

/// The entries of the instances in `keep`.
pub open spec fn only(seen: Seq<(Seq<char>, u64)>, keep: Seq<Seq<char>>) -> Seq<(Seq<char>, u64)>
    decreases seen.len(),
{
    if seen.len() == 0 {
        Seq::empty()
    } else {
        let rest = only(seen.drop_last(), keep);
        if keep.contains(seen.last().0) {
            rest.push(seen.last())
        } else {
            rest
        }
    }
}

impl CleanupState {
    /// No instance occurs twice.
    pub open spec fn wf(self) -> bool {
        distinct(seen_view(self.orphan_first_seen@))
    }

    /// When an instance was first seen without a lease.
    pub open spec fn first_seen(self, id: Seq<char>) -> Option<u64> {
        seen_at(seen_view(self.orphan_first_seen@), id)
    }

    /// The state before the first pass.
    pub fn new() -> (s: CleanupState)
        ensures
            s.wf(),
            s.orphan_first_seen@.len() == 0,
    {
        CleanupState { orphan_first_seen: Vec::new() }
    }
}

/// Whether a lease names this instance as its owner.
pub open spec fn is_owner(leases: Seq<LeaseView>, id: Seq<char>) -> bool {
    exists|i: int| 0 <= i < leases.len() && (#[trigger] leases[i]).owner == id
}

fn owns_lease(leases: &Vec<SlotLease>, id: &str) -> (yes: bool)
    ensures
        yes == is_owner(snapshot::lease_views(leases@), id@),
{
    let ghost all = snapshot::lease_views(leases@);
    let mut i: usize = 0;
    while i < leases.len()
        invariant
            i <= leases@.len(),
            all == snapshot::lease_views(leases@),
            forall|k: int| 0 <= k < i ==> (#[trigger] all[k]).owner != id@,
        decreases leases@.len() - i,
    {
        assert(all[i as int] == leases@[i as int]@);
        if text::str_eq(leases[i].owner_instance_id.as_str(), id) {
            return true;
        }
        i = i + 1;
    }
    false
}

/// Where the pass over the instances stands.
pub struct OrphanAcc {
    /// When each instance without a lease was first seen.
    pub seen: Seq<(Seq<char>, u64)>,
    /// The instances that are still without a lease.
    pub still: Seq<Seq<char>>,
    /// The instances to terminate.
    pub terminate: Seq<Seq<char>>,
}

/// The entries of a list of ids that differ from `id`.
pub open spec fn ids_without(list: Seq<Seq<char>>, id: Seq<char>) -> Seq<Seq<char>> {
    list.filter(|x: Seq<char>| x != id)
}

/// One instance of the pass.
pub open spec fn orphan_step(
    acc: OrphanAcc,
    inst: InstanceView,
    leases: Seq<LeaseView>,
    now: u64,
    grace_secs: u64,
) -> OrphanAcc {
    if !inst.in_service() {
        acc
    } else if is_owner(leases, inst.id) {
        OrphanAcc { seen: without(acc.seen, inst.id), ..acc }
    } else {
        match seen_at(acc.seen, inst.id) {
            None => OrphanAcc {
                seen: acc.seen.push((inst.id, now)),
                still: acc.still.push(inst.id),
                ..acc
            },
            Some(t) => if scaler::elapsed_secs(t, now) < grace_secs {
                OrphanAcc { still: acc.still.push(inst.id), ..acc }
            } else {
                OrphanAcc {
                    seen: without(acc.seen, inst.id),
                    still: ids_without(acc.still, inst.id),
                    terminate: acc.terminate.push(inst.id),
                }
            },
        }
    }
}

/// The pass over a list of instances.
pub open spec fn orphan_pass(
    asg: Seq<InstanceView>,
    seen: Seq<(Seq<char>, u64)>,
    leases: Seq<LeaseView>,
    now: u64,
    grace_secs: u64,
) -> OrphanAcc
    decreases asg.len(),
{
    if asg.len() == 0 {
        OrphanAcc { seen, still: Seq::empty(), terminate: Seq::empty() }
    } else {
        orphan_step(
            orphan_pass(asg.drop_last(), seen, leases, now, grace_secs),
            asg.last(),
            leases,
            now,
            grace_secs,
        )
    }
}

fn lookup(seen: &Vec<OrphanEntry>, id: &str) -> (r: Option<u64>)
    ensures
        r == seen_at(seen_view(seen@), id@),
{
    let ghost all = seen_view(seen@);
    let mut i: usize = seen.len();
    assert(all.take(i as int) =~= all);
    while i > 0
        invariant
            i <= seen@.len(),
            all == seen_view(seen@),
            seen_at(all, id@) == seen_at(all.take(i as int), id@),
        decreases i,
    {
        proof {
            assert(all.take(i as int).last() == all[i - 1]);
            assert(all.take(i as int).drop_last() =~= all.take(i - 1));
        }
        if text::str_eq(seen[i - 1].instance_id.as_str(), id) {
            return Some(seen[i - 1].first_seen);
        }
        i = i - 1;
    }
    None
}

fn copy_entry(e: &OrphanEntry) -> (out: OrphanEntry)
    ensures
        out.instance_id@ == e.instance_id@,
        out.first_seen == e.first_seen,
{
    OrphanEntry { instance_id: text::copy_str(e.instance_id.as_str()), first_seen: e.first_seen }
}

fn drop_id(seen: &Vec<OrphanEntry>, id: &str) -> (out: Vec<OrphanEntry>)
    ensures
        seen_view(out@) == without(seen_view(seen@), id@),
{
    let ghost all = seen_view(seen@);
    let mut out: Vec<OrphanEntry> = Vec::new();
    let mut i: usize = 0;
    assert(all.take(0) =~= Seq::<(Seq<char>, u64)>::empty());
    assert(seen_view(out@) =~= without(all.take(0), id@));
    while i < seen.len()
        invariant
            i <= seen@.len(),
            all == seen_view(seen@),
            seen_view(out@) == without(all.take(i as int), id@),
        decreases seen@.len() - i,
    {
        let ghost was = out@;
        proof {
            assert(all.take(i + 1).last() == all[i as int]);
            assert(all.take(i + 1).drop_last() =~= all.take(i as int));
        }
        if !text::str_eq(seen[i].instance_id.as_str(), id) {
            let e = copy_entry(&seen[i]);
            out.push(e);
            assert(seen_view(out@) =~= seen_view(was).push(all[i as int]));
        }
        i = i + 1;
    }
    assert(all.take(i as int) =~= all);
    out
}

fn has_id(list: &Vec<String>, id: &str) -> (yes: bool)
    ensures
        yes == text::texts(list@).contains(id@),
{
    let ghost all = text::texts(list@);
    let mut i: usize = 0;
    while i < list.len()
        invariant
            i <= list@.len(),
            all == text::texts(list@),
            forall|k: int| 0 <= k < i ==> #[trigger] all[k] != id@,
        decreases list@.len() - i,
    {
        if text::str_eq(list[i].as_str(), id) {
            assert(all[i as int] == id@);
            return true;
        }
        i = i + 1;
    }
    false
}

fn keep_only(seen: &Vec<OrphanEntry>, keep: &Vec<String>) -> (out: Vec<OrphanEntry>)
    ensures
        seen_view(out@) == only(seen_view(seen@), text::texts(keep@)),
{
    let ghost all = seen_view(seen@);
    let ghost ids = text::texts(keep@);
    let mut out: Vec<OrphanEntry> = Vec::new();
    let mut i: usize = 0;
    assert(all.take(0) =~= Seq::<(Seq<char>, u64)>::empty());
    assert(seen_view(out@) =~= only(all.take(0), ids));
    while i < seen.len()
        invariant
            i <= seen@.len(),
            all == seen_view(seen@),
            ids == text::texts(keep@),
            seen_view(out@) == only(all.take(i as int), ids),
        decreases seen@.len() - i,
    {
        let ghost was = out@;
        proof {
            assert(all.take(i + 1).last() == all[i as int]);
            assert(all.take(i + 1).drop_last() =~= all.take(i as int));
        }
        if has_id(keep, seen[i].instance_id.as_str()) {
            let e = copy_entry(&seen[i]);
            out.push(e);
            assert(seen_view(out@) =~= seen_view(was).push(all[i as int]));
        }
        i = i + 1;
    }
    assert(all.take(i as int) =~= all);
    out
}

fn remove_id(list: &Vec<String>, id: &str) -> (out: Vec<String>)
    ensures
        text::texts(out@) == ids_without(text::texts(list@), id@),
{
    let ghost all = text::texts(list@);
    let ghost keep = |x: Seq<char>| x != id@;
    let mut out: Vec<String> = Vec::new();
    let mut i: usize = 0;
    proof {
        reveal(Seq::filter);
        assert(all.take(0) =~= Seq::<Seq<char>>::empty());
        assert(text::texts(out@) =~= all.take(0).filter(keep));
    }
    while i < list.len()
        invariant
            i <= list@.len(),
            all == text::texts(list@),
            keep == (|x: Seq<char>| x != id@),
            text::texts(out@) == all.take(i as int).filter(keep),
        decreases list@.len() - i,
    {
        let ghost was = out@;
        proof {
            reveal(Seq::filter);
            assert(all.take(i + 1).last() == all[i as int]);
            assert(all.take(i + 1).drop_last() =~= all.take(i as int));
        }
        if !text::str_eq(list[i].as_str(), id) {
            let s = text::copy_str(list[i].as_str());
            proof {
                text::lemma_texts_push(was, s);
            }
            out.push(s);
        }
        i = i + 1;
    }
    assert(all.take(i as int) =~= all);
    out
}

proof fn lemma_seen_none(seen: Seq<(Seq<char>, u64)>, id: Seq<char>)
    requires
        seen_at(seen, id) is None,
    ensures
        forall|i: int| 0 <= i < seen.len() ==> (#[trigger] seen[i]).0 != id,
    decreases seen.len(),
{
    if seen.len() > 0 {
        lemma_seen_none(seen.drop_last(), id);
        assert forall|i: int| 0 <= i < seen.len() implies (#[trigger] seen[i]).0 != id by {
            if i < seen.len() - 1 {
                assert(seen.drop_last()[i] == seen[i]);
            }
        }
    }
}

proof fn lemma_distinct_push(seen: Seq<(Seq<char>, u64)>, id: Seq<char>, t: u64)
    requires
        distinct(seen),
        seen_at(seen, id) is None,
    ensures
        distinct(seen.push((id, t))),
{
    lemma_seen_none(seen, id);
    let p = seen.push((id, t));
    assert forall|i: int, j: int| 0 <= i < j < p.len() implies (#[trigger] p[i]).0 != (
    #[trigger] p[j]).0 by {
        assert(p[i] == seen[i]);
        if j < seen.len() {
            assert(p[j] == seen[j]);
        }
    }
}

/// Every entry of a filtered list comes from the list, and none twice.
proof fn lemma_without(seen: Seq<(Seq<char>, u64)>, id: Seq<char>)
    requires
        distinct(seen),
    ensures
        distinct(without(seen, id)),
        forall|i: int|
            0 <= i < without(seen, id).len() ==> seen.contains(#[trigger] without(seen, id)[i]),
    decreases seen.len(),
{
    if seen.len() > 0 {
        let d = seen.drop_last();
        assert(distinct(d)) by {
            assert forall|i: int, j: int| 0 <= i < j < d.len() implies (#[trigger] d[i]).0 != (
            #[trigger] d[j]).0 by {
                assert(d[i] == seen[i] && d[j] == seen[j]);
            }
        }
        lemma_without(d, id);
        lemma_extend(seen, without(d, id));
    }
}

proof fn lemma_only(seen: Seq<(Seq<char>, u64)>, keep: Seq<Seq<char>>)
    requires
        distinct(seen),
    ensures
        distinct(only(seen, keep)),
        forall|i: int|
            0 <= i < only(seen, keep).len() ==> seen.contains(#[trigger] only(seen, keep)[i]),
    decreases seen.len(),
{
    if seen.len() > 0 {
        let d = seen.drop_last();
        assert(distinct(d)) by {
            assert forall|i: int, j: int| 0 <= i < j < d.len() implies (#[trigger] d[i]).0 != (
            #[trigger] d[j]).0 by {
                assert(d[i] == seen[i] && d[j] == seen[j]);
            }
        }
        lemma_only(d, keep);
        lemma_extend(seen, only(d, keep));
    }
}

/// A distinct part of all entries but the last stays distinct with the last.
proof fn lemma_extend(seen: Seq<(Seq<char>, u64)>, part: Seq<(Seq<char>, u64)>)
    requires
        seen.len() > 0,
        distinct(seen),
        distinct(part),
        forall|i: int| 0 <= i < part.len() ==> seen.drop_last().contains(#[trigger] part[i]),
    ensures
        distinct(part.push(seen.last())),
        forall|i: int| 0 <= i < part.len() ==> seen.contains(#[trigger] part[i]),
        forall|i: int|
            0 <= i < part.len() + 1 ==> seen.contains(#[trigger] part.push(seen.last())[i]),
{
    let d = seen.drop_last();
    let p = part.push(seen.last());
    assert forall|i: int| 0 <= i < part.len() implies seen.contains(#[trigger] part[i])
        && part[i].0 != seen.last().0 by {
        let k = choose|k: int| 0 <= k < d.len() && d[k] == part[i];
        assert(seen[k] == part[i]);
        assert(seen[k].0 != seen[seen.len() - 1].0);
    }
    assert(seen.contains(seen.last())) by {
        assert(seen[seen.len() - 1] == seen.last());
    }
    assert forall|i: int| 0 <= i < part.len() + 1 implies seen.contains(#[trigger] p[i]) by {
        if i < part.len() {
            assert(p[i] == part[i]);
        }
    }
    assert forall|i: int, j: int| 0 <= i < j < p.len() implies (#[trigger] p[i]).0 != (
    #[trigger] p[j]).0 by {
        assert(p[i] == part[i]);
        if j < part.len() {
            assert(p[j] == part[j]);
        }
    }
}

/// Goes over the instances in service that hold no lease.
///
/// Such an instance gets a grace period from the pass in which it was first
/// seen. When the period is over the instance is terminated without shrinking
/// the group, so that a replacement is launched. Instances that got a lease or
/// left service are forgotten. `now` is a monotonic clock in nanoseconds.
pub fn section_22_orphaned_asg_instances(
    snap: &SystemSnapshot,
    state: &mut CleanupState,
    now: u64,
    grace_secs: u64,
) -> (terminate: Vec<String>)
    requires
        old(state).wf(),
    ensures
        final(state).wf(),
        ({
            let acc = orphan_pass(
                snapshot::instance_views(snap.asg@),
                seen_view(old(state).orphan_first_seen@),
                snapshot::lease_views(snap.leases@),
                now,
                grace_secs,
            );
            &&& text::texts(terminate@) == acc.terminate
            &&& seen_view(final(state).orphan_first_seen@) == only(acc.seen, acc.still)
        }),
{
    let ghost all = snapshot::instance_views(snap.asg@);
    let ghost leases = snapshot::lease_views(snap.leases@);
    let ghost first = seen_view(state.orphan_first_seen@);
    let mut still: Vec<String> = Vec::new();
    let mut terminate: Vec<String> = Vec::new();
    let mut i: usize = 0;
    proof {
        assert(all.take(0) =~= Seq::<InstanceView>::empty());
        assert(text::texts(still@) =~= Seq::<Seq<char>>::empty());
        assert(text::texts(terminate@) =~= Seq::<Seq<char>>::empty());
    }
    while i < snap.asg.len()
        invariant
            i <= snap.asg@.len(),
            all == snapshot::instance_views(snap.asg@),
            leases == snapshot::lease_views(snap.leases@),
            first == seen_view(old(state).orphan_first_seen@),
            state.wf(),
            (OrphanAcc {
                seen: seen_view(state.orphan_first_seen@),
                still: text::texts(still@),
                terminate: text::texts(terminate@),
            }) == orphan_pass(all.take(i as int), first, leases, now, grace_secs),
        decreases snap.asg@.len() - i,
    {
        let inst = &snap.asg[i];
        let ghost seen = seen_view(state.orphan_first_seen@);
        proof {
            assert(all.take(i + 1).last() == inst@);
            assert(all.take(i + 1).drop_last() =~= all.take(i as int));
        }
        if inst.is_in_service() {
            let id = inst.instance_id.as_str();
            if owns_lease(&snap.leases, id) {
                proof {
                    lemma_without(seen, id@);
                }
                let kept = drop_id(&state.orphan_first_seen, id);
                state.orphan_first_seen = kept;
            } else {
                match lookup(&state.orphan_first_seen, id) {
                    None => {
                        proof {
                            lemma_distinct_push(seen, id@, now);
                        }
                        let e = OrphanEntry { instance_id: text::copy_str(id), first_seen: now };
                        let s = text::copy_str(id);
                        proof {
                            text::lemma_texts_push(still@, s);
                        }
                        state.orphan_first_seen.push(e);
                        assert(seen_view(state.orphan_first_seen@) =~= seen.push((id@, now)));
                        still.push(s);
                    },
                    Some(t) => {
                        let elapsed: u64 = scaler::seconds_since(t, now);
                        let s = text::copy_str(id);
                        if elapsed < grace_secs {
                            proof {
                                text::lemma_texts_push(still@, s);
                            }
                            still.push(s);
                        } else {
                            proof {
                                lemma_without(seen, id@);
                                text::lemma_texts_push(terminate@, s);
                            }
                            let kept = drop_id(&state.orphan_first_seen, id);
                            state.orphan_first_seen = kept;
                            still = remove_id(&still, id);
                            terminate.push(s);
                        }
                    },
                }
            }
        }
        i = i + 1;
    }
    assert(all.take(i as int) =~= all);
    proof {
        lemma_only(seen_view(state.orphan_first_seen@), text::texts(still@));
    }
    let kept = keep_only(&state.orphan_first_seen, &still);
    state.orphan_first_seen = kept;
    terminate
}

/// What the pass keeps of the state before it: an instance was either seen
/// before, at the time noted then, or it is new.
proof fn lemma_pass_seen(
    asg: Seq<InstanceView>,
    seen: Seq<(Seq<char>, u64)>,
    leases: Seq<LeaseView>,
    now: u64,
    grace_secs: u64,
    id: Seq<char>,
)
    requires
        seen_at(seen, id) is None,
        grace_secs > 0,
    ensures
        ({
            let acc = orphan_pass(asg, seen, leases, now, grace_secs);
            &&& seen_at(acc.seen, id) is None || seen_at(acc.seen, id) == Some(now)
            &&& !acc.terminate.contains(id)
        }),
    decreases asg.len(),
{
    if asg.len() > 0 {
        lemma_pass_seen(asg.drop_last(), seen, leases, now, grace_secs, id);
        let acc = orphan_pass(asg.drop_last(), seen, leases, now, grace_secs);
        let inst = asg.last();
        lemma_without_lookup(acc.seen, inst.id, id);
        let p = acc.seen.push((inst.id, now));
        assert(p.drop_last() =~= acc.seen);
        let t = acc.terminate.push(inst.id);
        if t.contains(id) && inst.id != id {
            let k = choose|k: int| 0 <= k < t.len() && t[k] == id;
            assert(acc.terminate[k] == id);
        }
    }
}

proof fn lemma_without_lookup(seen: Seq<(Seq<char>, u64)>, gone: Seq<char>, id: Seq<char>)
    ensures
        seen_at(without(seen, gone), id) == (if gone == id {
            None
        } else {
            seen_at(seen, id)
        }),
    decreases seen.len(),
{
    if seen.len() > 0 {
        lemma_without_lookup(seen.drop_last(), gone, id);
        let rest = without(seen.drop_last(), gone);
        assert(rest.push(seen.last()).drop_last() =~= rest);
    }
}

/// An instance is never terminated in the pass that first sees it without a
/// lease, whatever else that pass does, as long as there is a grace period.
pub proof fn law_orphan_gets_grace(
    asg: Seq<InstanceView>,
    seen: Seq<(Seq<char>, u64)>,
    leases: Seq<LeaseView>,
    now: u64,
    grace_secs: u64,
    id: Seq<char>,
)
    requires
        seen_at(seen, id) is None,
        grace_secs > 0,
    ensures
        !orphan_pass(asg, seen, leases, now, grace_secs).terminate.contains(id),
{
    lemma_pass_seen(asg, seen, leases, now, grace_secs, id);
}

/// Only instances in service that hold no lease are terminated.
pub proof fn law_only_orphans_terminated(
    asg: Seq<InstanceView>,
    seen: Seq<(Seq<char>, u64)>,
    leases: Seq<LeaseView>,
    now: u64,
    grace_secs: u64,
    id: Seq<char>,
)
    requires
        orphan_pass(asg, seen, leases, now, grace_secs).terminate.contains(id),
    ensures
        in_service_with_id(asg, id),
        !is_owner(leases, id),
    decreases asg.len(),
{
    if asg.len() > 0 {
        let acc = orphan_pass(asg.drop_last(), seen, leases, now, grace_secs);
        let inst = asg.last();
        if acc.terminate.contains(id) {
            law_only_orphans_terminated(asg.drop_last(), seen, leases, now, grace_secs, id);
            let d = asg.drop_last();
            let k = choose|k: int|
                0 <= k < d.len() && (#[trigger] d[k]).in_service() && d[k].id == id;
            assert(asg[k] == d[k]);
            assert(asg[k].in_service() && asg[k].id == id);
        } else {
            let t = acc.terminate.push(inst.id);
            let k = choose|k: int| 0 <= k < t.len() && t[k] == id;
            if k < acc.terminate.len() {
                assert(acc.terminate[k] == id);
            }
            assert(asg[asg.len() - 1] == inst);
            assert(inst.in_service() && inst.id == id);
        }
    }
}

// ── Backends without a lease ──────────────────────────────────────────────

/// The backends that are switched off: active or draining without a lease.
pub open spec fn leaseless(list: Seq<BackendView>) -> Seq<Ipv4>
    decreases list.len(),
{
    if list.len() == 0 {
        Seq::empty()
    } else {
        let rest = leaseless(list.drop_last());
        let b = list.last();
        if b.lease is None && (b.state is Active || b.state is Draining) {
            rest.push(b.ip)
        } else {
            rest
        }
    }
}

/// Goes over the backends without a lease: an active or draining one has
/// crashed and is disabled; disabled and unknown ones stay as they are.
pub fn section_23_backends_without_leases(backends: &Vec<BackendStatus>) -> (disable: Vec<Ipv4>)
    ensures
        disable@ == leaseless(snapshot::backend_views(backends@)),
{
    let ghost all = snapshot::backend_views(backends@);
    let mut disable: Vec<Ipv4> = Vec::new();
    let mut i: usize = 0;
    assert(all.take(0) =~= Seq::<BackendView>::empty());
    assert(disable@ =~= leaseless(all.take(0)));
    while i < backends.len()
        invariant
            i <= backends@.len(),
            all == snapshot::backend_views(backends@),
            disable@ == leaseless(all.take(i as int)),
        decreases backends@.len() - i,
    {
        let b = &backends[i];
        proof {
            assert(all.take(i + 1).last() == b@);
            assert(all.take(i + 1).drop_last() =~= all.take(i as int));
        }
        if b.lease.is_none() && (b.weight_state.is_active() || b.weight_state.is_draining()) {
            disable.push(b.ip);
        }
        i = i + 1;
    }
    assert(all.take(i as int) =~= all);
    disable
}

// ── The whole pass ────────────────────────────────────────────────────────

/// What a cleanup pass decided.
#[derive(Debug)]
pub struct CleanupPlan {
    pub leases: LeasePass,
    /// Instances to terminate without shrinking the group.
    pub terminate: Vec<String>,
    /// Backends to disable.
    pub disable: Vec<Ipv4>,
}

/// Runs the three sections against a snapshot; on the standby load balancer
/// nothing is decided and nothing changes.
///
/// `now_ms` is the wall clock in milliseconds, `now` a monotonic clock in
/// nanoseconds.
pub fn run(
    snap: &SystemSnapshot,
    state: &mut CleanupState,
    is_master: bool,
    now_ms: u64,
    now: u64,
    grace_secs: u64,
) -> (plan: Option<CleanupPlan>)
    requires
        old(state).wf(),
    ensures
        final(state).wf(),
        plan is Some <==> is_master,
        !is_master ==> *final(state) == *old(state),
        plan matches Some(p) ==> {
            let acc = orphan_pass(
                snapshot::instance_views(snap.asg@),
                seen_view(old(state).orphan_first_seen@),
                snapshot::lease_views(snap.leases@),
                now,
                grace_secs,
            );
            &&& text::texts(p.terminate@) == acc.terminate
            &&& seen_view(final(state).orphan_first_seen@) == only(acc.seen, acc.still)
            &&& p.disable@ == leaseless(snapshot::backend_views(snap.backends@))
            &&& p.leases is GroupUnknown <==> snap.asg_group is None
            &&& p.leases is NoneInService <==> snap.asg_group is Some && snap.leases@.len() > 0
                && !any_in_service(snapshot::instance_views(snap.asg@))
            &&& p.leases matches LeasePass::Outcomes(v) ==> {
                &&& v@.len() == snap.leases@.len()
                &&& forall|i: int|
                    0 <= i < v@.len() ==> #[trigger] v@[i] == lease_outcome(
                        snap.leases@[i]@,
                        snapshot::instance_views(snap.asg@),
                        snapshot::backend_views(snap.backends@),
                        snap.asg_group->0.desired_capacity <= snap.asg_group->0.min_size,
                        now_ms,
                    )
            }
        },
{
    if !is_master {
        return None;
    }
    let leases = section_21_active_leases(snap, now_ms);
    let terminate = section_22_orphaned_asg_instances(snap, state, now, grace_secs);
    let disable = section_23_backends_without_leases(&snap.backends);
    Some(CleanupPlan { leases, terminate, disable })
}

// ── Actions ───────────────────────────────────────────────────────────────

/// What is done about instances without a lease and backends without one: the
/// group replaces the instances, so it does not shrink.
pub open spec fn stray_actions_of(terminate: Seq<Seq<char>>, disable: Seq<Ipv4>) -> Seq<
    ActionView,
> {
    Seq::new(
        terminate.len(),
        |i: int| ActionView::Terminate { instance_id: terminate[i], decrement: false },
    ) + Seq::new(disable.len(), |i: int| ActionView::Disable { ip: disable[i] })
}

/// The actions for the instances and backends without a lease; each is carried
/// out whether or not the one before it worked.
pub fn stray_actions(terminate: &Vec<String>, disable: &Vec<Ipv4>) -> (actions: Vec<Action>)
    ensures
        action_views(actions@) == stray_actions_of(text::texts(terminate@), disable@),
{
    let ghost want = stray_actions_of(text::texts(terminate@), disable@);
    let mut actions: Vec<Action> = Vec::new();
    let mut i: usize = 0;
    while i < terminate.len()
        invariant
            i <= terminate@.len(),
            want == stray_actions_of(text::texts(terminate@), disable@),
            action_views(actions@) == want.take(i as int),
        decreases terminate@.len() - i,
    {
        let instance_id = text::copy_str(terminate[i].as_str());
        let ghost was = actions@;
        let action = Action::Terminate { instance_id, decrement: false };
        actions.push(action);
        assert(action_views(actions@) =~= action_views(was).push(action@));
        assert(action_views(actions@) =~= want.take(i + 1));
        i = i + 1;
    }
    let mut k: usize = 0;
    while k < disable.len()
        invariant
            k <= disable@.len(),
            want == stray_actions_of(text::texts(terminate@), disable@),
            action_views(actions@) == want.take(terminate@.len() + k),
        decreases disable@.len() - k,
    {
        let ghost was = actions@;
        let action = Action::Disable { ip: disable[k] };
        actions.push(action);
        assert(action_views(actions@) =~= action_views(was).push(action@));
        assert(action_views(actions@) =~= want.take(terminate@.len() + k + 1));
        k = k + 1;
    }
    assert(action_views(actions@) =~= want);
    actions
}

/// The weight file of the backend at an address.
pub open spec fn weight_file(dir: Seq<char>, ip: Ipv4) -> Seq<char> {
    dir + "/backend-"@ + ipv4::dotted(ip) + ".weight"@
}

/// The path of the weight file of the backend at `ip`.
pub fn weight_path(dir: &str, ip: Ipv4) -> (path: String)
    ensures
        path@ == weight_file(dir@, ip),
{
    let mut path = text::copy_str(dir);
    path.push_str("/backend-");
    path.push_str(ip.to_text().as_str());
    path.push_str(".weight");
    path
}

/// A command to the slot pool.
#[derive(Debug)]
pub enum PoolCommand {
    /// Delete a key.
    Del { key: String },
    /// Remove a member of a sorted set.
    ZRem { key: String, member: String },
    /// Add a member of a sorted set with a score.
    ZAdd { key: String, member: String, score: u64 },
}

/// Whether these commands give a slot back to the pool at the time `now`.
pub open spec fn releases(commands: Seq<PoolCommand>, slot: u32, now: u64) -> bool {
    let member_of = text::decimal(slot as nat);
    &&& commands.len() == 3
    &&& commands[0] matches PoolCommand::Del { key } && key@ == redis_pool::owner_key(member_of)
    &&& commands[1] matches PoolCommand::ZRem { key, member } && key@ == KEY_LEASES@ && member@
        == member_of
    &&& commands[2] matches PoolCommand::ZAdd { key, member, score } && key@ == KEY_AVAILABLE@
        && member@ == member_of && score == now
}

/// The commands that give a slot back to the pool at the time `now`: the owner
/// goes, then the lease, then the slot is available again.
pub fn release_slot(slot: u32, now: u64) -> (commands: Vec<PoolCommand>)
    ensures
        releases(commands@, slot, now),
{
    let member = text::decimal_of(slot as u64);
    let mut commands: Vec<PoolCommand> = Vec::new();
    commands.push(PoolCommand::Del { key: redis_pool::key_owner(member.as_str()) });
    commands.push(
        PoolCommand::ZRem {
            key: text::copy_str(KEY_LEASES),
            member: text::copy_str(member.as_str()),
        },
    );
    commands.push(PoolCommand::ZAdd { key: text::copy_str(KEY_AVAILABLE), member, score: now });
    commands
}

/// What carrying out an action takes.
#[derive(Debug)]
pub enum Effect {
    /// Nothing but a line in the log.
    DryRun,
    /// Write this text to a file.
    Write { path: String, value: String },
    /// Terminate an instance; with `decrement` the group shrinks.
    Terminate { instance_id: String, decrement: bool },
    /// Send these commands to the slot pool.
    Send { commands: Vec<PoolCommand> },
}

/// Whether an effect writes the weight of a backend.
pub open spec fn writes_weight(e: Effect, dir: Seq<char>, ip: Ipv4, weight: Seq<char>) -> bool {
    e matches Effect::Write { path, value } && path@ == weight_file(dir, ip) && value@ == weight
}

/// What writing the weight of a backend takes; nothing in a dry run.
pub fn weight_effect(dir: &str, ip: Ipv4, weight: &str, dry_run: bool) -> (e: Effect)
    ensures
        if dry_run {
            e is DryRun
        } else {
            writes_weight(e, dir@, ip, weight@)
        },
{
    if dry_run {
        return Effect::DryRun;
    }
    Effect::Write { path: weight_path(dir, ip), value: text::copy_str(weight) }
}

/// What carrying out an action at the time `now` takes; nothing in a dry run.
pub fn effect_of(action: Action, dir: &str, dry_run: bool, now: u64) -> (e: Effect)
    ensures
        if dry_run {
            e is DryRun
        } else {
            match action@ {
                ActionView::Enable { ip } => writes_weight(e, dir@, ip, WEIGHT_ACTIVE@),
                ActionView::Disable { ip } => writes_weight(e, dir@, ip, WEIGHT_DISABLED@),
                ActionView::Terminate { instance_id: id, decrement: d } => e matches
                    Effect::Terminate { instance_id, decrement } && instance_id@ == id && decrement
                    == d,
                ActionView::ReleaseSlot { slot } => e matches Effect::Send { commands } && releases(
                    commands@,
                    slot,
                    now,
                ),
            }
        },
{
    if dry_run {
        return Effect::DryRun;
    }
    match action {
        Action::Enable { ip } => weight_effect(dir, ip, WEIGHT_ACTIVE, false),
        Action::Disable { ip } => weight_effect(dir, ip, WEIGHT_DISABLED, false),
        Action::Terminate { instance_id, decrement } => Effect::Terminate {
            instance_id,
            decrement,
        },
        Action::ReleaseSlot { slot } => Effect::Send { commands: release_slot(slot, now) },
    }
}

// ── Laws ──────────────────────────────────────────────────────────────────

/// Whether this is the first backend whose own lease has this slot.
pub open spec fn is_first_of_slot(list: Seq<BackendView>, slot: u32, i: int) -> bool {
    &&& 0 <= i < list.len()
    &&& list[i].lease matches Some(l) && l.slot == slot
    &&& forall|k: int|
        0 <= k < i ==> !((#[trigger] list[k]).lease matches Some(l) && l.slot == slot)
}

/// The backend of a slot is the first one whose own lease has that slot; there is
/// none only where no lease of a backend has it.
pub proof fn law_backend_of_slot(list: Seq<BackendView>, slot: u32)
    ensures
        match backend_of_slot(list, slot) {
            Some(b) => exists|i: int| #[trigger] is_first_of_slot(list, slot, i) && list[i] == b,
            None => forall|k: int|
                0 <= k < list.len() ==> !((#[trigger] list[k]).lease matches Some(l) && l.slot
                    == slot),
        },
    decreases list.len(),
{
    if list.len() > 0 {
        let rest = list.skip(1);
        if list[0].lease is Some && list[0].lease->0.slot == slot {
            assert(is_first_of_slot(list, slot, 0));
        } else {
            law_backend_of_slot(rest, slot);
            match backend_of_slot(rest, slot) {
                Some(b) => {
                    let j = choose|i: int|
                        #[trigger] is_first_of_slot(rest, slot, i) && rest[i] == b;
                    assert(list[j + 1] == b);
                    assert forall|k: int| 0 <= k < j + 1 implies !((#[trigger] list[k]).lease
                        matches Some(l) && l.slot == slot) by {
                        if k > 0 {
                            assert(rest[k - 1] == list[k]);
                        }
                    }
                    assert(is_first_of_slot(list, slot, j + 1));
                },
                None => {
                    assert forall|k: int| 0 <= k < list.len() implies !((#[trigger] list[k]).lease
                        matches Some(l) && l.slot == slot) by {
                        if k > 0 {
                            assert(rest[k - 1] == list[k]);
                        }
                    }
                },
            }
        }
    }
}

/// Whatever is done for a lease concerns its own slot, its own owner and the
/// address of a backend whose own lease has that slot.
pub proof fn law_lease_actions_concern_the_lease(
    lease: LeaseView,
    asg: Seq<InstanceView>,
    backends: Seq<BackendView>,
    group_at_min: bool,
    now: u64,
    decrement: bool,
    i: int,
)
    requires
        ({
            let out = lease_outcome(lease, asg, backends, group_at_min, now);
            0 <= i < actions_of(lease, out, decrement).len()
        }),
    ensures
        match actions_of(
            lease,
            lease_outcome(lease, asg, backends, group_at_min, now),
            decrement,
        )[i] {
            ActionView::ReleaseSlot { slot } => slot == lease.slot,
            ActionView::Terminate { instance_id, .. } => instance_id == lease.owner,
            ActionView::Enable { ip } => exists|k: int|
                #[trigger] is_first_of_slot(backends, lease.slot, k) && backends[k].ip == ip,
            ActionView::Disable { ip } => exists|k: int|
                #[trigger] is_first_of_slot(backends, lease.slot, k) && backends[k].ip == ip,
        },
{
    law_backend_of_slot(backends, lease.slot);
}

/// Whether the owner of a lease is in service.
pub open spec fn owner_serves(asg: Seq<InstanceView>, owner: Seq<char>) -> bool {
    exists|k: int|
        0 <= k < asg.len() && (#[trigger] asg[k]).id == owner && asg[k].lifecycle == "InService"@
}

/// What is done for a lease whose backend is known, in every case. A slot of an
/// owner that is gone is released and its backend disabled. A backend that has
/// drained is disabled and its owner terminated, unless the group is at its
/// minimum. A disabled backend with a live lease is enabled. Nothing else is done.
pub proof fn law_what_is_done_for_a_lease(
    lease: LeaseView,
    asg: Seq<InstanceView>,
    backends: Seq<BackendView>,
    group_at_min: bool,
    now: u64,
    decrement: bool,
    i: int,
)
    requires
        is_first_of_slot(backends, lease.slot, i),
        lease.owner != OWNER_MISSING@,
        lease.owner != OWNER_UNKNOWN@,
    ensures
        ({
            let out = lease_outcome(lease, asg, backends, group_at_min, now);
            let done = actions_of(lease, out, decrement);
            let b = backends[i];
            let serves = owner_serves(asg, lease.owner);
            let busy = b.ipvs matches Some(v) && v.active_connections > 0;
            let drained = serves && b.state is Draining && !busy && !group_at_min;
            let missed = serves && b.state is Disabled && lease.expires_ms > now;
            &&& !serves ==> done == seq![
                ActionView::ReleaseSlot { slot: lease.slot },
                ActionView::Disable { ip: b.ip },
            ]
            &&& drained ==> done == seq![
                ActionView::Disable { ip: b.ip },
                ActionView::Terminate { instance_id: lease.owner, decrement },
            ]
            &&& missed ==> done == seq![ActionView::Enable { ip: b.ip }]
            &&& serves && !drained && !missed ==> done.len() == 0
            &&& out is StillDraining <==> serves && b.state is Draining && busy
            &&& out is MinSizeReached <==> serves && b.state is Draining && !busy && group_at_min
            &&& out is Healthy <==> serves && b.state is Active
            &&& out is StaleLease <==> serves && b.state is Disabled && lease.expires_ms <= now
            &&& out is UnknownWeight <==> serves && b.state is Unknown
        }),
{
    law_backend_of_slot(backends, lease.slot);
    lemma_first_of_slot_unique(backends, lease.slot, i);
    lemma_serves(asg, lease.owner);
}

/// What is done for a lease whose backend is not known: the slot of an owner that
/// is gone is released, and nothing else.
pub proof fn law_lease_without_backend(
    lease: LeaseView,
    asg: Seq<InstanceView>,
    backends: Seq<BackendView>,
    group_at_min: bool,
    now: u64,
    decrement: bool,
)
    requires
        forall|k: int|
            0 <= k < backends.len() ==> !((#[trigger] backends[k]).lease matches Some(l) && l.slot
                == lease.slot),
        lease.owner != OWNER_MISSING@,
        lease.owner != OWNER_UNKNOWN@,
    ensures
        ({
            let out = lease_outcome(lease, asg, backends, group_at_min, now);
            let done = actions_of(lease, out, decrement);
            if owner_serves(asg, lease.owner) {
                out is NotResolved && done.len() == 0
            } else {
                done == seq![ActionView::ReleaseSlot { slot: lease.slot }]
            }
        }),
{
    law_backend_of_slot(backends, lease.slot);
    lemma_serves(asg, lease.owner);
}

/// Nothing is done for a lease whose owner carries a mark for an owner that is not
/// known.
pub proof fn law_marked_owner_untouched(
    lease: LeaseView,
    asg: Seq<InstanceView>,
    backends: Seq<BackendView>,
    group_at_min: bool,
    now: u64,
    decrement: bool,
)
    requires
        lease.owner == OWNER_MISSING@ || lease.owner == OWNER_UNKNOWN@,
    ensures
        actions_of(
            lease,
            lease_outcome(lease, asg, backends, group_at_min, now),
            decrement,
        ).len() == 0,
{
}

proof fn lemma_first_of_slot_unique(list: Seq<BackendView>, slot: u32, i: int)
    requires
        is_first_of_slot(list, slot, i),
    ensures
        backend_of_slot(list, slot) == Some(list[i]),
{
    law_backend_of_slot(list, slot);
    match backend_of_slot(list, slot) {
        Some(b) => {
            let j = choose|j: int| #[trigger] is_first_of_slot(list, slot, j) && list[j] == b;
            if j < i {
                assert(list[j].lease matches Some(l) && l.slot == slot);
            } else if i < j {
                assert(list[i].lease matches Some(l) && l.slot == slot);
            }
        },
        None => {
            assert(list[i].lease matches Some(l) && l.slot == slot);
        },
    }
}

proof fn lemma_serves(asg: Seq<InstanceView>, owner: Seq<char>)
    ensures
        in_service_with_id(asg, owner) == owner_serves(asg, owner),
{
    if in_service_with_id(asg, owner) {
        let k = choose|k: int|
            0 <= k < asg.len() && (#[trigger] asg[k]).in_service() && asg[k].id == owner;
        assert(asg[k].id == owner && asg[k].lifecycle == "InService"@);
    }
    if owner_serves(asg, owner) {
        let k = choose|k: int|
            0 <= k < asg.len() && (#[trigger] asg[k]).id == owner && asg[k].lifecycle
                == "InService"@;
        assert(asg[k].in_service() && asg[k].id == owner);
    }
}

/// No two instances of the group have the same id.
pub open spec fn distinct_ids(asg: Seq<InstanceView>) -> bool {
    forall|i: int, j: int|
        0 <= i < j < asg.len() ==> (#[trigger] asg[i]).id != (#[trigger] asg[j]).id
}

/// Whether the grace period of an instance that was first seen at `since` is over.
pub open spec fn grace_is_over(since: u64, now: u64, grace_secs: u64) -> bool {
    grace_secs == 0 || (since <= now && now - since >= grace_secs * scaler::NANOS)
}

/// What a pass makes of an instance. One in service that no lease names as its
/// owner is noted when it is first seen, is terminated once its grace period is
/// over, and stays noted with the time of its first sight until then. Every other
/// one is forgotten.
pub proof fn law_orphan_pass(
    asg: Seq<InstanceView>,
    seen: Seq<(Seq<char>, u64)>,
    leases: Seq<LeaseView>,
    now: u64,
    grace_secs: u64,
    id: Seq<char>,
)
    requires
        distinct_ids(asg),
    ensures
        ({
            let acc = orphan_pass(asg, seen, leases, now, grace_secs);
            let kept = seen_at(only(acc.seen, acc.still), id);
            let owns = exists|k: int| 0 <= k < leases.len() && (#[trigger] leases[k]).owner == id;
            let orphan = owner_serves(asg, id) && !owns;
            let over = seen_at(seen, id) matches Some(t) && grace_is_over(t, now, grace_secs);
            &&& acc.terminate.contains(id) <==> orphan && over
            &&& !orphan || over ==> kept is None
            &&& orphan && !over ==> kept == Some(
                match seen_at(seen, id) {
                    Some(t) => t,
                    None => now,
                },
            )
        }),
{
    lemma_orphan_pass(asg, seen, leases, now, grace_secs, id);
    lemma_serves(asg, id);
    let acc = orphan_pass(asg, seen, leases, now, grace_secs);
    lemma_only_lookup(acc.seen, acc.still, id);
}

/// The time at which an instance was first seen is the one that is noted for it,
/// and there is none only where it is not noted.
pub proof fn law_first_sight(seen: Seq<(Seq<char>, u64)>, id: Seq<char>)
    requires
        distinct(seen),
    ensures
        forall|i: int|
            0 <= i < seen.len() && (#[trigger] seen[i]).0 == id ==> seen_at(seen, id) == Some(
                seen[i].1,
            ),
        seen_at(seen, id) is Some ==> exists|i: int|
            0 <= i < seen.len() && (#[trigger] seen[i]).0 == id,
    decreases seen.len(),
{
    if seen.len() > 0 {
        let d = seen.drop_last();
        assert(distinct(d)) by {
            assert forall|i: int, j: int| 0 <= i < j < d.len() implies (#[trigger] d[i]).0 != (
            #[trigger] d[j]).0 by {
                assert(d[i] == seen[i] && d[j] == seen[j]);
            }
        }
        law_first_sight(d, id);
        assert(seen[seen.len() - 1] == seen.last());
        assert forall|i: int| 0 <= i < seen.len() && (#[trigger] seen[i]).0 == id implies seen_at(
            seen,
            id,
        ) == Some(seen[i].1) by {
            if i < seen.len() - 1 {
                assert(d[i] == seen[i]);
                assert(seen[i].0 != seen[seen.len() - 1].0);
            }
        }
        if seen_at(seen, id) is Some && seen.last().0 != id {
            let i = choose|i: int| 0 <= i < d.len() && (#[trigger] d[i]).0 == id;
            assert(seen[i].0 == id);
        }
    }
}

proof fn lemma_only_lookup(seen: Seq<(Seq<char>, u64)>, keep: Seq<Seq<char>>, id: Seq<char>)
    ensures
        seen_at(only(seen, keep), id) == (if keep.contains(id) {
            seen_at(seen, id)
        } else {
            None
        }),
    decreases seen.len(),
{
    if seen.len() > 0 {
        lemma_only_lookup(seen.drop_last(), keep, id);
        let rest = only(seen.drop_last(), keep);
        assert(rest.push(seen.last()).drop_last() =~= rest);
    }
}

proof fn lemma_contains_push(list: Seq<Seq<char>>, x: Seq<char>, id: Seq<char>)
    ensures
        list.push(x).contains(id) <==> x == id || list.contains(id),
{
    let p = list.push(x);
    if p.contains(id) {
        let k = choose|k: int| 0 <= k < p.len() && p[k] == id;
        if k < list.len() {
            assert(list[k] == id);
        }
    }
    if list.contains(id) {
        let k = choose|k: int| 0 <= k < list.len() && list[k] == id;
        assert(p[k] == id);
    }
    if x == id {
        assert(p[list.len() as int] == id);
    }
}

proof fn lemma_ids_without(list: Seq<Seq<char>>, gone: Seq<char>, id: Seq<char>)
    ensures
        ids_without(list, gone).contains(id) <==> id != gone && list.contains(id),
    decreases list.len(),
{
    reveal(Seq::filter);
    if list.len() > 0 {
        let front = list.drop_last();
        lemma_ids_without(front, gone, id);
        lemma_contains_push(front, list.last(), id);
        lemma_contains_push(ids_without(front, gone), list.last(), id);
        assert(front.push(list.last()) =~= list);
    }
}

proof fn lemma_orphan_pass(
    asg: Seq<InstanceView>,
    seen: Seq<(Seq<char>, u64)>,
    leases: Seq<LeaseView>,
    now: u64,
    grace_secs: u64,
    id: Seq<char>,
)
    requires
        distinct_ids(asg),
    ensures
        ({
            let acc = orphan_pass(asg, seen, leases, now, grace_secs);
            let here = in_service_with_id(asg, id);
            let orphan = here && !is_owner(leases, id);
            let over = seen_at(seen, id) matches Some(t) && grace_is_over(t, now, grace_secs);
            &&& acc.terminate.contains(id) <==> orphan && over
            &&& acc.still.contains(id) <==> orphan && !over
            &&& !here ==> seen_at(acc.seen, id) == seen_at(seen, id)
            &&& orphan && !over ==> seen_at(acc.seen, id) == Some(
                match seen_at(seen, id) {
                    Some(t) => t,
                    None => now,
                },
            )
        }),
    decreases asg.len(),
{
    if asg.len() > 0 {
        let front = asg.drop_last();
        let inst = asg.last();
        assert(asg[asg.len() - 1] == inst);
        assert(distinct_ids(front)) by {
            assert forall|i: int, j: int| 0 <= i < j < front.len() implies (#[trigger] front[i]).id
                != (#[trigger] front[j]).id by {
                assert(front[i] == asg[i] && front[j] == asg[j]);
            }
        }
        lemma_orphan_pass(front, seen, leases, now, grace_secs, id);
        let acc = orphan_pass(front, seen, leases, now, grace_secs);
        // The instance in service with this id, if any, is one of the front or the last.
        if in_service_with_id(front, id) {
            let k = choose|k: int|
                0 <= k < front.len() && (#[trigger] front[k]).in_service() && front[k].id == id;
            assert(asg[k] == front[k]);
            assert(asg[k].in_service() && asg[k].id == id);
            assert(asg[k].id != asg[asg.len() - 1].id);
        }
        if in_service_with_id(asg, id) && !(inst.in_service() && inst.id == id) {
            let k = choose|k: int|
                0 <= k < asg.len() && (#[trigger] asg[k]).in_service() && asg[k].id == id;
            assert(front[k] == asg[k]);
            assert(front[k].in_service() && front[k].id == id);
        }
        lemma_without_lookup(acc.seen, inst.id, id);
        lemma_contains_push(acc.still, inst.id, id);
        lemma_contains_push(acc.terminate, inst.id, id);
        lemma_ids_without(acc.still, inst.id, id);
        let p = acc.seen.push((inst.id, now));
        assert(p.drop_last() =~= acc.seen);
        match seen_at(acc.seen, inst.id) {
            Some(t) => {
                scaler::law_elapsed_seconds(t, now);
            },
            None => {},
        }
    }
}

/// The backends that are switched off are exactly those without a lease that take
/// or took traffic; those of two lists come one list after the other.
pub proof fn law_leaseless_backends(a: Seq<BackendView>, b: Seq<BackendView>, x: BackendView)
    ensures
        leaseless(a + b) == leaseless(a) + leaseless(b),
        leaseless(seq![x]) == (if x.lease is None && (x.state is Active || x.state is Draining) {
            seq![x.ip]
        } else {
            Seq::empty()
        }),
    decreases b.len(),
{
    reveal_with_fuel(leaseless, 2);
    assert(leaseless(seq![x]) =~= (if x.lease is None && (x.state is Active || x.state is Draining) {
        seq![x.ip]
    } else {
        Seq::empty()
    }));
    if b.len() == 0 {
        assert(a + b =~= a);
        assert(leaseless(a) + leaseless(b) =~= leaseless(a));
    } else {
        law_leaseless_backends(a, b.drop_last(), x);
        assert((a + b).drop_last() =~= a + b.drop_last());
        assert(leaseless(a + b) =~= leaseless(a) + leaseless(b));
    }
}

/// Instances without a lease are terminated without shrinking the group, backends
/// without one are disabled, and nothing else is done.
pub proof fn law_stray_actions(terminate: Seq<Seq<char>>, disable: Seq<Ipv4>)
    ensures
        stray_actions_of(terminate, disable).len() == terminate.len() + disable.len(),
        forall|i: int|
            0 <= i < terminate.len() ==> #[trigger] stray_actions_of(terminate, disable)[i] == (
            ActionView::Terminate { instance_id: terminate[i], decrement: false }),
        forall|i: int|
            0 <= i < disable.len() ==> stray_actions_of(terminate, disable)[terminate.len() + i]
                == (ActionView::Disable { ip: #[trigger] disable[i] }),
{
}

/// A slot that is released has no owner and no lease any more and is free from then
/// on.
pub proof fn law_release_frees_the_slot(commands: Seq<PoolCommand>, slot: u32, now: u64)
    requires
        releases(commands, slot, now),
    ensures
        commands.len() == 3,
        commands[0] matches PoolCommand::Del { key } && key@ == "slot:owner:"@ + text::decimal(
            slot as nat,
        ),
        commands[1] matches PoolCommand::ZRem { key, member } && key@ == "slots:leases"@ && member@
            == text::decimal(slot as nat),
        commands[2] matches PoolCommand::ZAdd { key, member, score } && key@ == "slots:available"@
            && member@ == text::decimal(slot as nat) && score == now,
{
}

/// Some instance is in service exactly where one of them has that lifecycle state.
pub proof fn law_any_in_service(a: Seq<InstanceView>, b: Seq<InstanceView>, x: InstanceView)
    ensures
        any_in_service(a + b) <==> any_in_service(a) || any_in_service(b),
        any_in_service(seq![x]) <==> x.lifecycle == "InService"@,
        !any_in_service(Seq::<InstanceView>::empty()),
{
    let one = seq![x];
    assert(one[0] == x);
    if any_in_service(a) {
        let i = choose|i: int| 0 <= i < a.len() && (#[trigger] a[i]).in_service();
        assert((a + b)[i] == a[i]);
    }
    if any_in_service(b) {
        let i = choose|i: int| 0 <= i < b.len() && (#[trigger] b[i]).in_service();
        assert((a + b)[a.len() + i] == b[i]);
    }
    if any_in_service(a + b) {
        let i = choose|i: int| 0 <= i < (a + b).len() && (#[trigger] (a + b)[i]).in_service();
        if i < a.len() {
            assert(a[i].in_service());
        } else {
            assert(b[i - a.len()].in_service());
        }
    }
}

} // verus!
