//! A point-in-time view of weight files, leases, scaling group and IPVS, and
//! the join of all four on the backend address.

use vstd::prelude::*;

use crate::infra::ipv4::Ipv4;
use crate::infra::redis_pool::now_ms;
use crate::infra::slot_network::SlotNetwork;
use crate::text;

verus! {

// ── Backend state ─────────────────────────────────────────────────────────

/// The keepalived weight written to a backend's weight file.
#[derive(Debug)]
pub enum BackendState {
    /// `0`: receives traffic at full weight.
    Active,
    /// `-1`: draining, weight reduced to zero.
    Draining,
    /// `-2147483648`: fully disabled.
    Disabled,
    /// Any other value.
    Unknown(String),
}

/// A backend state with the text of an unknown value.
pub enum StateView {
    Active,
    Draining,
    Disabled,
    Unknown(Seq<char>),
}

impl View for BackendState {
    type V = StateView;

    open spec fn view(&self) -> StateView {
        match self {
            BackendState::Active => StateView::Active,
            BackendState::Draining => StateView::Draining,
            BackendState::Disabled => StateView::Disabled,
            BackendState::Unknown(s) => StateView::Unknown(s@),
        }
    }
}

/// The state that the text of a weight file stands for.
pub open spec fn weight_state(s: Seq<char>) -> StateView {
    let t = text::trim(s);
    if t == "0"@ {
        StateView::Active
    } else if t == "-1"@ {
        StateView::Draining
    } else if t == "-2147483648"@ {
        StateView::Disabled
    } else {
        StateView::Unknown(t)
    }
}

/// The name of a state.
pub open spec fn state_label(s: StateView) -> Seq<char> {
    match s {
        StateView::Active => "active"@,
        StateView::Draining => "draining"@,
        StateView::Disabled => "disabled"@,
        StateView::Unknown(_) => "unknown"@,
    }
}

/// The terminal colour of a state.
pub open spec fn state_colour(s: StateView) -> Seq<char> {
    match s {
        StateView::Active => "\x1b[32m"@,
        StateView::Draining => "\x1b[33m"@,
        StateView::Disabled => "\x1b[90m"@,
        StateView::Unknown(_) => "\x1b[31m"@,
    }
}

impl BackendState {
    /// The state that the text of a weight file stands for.
    pub fn from_weight_str(s: &str) -> (state: BackendState)
        ensures
            state@ == weight_state(s@),
    {
        let t = text::trimmed(s);
        if text::str_eq(t.as_str(), "0") {
            BackendState::Active
        } else if text::str_eq(t.as_str(), "-1") {
            BackendState::Draining
        } else if text::str_eq(t.as_str(), "-2147483648") {
            BackendState::Disabled
        } else {
            BackendState::Unknown(t)
        }
    }

    /// The name of this state.
    pub fn label(&self) -> (s: &str)
        ensures
            s@ == state_label(self@),
    {
        match self {
            BackendState::Active => "active",
            BackendState::Draining => "draining",
            BackendState::Disabled => "disabled",
            BackendState::Unknown(_) => "unknown",
        }
    }

    /// The terminal colour of this state.
    pub fn colour(&self) -> (s: &str)
        ensures
            s@ == state_colour(self@),
    {
        match self {
            BackendState::Active => "\x1b[32m",
            BackendState::Draining => "\x1b[33m",
            BackendState::Disabled => "\x1b[90m",
            BackendState::Unknown(_) => "\x1b[31m",
        }
    }

    /// Whether this backend receives traffic.
    pub fn is_active(&self) -> (yes: bool)
        ensures
            yes == (self@ is Active),
    {
        match self {
            BackendState::Active => true,
            _ => false,
        }
    }

    /// Whether this backend is draining.
    pub fn is_draining(&self) -> (yes: bool)
        ensures
            yes == (self@ is Draining),
    {
        match self {
            BackendState::Draining => true,
            _ => false,
        }
    }

}

impl Clone for BackendState {
    fn clone(&self) -> (out: BackendState)
        ensures
            out@ == self@,
    {
        match self {
            BackendState::Active => BackendState::Active,
            BackendState::Draining => BackendState::Draining,
            BackendState::Disabled => BackendState::Disabled,
            BackendState::Unknown(s) => BackendState::Unknown(text::copy_str(s.as_str())),
        }
    }
}

// ── Leases ────────────────────────────────────────────────────────────────

/// A slot that is leased in Redis.
#[derive(Debug)]
pub struct SlotLease {
    pub slot: u32,
    pub owner_instance_id: String,
    pub expires_ms: u64,
}

/// A lease with the text of its owner.
pub struct LeaseView {
    pub slot: u32,
    pub owner: Seq<char>,
    pub expires_ms: u64,
}

impl View for SlotLease {
    type V = LeaseView;

    open spec fn view(&self) -> LeaseView {
        LeaseView {
            slot: self.slot,
            owner: self.owner_instance_id@,
            expires_ms: self.expires_ms,
        }
    }
}

/// The views of a list of leases.
pub open spec fn lease_views(v: Seq<SlotLease>) -> Seq<LeaseView> {
    Seq::new(v.len(), |i: int| v[i]@)
}

impl SlotLease {
    /// Whether the lease has run out at the time `now`.
    pub open spec fn expired(self, now: u64) -> bool {
        self.expires_ms <= now
    }

    /// Whether the lease has run out at the time `now`.
    pub fn is_expired_at(&self, now: u64) -> (yes: bool)
        ensures
            yes == self.expired(now),
    {
        self.expires_ms <= now
    }

    /// Whether the lease has run out by the system clock.
    ///
    /// What is returned is the answer of [`SlotLease::is_expired_at`] for the
    /// moment of the call.
    pub fn is_expired(&self) -> (yes: bool)
        ensures
            exists|now: u64| yes == #[trigger] self.expired(now),
            self.expires_ms == 0 ==> yes,
    {
        let now: u64 = now_ms();
        let yes = self.is_expired_at(now);
        assert(yes == self.expired(now));
        yes
    }

    /// The milliseconds that the lease still has at the time `now`.
    pub fn remaining_ms(&self, now: u64) -> (ms: u64)
        ensures
            ms == (if self.expires_ms > now {
                self.expires_ms - now
            } else {
                0
            }),
    {
        if self.expires_ms > now {
            self.expires_ms - now
        } else {
            0
        }
    }
}

impl Clone for SlotLease {
    fn clone(&self) -> (out: SlotLease)
        ensures
            out@ == self@,
    {
        SlotLease {
            slot: self.slot,
            owner_instance_id: text::copy_str(self.owner_instance_id.as_str()),
            expires_ms: self.expires_ms,
        }
    }
}

// ── Scaling group ─────────────────────────────────────────────────────────

/// Capacity of the scaling group.
#[derive(Debug)]
pub struct AsgGroupInfo {
    pub name: String,
    pub desired_capacity: i64,
    pub min_size: i64,
    pub max_size: i64,
}

impl AsgGroupInfo {
    /// Whether terminating one more instance would go below the minimum size.
    pub fn would_violate_min(&self) -> (yes: bool)
        ensures
            yes == (self.desired_capacity <= self.min_size),
    {
        self.desired_capacity <= self.min_size
    }
}

impl Clone for AsgGroupInfo {
    fn clone(&self) -> (out: AsgGroupInfo)
        ensures
            out.name@ == self.name@,
            out.desired_capacity == self.desired_capacity,
            out.min_size == self.min_size,
            out.max_size == self.max_size,
    {
        AsgGroupInfo {
            name: text::copy_str(self.name.as_str()),
            desired_capacity: self.desired_capacity,
            min_size: self.min_size,
            max_size: self.max_size,
        }
    }
}

/// One instance of the scaling group.
#[derive(Debug)]
pub struct AsgInstance {
    pub instance_id: String,
    pub lifecycle_state: String,
    pub health_status: String,
}

/// An instance with the texts of its fields.
pub struct InstanceView {
    pub id: Seq<char>,
    pub lifecycle: Seq<char>,
    pub health: Seq<char>,
}

impl View for AsgInstance {
    type V = InstanceView;

    open spec fn view(&self) -> InstanceView {
        InstanceView {
            id: self.instance_id@,
            lifecycle: self.lifecycle_state@,
            health: self.health_status@,
        }
    }
}

/// The views of a list of instances.
pub open spec fn instance_views(v: Seq<AsgInstance>) -> Seq<InstanceView> {
    Seq::new(v.len(), |i: int| v[i]@)
}

impl InstanceView {
    /// Whether the instance is in service.
    pub open spec fn in_service(self) -> bool {
        self.lifecycle == "InService"@
    }
}

impl AsgInstance {
    /// Whether the instance is in service.
    pub fn is_in_service(&self) -> (yes: bool)
        ensures
            yes == self@.in_service(),
    {
        text::str_eq(self.lifecycle_state.as_str(), "InService")
    }
}

impl Clone for AsgInstance {
    fn clone(&self) -> (out: AsgInstance)
        ensures
            out@ == self@,
    {
        AsgInstance {
            instance_id: text::copy_str(self.instance_id.as_str()),
            lifecycle_state: text::copy_str(self.lifecycle_state.as_str()),
            health_status: text::copy_str(self.health_status.as_str()),
        }
    }
}

// ── IPVS and weight files ─────────────────────────────────────────────────

/// A real server as IPVS reports it.
#[derive(Debug, Clone, Copy, PartialEq, Eq, Structural)]
pub struct IpvsBackend {
    pub ip: Ipv4,
    pub active_connections: u32,
    pub inactive_connections: u32,
}

/// One weight file.
#[derive(Debug)]
pub struct WeightEntry {
    pub ip: Ipv4,
    pub state: BackendState,
}

// ── The join ──────────────────────────────────────────────────────────────

/// One backend: weight file, IPVS entry and lease, joined on the address.
#[derive(Debug)]
pub struct BackendStatus {
    pub ip: Ipv4,
    /// The slot at `ip`; `None` for addresses before the slot range.
    pub slot: Option<u32>,
    pub weight_state: BackendState,
    pub ipvs: Option<IpvsBackend>,
    pub lease: Option<SlotLease>,
}

/// A backend with the texts of its fields.
pub struct BackendView {
    pub ip: Ipv4,
    pub slot: Option<u32>,
    pub state: StateView,
    pub ipvs: Option<IpvsBackend>,
    pub lease: Option<LeaseView>,
}

impl View for BackendStatus {
    type V = BackendView;

    open spec fn view(&self) -> BackendView {
        BackendView {
            ip: self.ip,
            slot: self.slot,
            state: self.weight_state@,
            ipvs: self.ipvs,
            lease: match self.lease {
                Some(l) => Some(l@),
                None => None,
            },
        }
    }
}

/// The views of a list of backends.
pub open spec fn backend_views(v: Seq<BackendStatus>) -> Seq<BackendView> {
    Seq::new(v.len(), |i: int| v[i]@)
}

/// The first IPVS entry at an address.
pub open spec fn ipvs_at(list: Seq<IpvsBackend>, ip: Ipv4) -> Option<IpvsBackend>
    decreases list.len(),
{
    if list.len() == 0 {
        None
    } else if list[0].ip == ip {
        Some(list[0])
    } else {
        ipvs_at(list.skip(1), ip)
    }
}

/// The last lease of a slot.
pub open spec fn lease_of(list: Seq<LeaseView>, slot: Option<u32>) -> Option<LeaseView>
    decreases list.len(),
{
    if list.len() == 0 {
        None
    } else if slot == Some(list.last().slot) {
        Some(list.last())
    } else {
        lease_of(list.drop_last(), slot)
    }
}

/// What is known of the backend of one weight file.
pub open spec fn joined(
    ip: Ipv4,
    state: StateView,
    leases: Seq<LeaseView>,
    ipvs: Seq<IpvsBackend>,
    net: SlotNetwork,
) -> BackendView {
    BackendView {
        ip,
        slot: net.ip_slot(ip),
        state,
        ipvs: ipvs_at(ipvs, ip),
        lease: lease_of(leases, net.ip_slot(ip)),
    }
}

fn find_ipvs(list: &Vec<IpvsBackend>, ip: Ipv4) -> (r: Option<IpvsBackend>)
    ensures
        r == ipvs_at(list@, ip),
{
    let mut i: usize = 0;
    assert(list@.skip(0) =~= list@);
    while i < list.len()
        invariant
            i <= list@.len(),
            ipvs_at(list@, ip) == ipvs_at(list@.skip(i as int), ip),
        decreases list@.len() - i,
    {
        if list[i].ip == ip {
            return Some(list[i]);
        }
        assert(list@.skip(i as int).skip(1) =~= list@.skip(i + 1));
        i = i + 1;
    }
    None
}

fn find_lease(list: &Vec<SlotLease>, slot: Option<u32>) -> (r: Option<SlotLease>)
    ensures
        match r {
            Some(l) => lease_of(lease_views(list@), slot) == Some(l@),
            None => lease_of(lease_views(list@), slot) is None,
        },
{
    let ghost all = lease_views(list@);
    let wanted: u32 = match slot {
        Some(n) => n,
        None => {
            proof {
                lemma_lease_of_none(all);
            }
            return None;
        },
    };
    let mut i: usize = list.len();
    assert(all.take(i as int) =~= all);
    while i > 0
        invariant
            i <= list@.len(),
            all == lease_views(list@),
            slot == Some(wanted),
            lease_of(all, slot) == lease_of(all.take(i as int), slot),
        decreases i,
    {
        proof {
            assert(all.take(i as int).last() == list@[i - 1]@);
            assert(all.take(i as int).drop_last() =~= all.take(i - 1));
        }
        if list[i - 1].slot == wanted {
            return Some(list[i - 1].clone());
        }
        i = i - 1;
    }
    None
}

proof fn lemma_lease_of_none(list: Seq<LeaseView>)
    ensures
        lease_of(list, None) is None,
    decreases list.len(),
{
    if list.len() > 0 {
        lemma_lease_of_none(list.drop_last());
    }
}

/// A lease that is found has the slot that was asked for.
pub proof fn lemma_lease_of(list: Seq<LeaseView>, slot: Option<u32>)
    ensures
        match lease_of(list, slot) {
            Some(l) => slot == Some(l.slot) && list.contains(l),
            None => forall|i: int| 0 <= i < list.len() ==> slot != Some((#[trigger] list[i]).slot),
        },
    decreases list.len(),
{
    if list.len() == 0 {
    } else if slot == Some(list.last().slot) {
        assert(list[list.len() - 1] == list.last());
    } else {
        lemma_lease_of(list.drop_last(), slot);
        match lease_of(list.drop_last(), slot) {
            Some(l) => {
                let k = choose|k: int|
                    0 <= k < list.drop_last().len() && list.drop_last()[k] == l;
                assert(list[k] == l);
            },
            None => {
                assert forall|i: int| 0 <= i < list.len() implies slot != Some(
                    (#[trigger] list[i]).slot,
                ) by {
                    if i < list.len() - 1 {
                        assert(list.drop_last()[i] == list[i]);
                    }
                }
            },
        }
    }
}

/// One status per weight file, with slot, IPVS entry and lease merged in.
///
/// A backend's lease is the last one in `leases` whose slot has the backend's
/// address; its IPVS entry is the first one in `ipvs` at that address.
pub fn join_backends(
    weights: &Vec<WeightEntry>,
    leases: &Vec<SlotLease>,
    ipvs: &Vec<IpvsBackend>,
    net: &SlotNetwork,
) -> (out: Vec<BackendStatus>)
    requires
        net.valid(),
    ensures
        out@.len() == weights@.len(),
        forall|i: int|
            0 <= i < out@.len() ==> (#[trigger] out@[i])@ == joined(
                weights@[i].ip,
                weights@[i].state@,
                lease_views(leases@),
                ipvs@,
                *net,
            ),
{
    let mut out: Vec<BackendStatus> = Vec::new();
    let mut i: usize = 0;
    while i < weights.len()
        invariant
            i <= weights@.len(),
            net.valid(),
            out@.len() == i,
            forall|k: int|
                0 <= k < i ==> (#[trigger] out@[k])@ == joined(
                    weights@[k].ip,
                    weights@[k].state@,
                    lease_views(leases@),
                    ipvs@,
                    *net,
                ),
        decreases weights@.len() - i,
    {
        let ip = weights[i].ip;
        let slot: Option<u32> = net.slot_for_ip(ip);
        let status = BackendStatus {
            ip,
            slot,
            weight_state: weights[i].state.clone(),
            ipvs: find_ipvs(ipvs, ip),
            lease: find_lease(leases, slot),
        };
        out.push(status);
        i = i + 1;
    }
    out
}

/// A joined backend carries the lease of its own slot, if any lease of that
/// slot exists.
pub proof fn law_join_lease(
    ip: Ipv4,
    state: StateView,
    leases: Seq<LeaseView>,
    ipvs: Seq<IpvsBackend>,
    net: SlotNetwork,
)
    ensures
        match joined(ip, state, leases, ipvs, net).lease {
            Some(l) => net.ip_slot(ip) == Some(l.slot) && leases.contains(l),
            None => forall|i: int|
                0 <= i < leases.len() ==> net.ip_slot(ip) != Some((#[trigger] leases[i]).slot),
        },
{
    lemma_lease_of(leases, net.ip_slot(ip));
}

/// Complete point-in-time view of all subsystems.
#[derive(Debug)]
pub struct SystemSnapshot {
    /// One entry per weight file.
    pub backends: Vec<BackendStatus>,
    /// All leases, expired ones included.
    pub leases: Vec<SlotLease>,
    /// All instances of the scaling group, in any lifecycle state.
    pub asg: Vec<AsgInstance>,
    /// Capacity of the group; `None` where the query failed.
    pub asg_group: Option<AsgGroupInfo>,
    /// Raw IPVS list.
    pub ipvs: Vec<IpvsBackend>,
    /// When the snapshot was taken, in UTC.
    pub taken_at_utc: String,
}

impl SystemSnapshot {
    /// The snapshot of what was read from the four sources.
    ///
    /// Weight files and leases are always there. The scaling group comes as
    /// `None` and an empty list where its query failed, and so does IPVS.
    pub fn collect(
        weights: &Vec<WeightEntry>,
        leases: Vec<SlotLease>,
        asg_group: Option<AsgGroupInfo>,
        asg: Vec<AsgInstance>,
        ipvs: Vec<IpvsBackend>,
        net: &SlotNetwork,
        taken_at_utc: String,
    ) -> (snap: SystemSnapshot)
        requires
            net.valid(),
        ensures
            snap.leases == leases,
            snap.asg == asg,
            snap.asg_group == asg_group,
            snap.ipvs == ipvs,
            snap.taken_at_utc == taken_at_utc,
            snap.backends@.len() == weights@.len(),
            forall|i: int|
                0 <= i < weights@.len() ==> (#[trigger] snap.backends@[i])@ == joined(
                    weights@[i].ip,
                    weights@[i].state@,
                    lease_views(leases@),
                    ipvs@,
                    *net,
                ),
    {
        let backends = join_backends(weights, &leases, &ipvs, net);
        SystemSnapshot { backends, leases, asg, asg_group, ipvs, taken_at_utc }
    }
}

/// The IPVS entry of an address is the first one of the list that has this very
/// address; there is none only where no entry has it.
pub proof fn law_ipvs_entry_is_first_at_address(list: Seq<IpvsBackend>, ip: Ipv4)
    ensures
        match ipvs_at(list, ip) {
            Some(e) => exists|i: int|
                0 <= i < list.len() && #[trigger] list[i] == e && e.ip == ip && forall|k: int|
                    0 <= k < i ==> (#[trigger] list[k]).ip != ip,
            None => forall|k: int| 0 <= k < list.len() ==> (#[trigger] list[k]).ip != ip,
        },
    decreases list.len(),
{
    if list.len() > 0 {
        let rest = list.skip(1);
        if list[0].ip != ip {
            law_ipvs_entry_is_first_at_address(rest, ip);
            match ipvs_at(rest, ip) {
                Some(e) => {
                    let j = choose|i: int|
                        0 <= i < rest.len() && #[trigger] rest[i] == e && e.ip == ip && forall|
                            k: int,
                        |
                            0 <= k < i ==> (#[trigger] rest[k]).ip != ip;
                    assert(list[j + 1] == e);
                    assert forall|k: int| 0 <= k < j + 1 implies (#[trigger] list[k]).ip != ip by {
                        if k > 0 {
                            assert(rest[k - 1] == list[k]);
                        }
                    }
                },
                None => {
                    assert forall|k: int| 0 <= k < list.len() implies (#[trigger] list[k]).ip
                        != ip by {
                        if k > 0 {
                            assert(rest[k - 1] == list[k]);
                        }
                    }
                },
            }
        } else {
            assert(list[0] == ipvs_at(list, ip)->0);
        }
    }
}

/// The lease of a slot is the last one of the list with that slot.
pub proof fn law_lease_is_last_of_slot(list: Seq<LeaseView>, slot: u32)
    ensures
        match lease_of(list, Some(slot)) {
            Some(l) => exists|i: int|
                0 <= i < list.len() && #[trigger] list[i] == l && l.slot == slot && forall|k: int|
                    i < k < list.len() ==> (#[trigger] list[k]).slot != slot,
            None => forall|k: int| 0 <= k < list.len() ==> (#[trigger] list[k]).slot != slot,
        },
    decreases list.len(),
{
    lemma_lease_of(list, Some(slot));
    if list.len() > 0 {
        let front = list.drop_last();
        assert(list[list.len() - 1] == list.last());
        if list.last().slot != slot {
            law_lease_is_last_of_slot(front, slot);
            match lease_of(front, Some(slot)) {
                Some(l) => {
                    let i = choose|i: int|
                        0 <= i < front.len() && #[trigger] front[i] == l && l.slot == slot
                            && forall|k: int|
                            i < k < front.len() ==> (#[trigger] front[k]).slot != slot;
                    assert(list[i] == l);
                    assert forall|k: int| i < k < list.len() implies (#[trigger] list[k]).slot
                        != slot by {
                        if k < list.len() - 1 {
                            assert(front[k] == list[k]);
                        }
                    }
                },
                None => {},
            }
        }
    }
}

/// A joined backend keeps the address and state of its weight file, has the slot
/// that lies at its address, and carries the IPVS entry of its own address and the
/// last lease of its own slot; each of them is missing only where there is none.
pub proof fn law_join_is_on_the_address(
    ip: Ipv4,
    state: StateView,
    leases: Seq<LeaseView>,
    ipvs: Seq<IpvsBackend>,
    net: SlotNetwork,
)
    ensures
        ({
            let b = joined(ip, state, leases, ipvs, net);
            &&& b.ip == ip
            &&& b.state == state
            &&& b.slot matches Some(n) ==> net.base.bits + net.offset + n == ip.bits
            &&& b.slot is None ==> ip.bits < net.base.bits + net.offset
            &&& match b.ipvs {
                Some(e) => exists|i: int|
                    0 <= i < ipvs.len() && #[trigger] ipvs[i] == e && e.ip == ip && forall|k: int|
                        0 <= k < i ==> (#[trigger] ipvs[k]).ip != ip,
                None => forall|k: int| 0 <= k < ipvs.len() ==> (#[trigger] ipvs[k]).ip != ip,
            }
            &&& match b.lease {
                Some(l) => b.slot == Some(l.slot) && exists|i: int|
                    0 <= i < leases.len() && #[trigger] leases[i] == l && forall|k: int|
                        i < k < leases.len() ==> (#[trigger] leases[k]).slot != l.slot,
                None => forall|k: int|
                    0 <= k < leases.len() ==> b.slot != Some((#[trigger] leases[k]).slot),
            }
        }),
{
    law_ipvs_entry_is_first_at_address(ipvs, ip);
    law_join_lease(ip, state, leases, ipvs, net);
    match net.ip_slot(ip) {
        Some(n) => {
            law_lease_is_last_of_slot(leases, n);
        },
        None => {},
    }
}

/// The three weights stand for their states, and every other text for an unknown
/// one, which keeps the text without the white space around it.
pub proof fn law_weights_and_states(s: Seq<char>)
    ensures
        weight_state(s) is Active <==> text::trim(s) == "0"@,
        weight_state(s) is Draining <==> text::trim(s) == "-1"@,
        weight_state(s) is Disabled <==> text::trim(s) == "-2147483648"@,
        weight_state(s) matches StateView::Unknown(t) ==> t == text::trim(s),
{
    reveal_strlit("0");
    reveal_strlit("-1");
    reveal_strlit("-2147483648");
    assert("0"@.len() == 1 && "-1"@.len() == 2 && "-2147483648"@.len() == 11);
}

/// A lease has run out from its expiry on, and not before.
pub proof fn law_lease_runs_out(l: SlotLease, now: u64)
    ensures
        l.expired(l.expires_ms),
        now < l.expires_ms ==> !l.expired(now),
        now > l.expires_ms ==> l.expired(now),
{
}

/// States with different names are shown differently.
pub proof fn law_states_are_told_apart(a: StateView, b: StateView)
    requires
        state_label(a) == state_label(b),
    ensures
        a is Active <==> b is Active,
        a is Draining <==> b is Draining,
        a is Disabled <==> b is Disabled,
        state_colour(a) == state_colour(b),
{
    reveal_strlit("active");
    reveal_strlit("draining");
    reveal_strlit("disabled");
    reveal_strlit("unknown");
    assert("active"@.len() == 6 && "draining"@.len() == 8 && "disabled"@.len() == 8
        && "unknown"@.len() == 7);
    assert("draining"@[1] == 'r' && "disabled"@[1] == 'i');
}

} // verus!
