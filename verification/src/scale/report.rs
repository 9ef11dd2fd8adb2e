//! The text that shows a snapshot on a terminal.

use vstd::prelude::*;

use crate::infra::ipv4;
use crate::scale::snapshot;
use crate::scale::snapshot::{
    AsgGroupInfo, AsgInstance, BackendStatus, BackendView, InstanceView, IpvsBackend, LeaseView,
    SlotLease, SystemSnapshot,
};
use crate::text;

verus! {

/// Ends all text attributes.
pub const RESET: &'static str = "\x1b[0m";

/// Starts bold text.
pub const BOLD: &'static str = "\x1b[1m";

/// Starts dim text.
pub const DIM: &'static str = "\x1b[2m";

/// The double rule round head and summary.
pub const BAR: &'static str =
    "========================================================================================";

/// The rule below a table head.
pub const RULE: &'static str =
    "-------------------------------------------------------------------------------------";

/// A double rule on a line of its own.
pub open spec fn bar_line() -> Seq<char> {
    BOLD@ + BAR@ + RESET@ + "\n"@
}

/// The rule below a table head, on a line of its own.
pub open spec fn rule_line() -> Seq<char> {
    "   "@ + DIM@ + RULE@ + RESET@ + "\n"@
}

fn push_bar(out: &mut String)
    ensures
        final(out)@ == old(out)@ + bar_line(),
{
    let mut s = text::copy_str(BOLD);
    s.push_str(BAR);
    s.push_str(RESET);
    s.push_str("\n");
    out.push_str(s.as_str());
}

fn push_rule(out: &mut String)
    ensures
        final(out)@ == old(out)@ + rule_line(),
{
    let mut s = text::copy_str("   ");
    s.push_str(DIM);
    s.push_str(RULE);
    s.push_str(RESET);
    s.push_str("\n");
    out.push_str(s.as_str());
}

/// The head of the report.
pub open spec fn head_text(utc: Seq<char>) -> Seq<char> {
    "\n"@ + bar_line() + " System Snapshot  "@ + DIM@ + utc + RESET@ + "\n"@ + bar_line()
}

fn head(utc: &str) -> (out: String)
    ensures
        out@ == head_text(utc@),
{
    let mut out = text::copy_str("\n");
    push_bar(&mut out);
    out.push_str(" System Snapshot  ");
    out.push_str(DIM);
    out.push_str(utc);
    out.push_str(RESET);
    out.push_str("\n");
    push_bar(&mut out);
    out
}

// ── Backends ──────────────────────────────────────────────────────────────

/// The slot of a backend in its column.
pub open spec fn slot_cell(b: BackendView) -> Seq<char> {
    match b.slot {
        Some(n) => text::decimal(n as nat),
        None => "-"@,
    }
}

/// The owner of a backend's lease in its column.
pub open spec fn owner_cell(b: BackendView) -> Seq<char> {
    match b.lease {
        Some(l) => l.owner,
        None => "-"@,
    }
}

/// The active connections of a backend in their column.
pub open spec fn active_cell(b: BackendView) -> Seq<char> {
    match b.ipvs {
        Some(v) => text::decimal(v.active_connections as nat),
        None => "-"@,
    }
}

/// The inactive connections of a backend in their column.
pub open spec fn inactive_cell(b: BackendView) -> Seq<char> {
    match b.ipvs {
        Some(v) => text::decimal(v.inactive_connections as nat),
        None => "-"@,
    }
}

/// The line of a backend.
pub open spec fn backend_row(b: BackendView) -> Seq<char> {
    "   "@ + text::pad_right(ipv4::dotted(b.ip), 18) + " "@ + snapshot::state_colour(b.state)
        + text::pad_right(snapshot::state_label(b.state), 12) + RESET@ + " "@ + text::pad_right(
        slot_cell(b),
        6,
    ) + " "@ + text::pad_right(owner_cell(b), 26) + " "@ + text::pad_left(active_cell(b), ' ', 8)
        + "  "@ + text::pad_left(inactive_cell(b), ' ', 8) + "\n"@
}

/// The lines of a list of backends.
pub open spec fn backend_rows(list: Seq<BackendView>) -> Seq<char>
    decreases list.len(),
{
    if list.len() == 0 {
        Seq::empty()
    } else {
        backend_rows(list.drop_last()) + backend_row(list.last())
    }
}

/// The head of the backend table.
pub open spec fn backend_columns() -> Seq<char> {
    "   "@ + BOLD@ + "IP                 State        Slot   Owner Instance              ActConn  InactConn"@
        + RESET@ + "\n"@
}

/// The section on backends.
pub open spec fn backends_text(list: Seq<BackendView>) -> Seq<char> {
    let title = "\n "@ + BOLD@ + "Backends"@ + RESET@ + "  ("@ + text::decimal(list.len())
        + " weight file(s))\n\n"@;
    if list.len() == 0 {
        title + "   (none — check --weights-dir)\n"@
    } else {
        title + backend_columns() + rule_line() + backend_rows(list)
    }
}

fn row_of_backend(b: &BackendStatus) -> (out: String)
    ensures
        out@ == backend_row(b@),
{
    let slot = match b.slot {
        Some(n) => text::decimal_of(n as u64),
        None => text::copy_str("-"),
    };
    let owner = match &b.lease {
        Some(l) => text::copy_str(l.owner_instance_id.as_str()),
        None => text::copy_str("-"),
    };
    let (active, inactive) = match b.ipvs {
        Some(v) => (
            text::decimal_of(v.active_connections as u64),
            text::decimal_of(v.inactive_connections as u64),
        ),
        None => (text::copy_str("-"), text::copy_str("-")),
    };
    let mut out = text::copy_str("   ");
    out.push_str(text::padded_right(b.ip.to_text().as_str(), 18).as_str());
    out.push_str(" ");
    out.push_str(b.weight_state.colour());
    out.push_str(text::padded_right(b.weight_state.label(), 12).as_str());
    out.push_str(RESET);
    out.push_str(" ");
    out.push_str(text::padded_right(slot.as_str(), 6).as_str());
    out.push_str(" ");
    out.push_str(text::padded_right(owner.as_str(), 26).as_str());
    out.push_str(" ");
    out.push_str(text::padded_left(active.as_str(), ' ', 8).as_str());
    out.push_str("  ");
    out.push_str(text::padded_left(inactive.as_str(), ' ', 8).as_str());
    out.push_str("\n");
    out
}

fn backends_section(list: &Vec<BackendStatus>) -> (out: String)
    ensures
        out@ == backends_text(snapshot::backend_views(list@)),
{
    let ghost all = snapshot::backend_views(list@);
    let mut out = text::copy_str("\n ");
    out.push_str(BOLD);
    out.push_str("Backends");
    out.push_str(RESET);
    out.push_str("  (");
    out.push_str(text::decimal_of(list.len() as u64).as_str());
    out.push_str(" weight file(s))\n\n");
    if list.len() == 0 {
        out.push_str("   (none — check --weights-dir)\n");
        return out;
    }
    let mut columns = text::copy_str("   ");
    columns.push_str(BOLD);
    columns.push_str(
        "IP                 State        Slot   Owner Instance              ActConn  InactConn",
    );
    columns.push_str(RESET);
    columns.push_str("\n");
    out.push_str(columns.as_str());
    push_rule(&mut out);
    let mut rows = String::new();
    let mut i: usize = 0;
    assert(all.take(0) =~= Seq::<BackendView>::empty());
    assert(rows@ =~= backend_rows(all.take(0)));
    while i < list.len()
        invariant
            i <= list@.len(),
            all == snapshot::backend_views(list@),
            rows@ == backend_rows(all.take(i as int)),
        decreases list@.len() - i,
    {
        proof {
            assert(all.take(i + 1).last() == list@[i as int]@);
            assert(all.take(i + 1).drop_last() =~= all.take(i as int));
        }
        rows.push_str(row_of_backend(&list[i]).as_str());
        i = i + 1;
    }
    assert(all.take(i as int) =~= all);
    out.push_str(rows.as_str());
    out
}

// ── Leases ────────────────────────────────────────────────────────────────

/// The line of a lease; `remaining` is the text of its seconds.
pub open spec fn lease_row(l: LeaseView, remaining: Seq<char>, now: u64) -> Seq<char> {
    "   "@ + text::pad_right(text::decimal(l.slot as nat), 6) + " "@ + text::pad_right(l.owner, 26)
        + " "@ + text::pad_left(remaining, ' ', 9) + " s  "@ + (if l.expires_ms <= now {
        "\x1b[31mEXPIRED\x1b[0m"@
    } else {
        ""@
    }) + "\n"@
}

/// The lines of a list of leases.
pub open spec fn lease_rows(list: Seq<LeaseView>, remaining: Seq<Seq<char>>, now: u64) -> Seq<char>
    decreases list.len(),
{
    if list.len() == 0 {
        Seq::empty()
    } else {
        lease_rows(list.drop_last(), remaining, now) + lease_row(
            list.last(),
            remaining[list.len() - 1],
            now,
        )
    }
}

/// The section on leases.
pub open spec fn leases_text(list: Seq<LeaseView>, remaining: Seq<Seq<char>>, now: u64) -> Seq<
    char,
> {
    let title = "\n "@ + BOLD@ + "Redis Leases"@ + RESET@ + "  ("@ + text::decimal(list.len())
        + " slot(s) leased)\n\n"@;
    if list.len() == 0 {
        title + "   (none)\n"@
    } else {
        title + ("   "@ + BOLD@ + "Slot   Owner Instance             Expires in   Status"@ + RESET@
            + "\n"@) + rule_line() + lease_rows(list, remaining, now)
    }
}

fn row_of_lease(l: &SlotLease, remaining: &str, now: u64) -> (out: String)
    ensures
        out@ == lease_row(l@, remaining@, now),
{
    let status = if l.is_expired_at(now) {
        "\x1b[31mEXPIRED\x1b[0m"
    } else {
        ""
    };
    let mut out = text::copy_str("   ");
    out.push_str(text::padded_right(text::decimal_of(l.slot as u64).as_str(), 6).as_str());
    out.push_str(" ");
    out.push_str(text::padded_right(l.owner_instance_id.as_str(), 26).as_str());
    out.push_str(" ");
    out.push_str(text::padded_left(remaining, ' ', 9).as_str());
    out.push_str(" s  ");
    out.push_str(status);
    out.push_str("\n");
    out
}

fn leases_section(list: &Vec<SlotLease>, remaining: &Vec<String>, now: u64) -> (out: String)
    requires
        list@.len() == remaining@.len(),
    ensures
        out@ == leases_text(snapshot::lease_views(list@), text::texts(remaining@), now),
{
    let ghost all = snapshot::lease_views(list@);
    let ghost rem = text::texts(remaining@);
    let mut out = text::copy_str("\n ");
    out.push_str(BOLD);
    out.push_str("Redis Leases");
    out.push_str(RESET);
    out.push_str("  (");
    out.push_str(text::decimal_of(list.len() as u64).as_str());
    out.push_str(" slot(s) leased)\n\n");
    if list.len() == 0 {
        out.push_str("   (none)\n");
        return out;
    }
    let mut columns = text::copy_str("   ");
    columns.push_str(BOLD);
    columns.push_str("Slot   Owner Instance             Expires in   Status");
    columns.push_str(RESET);
    columns.push_str("\n");
    out.push_str(columns.as_str());
    push_rule(&mut out);
    let mut rows = String::new();
    let mut i: usize = 0;
    assert(all.take(0) =~= Seq::<LeaseView>::empty());
    assert(rows@ =~= lease_rows(all.take(0), rem, now));
    while i < list.len()
        invariant
            i <= list@.len(),
            list@.len() == remaining@.len(),
            all == snapshot::lease_views(list@),
            rem == text::texts(remaining@),
            rows@ == lease_rows(all.take(i as int), rem, now),
        decreases list@.len() - i,
    {
        proof {
            assert(all.take(i + 1).last() == list@[i as int]@);
            assert(all.take(i + 1).drop_last() =~= all.take(i as int));
            assert(rem[i as int] == remaining@[i as int]@);
        }
        rows.push_str(row_of_lease(&list[i], remaining[i].as_str(), now).as_str());
        i = i + 1;
    }
    assert(all.take(i as int) =~= all);
    out.push_str(rows.as_str());
    out
}

// ── Scaling group ─────────────────────────────────────────────────────────

/// The capacity behind the title of the section; empty where it is not known.
pub open spec fn capacity_text(g: Option<AsgGroupInfo>) -> Seq<char> {
    match g {
        Some(g) => "  desired="@ + text::signed_decimal(g.desired_capacity as int) + "  min="@
            + text::signed_decimal(g.min_size as int) + "  max="@ + text::signed_decimal(
            g.max_size as int,
        ) + (if g.desired_capacity <= g.min_size {
            " \x1b[33m[!] desired=min\x1b[0m"@
        } else {
            ""@
        }),
        None => ""@,
    }
}

/// How many instances are in service.
pub open spec fn in_service_count(list: Seq<InstanceView>) -> nat
    decreases list.len(),
{
    if list.len() == 0 {
        0
    } else {
        in_service_count(list.drop_last()) + if list.last().in_service() {
            1nat
        } else {
            0nat
        }
    }
}

/// The line of an instance.
pub open spec fn instance_row(i: InstanceView) -> Seq<char> {
    "   "@ + text::pad_right(i.id, 26) + " "@ + text::pad_right(i.health, 14) + " "@
        + (if i.in_service() {
        "\x1b[32m"@
    } else {
        "\x1b[33m"@
    }) + i.lifecycle + RESET@ + "\n"@
}

/// The lines of a list of instances.
pub open spec fn instance_rows(list: Seq<InstanceView>) -> Seq<char>
    decreases list.len(),
{
    if list.len() == 0 {
        Seq::empty()
    } else {
        instance_rows(list.drop_last()) + instance_row(list.last())
    }
}

/// The section on the scaling group.
pub open spec fn asg_text(list: Seq<InstanceView>, group: Option<AsgGroupInfo>) -> Seq<char> {
    let title = "\n "@ + BOLD@ + "ASG Instances"@ + RESET@ + "  ("@ + text::decimal(list.len())
        + " total, "@ + text::decimal(in_service_count(list)) + " InService)"@ + capacity_text(
        group,
    ) + "\n\n"@;
    if list.len() == 0 {
        title + "   (none — ASG may be empty or query failed)\n"@
    } else {
        title + ("   "@ + BOLD@ + "Instance ID                Health         Lifecycle"@ + RESET@
            + "\n"@) + rule_line() + instance_rows(list)
    }
}

fn capacity(group: &Option<AsgGroupInfo>) -> (out: String)
    ensures
        out@ == capacity_text(*group),
{
    match group {
        Some(g) => {
            let warn = if g.would_violate_min() {
                " \x1b[33m[!] desired=min\x1b[0m"
            } else {
                ""
            };
            let mut out = text::copy_str("  desired=");
            out.push_str(text::signed_decimal_of(g.desired_capacity).as_str());
            out.push_str("  min=");
            out.push_str(text::signed_decimal_of(g.min_size).as_str());
            out.push_str("  max=");
            out.push_str(text::signed_decimal_of(g.max_size).as_str());
            out.push_str(warn);
            out
        },
        None => text::copy_str(""),
    }
}

fn count_in_service(list: &Vec<AsgInstance>) -> (n: usize)
    ensures
        n == in_service_count(snapshot::instance_views(list@)),
{
    let ghost all = snapshot::instance_views(list@);
    let mut n: usize = 0;
    let mut i: usize = 0;
    assert(all.take(0) =~= Seq::<InstanceView>::empty());
    while i < list.len()
        invariant
            i <= list@.len(),
            n <= i,
            all == snapshot::instance_views(list@),
            n == in_service_count(all.take(i as int)),
        decreases list@.len() - i,
    {
        proof {
            assert(all.take(i + 1).last() == list@[i as int]@);
            assert(all.take(i + 1).drop_last() =~= all.take(i as int));
        }
        if list[i].is_in_service() {
            n = n + 1;
        }
        i = i + 1;
    }
    assert(all.take(i as int) =~= all);
    n
}

fn row_of_instance(i: &AsgInstance) -> (out: String)
    ensures
        out@ == instance_row(i@),
{
    let colour = if i.is_in_service() {
        "\x1b[32m"
    } else {
        "\x1b[33m"
    };
    let mut out = text::copy_str("   ");
    out.push_str(text::padded_right(i.instance_id.as_str(), 26).as_str());
    out.push_str(" ");
    out.push_str(text::padded_right(i.health_status.as_str(), 14).as_str());
    out.push_str(" ");
    out.push_str(colour);
    out.push_str(i.lifecycle_state.as_str());
    out.push_str(RESET);
    out.push_str("\n");
    out
}

fn asg_section(list: &Vec<AsgInstance>, group: &Option<AsgGroupInfo>) -> (out: String)
    ensures
        out@ == asg_text(snapshot::instance_views(list@), *group),
{
    let ghost all = snapshot::instance_views(list@);
    let mut out = text::copy_str("\n ");
    out.push_str(BOLD);
    out.push_str("ASG Instances");
    out.push_str(RESET);
    out.push_str("  (");
    out.push_str(text::decimal_of(list.len() as u64).as_str());
    out.push_str(" total, ");
    out.push_str(text::decimal_of(count_in_service(list) as u64).as_str());
    out.push_str(" InService)");
    out.push_str(capacity(group).as_str());
    out.push_str("\n\n");
    if list.len() == 0 {
        out.push_str("   (none — ASG may be empty or query failed)\n");
        return out;
    }
    let mut columns = text::copy_str("   ");
    columns.push_str(BOLD);
    columns.push_str("Instance ID                Health         Lifecycle");
    columns.push_str(RESET);
    columns.push_str("\n");
    out.push_str(columns.as_str());
    push_rule(&mut out);
    let mut rows = String::new();
    let mut i: usize = 0;
    assert(all.take(0) =~= Seq::<InstanceView>::empty());
    assert(rows@ =~= instance_rows(all.take(0)));
    while i < list.len()
        invariant
            i <= list@.len(),
            all == snapshot::instance_views(list@),
            rows@ == instance_rows(all.take(i as int)),
        decreases list@.len() - i,
    {
        proof {
            assert(all.take(i + 1).last() == list@[i as int]@);
            assert(all.take(i + 1).drop_last() =~= all.take(i as int));
        }
        rows.push_str(row_of_instance(&list[i]).as_str());
        i = i + 1;
    }
    assert(all.take(i as int) =~= all);
    out.push_str(rows.as_str());
    out
}

// ── Summary ───────────────────────────────────────────────────────────────

/// How many backends are active.
pub open spec fn active_count(list: Seq<BackendView>) -> nat
    decreases list.len(),
{
    if list.len() == 0 {
        0
    } else {
        active_count(list.drop_last()) + if list.last().state is Active {
            1nat
        } else {
            0nat
        }
    }
}

/// How many backends are draining.
pub open spec fn draining_count(list: Seq<BackendView>) -> nat
    decreases list.len(),
{
    if list.len() == 0 {
        0
    } else {
        draining_count(list.drop_last()) + if list.last().state is Draining {
            1nat
        } else {
            0nat
        }
    }
}

/// The active connections of all real servers together.
pub open spec fn total_connections(list: Seq<IpvsBackend>) -> nat
    decreases list.len(),
{
    if list.len() == 0 {
        0
    } else {
        total_connections(list.drop_last()) + list.last().active_connections as nat
    }
}

/// The summary below the tables.
pub open spec fn summary_text(
    backends: Seq<BackendView>,
    leases: nat,
    asg: Seq<InstanceView>,
    ipvs: Seq<IpvsBackend>,
) -> Seq<char> {
    "\n"@ + bar_line() + " "@ + BOLD@ + "Summary:"@ + RESET@ + "  \x1b[32m"@ + text::decimal(
        active_count(backends),
    ) + " active\x1b[0m  \x1b[33m"@ + text::decimal(draining_count(backends))
        + " drains\x1b[0m  \x1b[90m"@ + text::decimal(
        (backends.len() - active_count(backends) - draining_count(backends)) as nat,
    ) + " disabled\x1b[0m  |  "@ + text::decimal(leases) + " leases  |  "@ + text::decimal(
        in_service_count(asg),
    ) + " inservice  |  "@ + text::decimal(total_connections(ipvs)) + " conns\n"@ + bar_line()
        + "\n"@
}

fn count_states(list: &Vec<BackendStatus>) -> (r: (usize, usize))
    ensures
        r.0 == active_count(snapshot::backend_views(list@)),
        r.1 == draining_count(snapshot::backend_views(list@)),
        r.0 + r.1 <= list@.len(),
{
    let ghost all = snapshot::backend_views(list@);
    let mut active: usize = 0;
    let mut draining: usize = 0;
    let mut i: usize = 0;
    assert(all.take(0) =~= Seq::<BackendView>::empty());
    while i < list.len()
        invariant
            i <= list@.len(),
            active + draining <= i,
            all == snapshot::backend_views(list@),
            active == active_count(all.take(i as int)),
            draining == draining_count(all.take(i as int)),
        decreases list@.len() - i,
    {
        proof {
            assert(all.take(i + 1).last() == list@[i as int]@);
            assert(all.take(i + 1).drop_last() =~= all.take(i as int));
        }
        if list[i].weight_state.is_active() {
            active = active + 1;
        } else if list[i].weight_state.is_draining() {
            draining = draining + 1;
        }
        i = i + 1;
    }
    assert(all.take(i as int) =~= all);
    (active, draining)
}

proof fn lemma_total_monotone(list: Seq<IpvsBackend>, i: int)
    requires
        0 <= i <= list.len(),
    ensures
        total_connections(list.take(i)) <= total_connections(list),
    decreases list.len(),
{
    if i < list.len() {
        lemma_total_monotone(list.drop_last(), i);
        assert(list.drop_last().take(i) =~= list.take(i));
    } else {
        assert(list.take(i) =~= list);
    }
}

fn sum_connections(list: &Vec<IpvsBackend>) -> (n: u32)
    requires
        total_connections(list@) <= u32::MAX,
    ensures
        n == total_connections(list@),
{
    let mut n: u32 = 0;
    let mut i: usize = 0;
    assert(list@.take(0) =~= Seq::<IpvsBackend>::empty());
    while i < list.len()
        invariant
            i <= list@.len(),
            total_connections(list@) <= u32::MAX,
            n == total_connections(list@.take(i as int)),
        decreases list@.len() - i,
    {
        proof {
            assert(list@.take(i + 1).last() == list@[i as int]);
            assert(list@.take(i + 1).drop_last() =~= list@.take(i as int));
            lemma_total_monotone(list@, i + 1);
        }
        n = n + list[i].active_connections;
        i = i + 1;
    }
    assert(list@.take(i as int) =~= list@);
    n
}

fn summary(snap: &SystemSnapshot) -> (out: String)
    requires
        total_connections(snap.ipvs@) <= u32::MAX,
    ensures
        out@ == summary_text(
            snapshot::backend_views(snap.backends@),
            snap.leases@.len(),
            snapshot::instance_views(snap.asg@),
            snap.ipvs@,
        ),
{
    let (active, draining): (usize, usize) = count_states(&snap.backends);
    let disabled: usize = snap.backends.len() - active - draining;
    let mut out = text::copy_str("\n");
    push_bar(&mut out);
    out.push_str(" ");
    out.push_str(BOLD);
    out.push_str("Summary:");
    out.push_str(RESET);
    out.push_str("  \x1b[32m");
    out.push_str(text::decimal_of(active as u64).as_str());
    out.push_str(" active\x1b[0m  \x1b[33m");
    out.push_str(text::decimal_of(draining as u64).as_str());
    out.push_str(" drains\x1b[0m  \x1b[90m");
    out.push_str(text::decimal_of(disabled as u64).as_str());
    out.push_str(" disabled\x1b[0m  |  ");
    out.push_str(text::decimal_of(snap.leases.len() as u64).as_str());
    out.push_str(" leases  |  ");
    out.push_str(text::decimal_of(count_in_service(&snap.asg) as u64).as_str());
    out.push_str(" inservice  |  ");
    out.push_str(text::decimal_of(sum_connections(&snap.ipvs) as u64).as_str());
    out.push_str(" conns\n");
    push_bar(&mut out);
    out.push_str("\n");
    out
}

impl SystemSnapshot {
    /// The whole report.
    pub open spec fn report(self, remaining: Seq<Seq<char>>, now: u64) -> Seq<char> {
        head_text(self.taken_at_utc@) + backends_text(snapshot::backend_views(self.backends@))
            + leases_text(snapshot::lease_views(self.leases@), remaining, now) + asg_text(
            snapshot::instance_views(self.asg@),
            self.asg_group,
        ) + summary_text(
            snapshot::backend_views(self.backends@),
            self.leases@.len(),
            snapshot::instance_views(self.asg@),
            self.ipvs@,
        )
    }

    /// The report on this snapshot.
    ///
    /// `remaining` holds the seconds that each lease still has, written with
    /// one decimal; `now` is the wall clock in milliseconds.
    pub fn print(&self, remaining: &Vec<String>, now: u64) -> (out: String)
        requires
            remaining@.len() == self.leases@.len(),
            total_connections(self.ipvs@) <= u32::MAX,
        ensures
            out@ == self.report(text::texts(remaining@), now),
    {
        let mut out = head(self.taken_at_utc.as_str());
        out.push_str(backends_section(&self.backends).as_str());
        out.push_str(leases_section(&self.leases, remaining, now).as_str());
        out.push_str(asg_section(&self.asg, &self.asg_group).as_str());
        out.push_str(summary(self).as_str());
        out
    }
}

/// What is counted in two lists adds up: backends that are active or drain,
/// instances in service and connections. One entry counts once, as what it is.
pub proof fn law_counts_add_up(
    a: Seq<BackendView>,
    b: Seq<BackendView>,
    x: BackendView,
)
    ensures
        active_count(a + b) == active_count(a) + active_count(b),
        draining_count(a + b) == draining_count(a) + draining_count(b),
        x.state is Active ==> active_count(seq![x]) == 1,
        !(x.state is Active) ==> active_count(seq![x]) == 0,
        x.state is Draining ==> draining_count(seq![x]) == 1,
        !(x.state is Draining) ==> draining_count(seq![x]) == 0,
    decreases b.len(),
{
    reveal_with_fuel(active_count, 2);
    reveal_with_fuel(draining_count, 2);
    assert(seq![x].drop_last() =~= Seq::<BackendView>::empty());
    if b.len() == 0 {
        assert(a + b =~= a);
    } else {
        law_counts_add_up(a, b.drop_last(), x);
        assert((a + b).drop_last() =~= a + b.drop_last());
    }
}

/// The instances in service of two lists add up; one counts by its lifecycle state.
pub proof fn law_in_service_adds_up(a: Seq<InstanceView>, b: Seq<InstanceView>, x: InstanceView)
    ensures
        in_service_count(a + b) == in_service_count(a) + in_service_count(b),
        x.lifecycle == "InService"@ ==> in_service_count(seq![x]) == 1,
        x.lifecycle != "InService"@ ==> in_service_count(seq![x]) == 0,
    decreases b.len(),
{
    reveal_with_fuel(in_service_count, 2);
    assert(seq![x].drop_last() =~= Seq::<InstanceView>::empty());
    if b.len() == 0 {
        assert(a + b =~= a);
    } else {
        law_in_service_adds_up(a, b.drop_last(), x);
        assert((a + b).drop_last() =~= a + b.drop_last());
    }
}

/// The connections of two lists of servers add up.
pub proof fn law_connections_add_up(a: Seq<IpvsBackend>, b: Seq<IpvsBackend>, x: IpvsBackend)
    ensures
        total_connections(a + b) == total_connections(a) + total_connections(b),
        total_connections(seq![x]) == x.active_connections,
    decreases b.len(),
{
    reveal_with_fuel(total_connections, 2);
    assert(seq![x].drop_last() =~= Seq::<IpvsBackend>::empty());
    if b.len() == 0 {
        assert(a + b =~= a);
    } else {
        law_connections_add_up(a, b.drop_last(), x);
        assert((a + b).drop_last() =~= a + b.drop_last());
    }
}

/// The rows of two lists follow each other, each row once.
pub proof fn law_rows_follow_each_other(
    a: Seq<BackendView>,
    b: Seq<BackendView>,
    x: BackendView,
)
    ensures
        backend_rows(a + b) == backend_rows(a) + backend_rows(b),
        backend_rows(seq![x]) == backend_row(x),
    decreases b.len(),
{
    reveal_with_fuel(backend_rows, 2);
    assert(seq![x].drop_last() =~= Seq::<BackendView>::empty());
    assert(Seq::<char>::empty() + backend_row(x) =~= backend_row(x));
    if b.len() == 0 {
        assert(a + b =~= a);
        assert(backend_rows(a) + backend_rows(b) =~= backend_rows(a));
    } else {
        law_rows_follow_each_other(a, b.drop_last(), x);
        assert((a + b).drop_last() =~= a + b.drop_last());
        assert(backend_rows(a + b) =~= backend_rows(a) + backend_rows(b));
    }
}

/// What the row of a backend shows: its address first, then its state, the slot and
/// the owner of its lease, and last its active and its inactive connections; a dash
/// for what is not known.
pub proof fn law_row_of_a_backend(b: BackendView)
    ensures
        text::starts_with(backend_row(b), "   "@ + text::pad_right(ipv4::dotted(b.ip), 18)),
        b.slot matches Some(n) ==> slot_cell(b) == text::decimal(n as nat),
        b.slot is None ==> slot_cell(b) == "-"@,
        b.lease matches Some(l) ==> owner_cell(b) == l.owner,
        b.lease is None ==> owner_cell(b) == "-"@,
        text::contains(
            backend_row(b),
            text::pad_right(slot_cell(b), 6) + " "@ + text::pad_right(owner_cell(b), 26),
        ),
        b.ipvs matches Some(v) ==> text::ends_with(
            backend_row(b),
            text::pad_left(text::decimal(v.active_connections as nat), ' ', 8) + "  "@
                + text::pad_left(text::decimal(v.inactive_connections as nat), ' ', 8) + "\n"@,
        ),
        b.ipvs is None ==> text::ends_with(
            backend_row(b),
            text::pad_left("-"@, ' ', 8) + "  "@ + text::pad_left("-"@, ' ', 8) + "\n"@,
        ),
{
    let address = text::pad_right(ipv4::dotted(b.ip), 18);
    let colour = snapshot::state_colour(b.state);
    let label = text::pad_right(snapshot::state_label(b.state), 12);
    let slot = text::pad_right(slot_cell(b), 6);
    let owner = text::pad_right(owner_cell(b), 26);
    let active = text::pad_left(active_cell(b), ' ', 8);
    let inactive = text::pad_left(inactive_cell(b), ' ', 8);
    lemma_columns(address, colour, label, slot, owner, active, inactive);
}

proof fn lemma_columns(
    address: Seq<char>,
    colour: Seq<char>,
    label: Seq<char>,
    slot: Seq<char>,
    owner: Seq<char>,
    active: Seq<char>,
    inactive: Seq<char>,
)
    ensures
        ({
            let row = "   "@ + address + " "@ + colour + label + RESET@ + " "@ + slot + " "@ + owner
                + " "@ + active + "  "@ + inactive + "\n"@;
            &&& text::starts_with(row, "   "@ + address)
            &&& text::contains(row, slot + " "@ + owner)
            &&& text::ends_with(row, active + "  "@ + inactive + "\n"@)
        }),
{
    let h = "   "@ + address;
    let s = h + " "@ + colour + label + RESET@ + " "@;
    let t = s + slot + " "@ + owner;
    let row = t + " "@ + active + "  "@ + inactive + "\n"@;
    assert(row.take(h.len() as int) =~= h);
    assert(t =~= s + (slot + " "@ + owner));
    let end = active + "  "@ + inactive + "\n"@;
    assert(row =~= t + " "@ + end);
    assert(row =~= s + (slot + " "@ + owner) + (" "@ + end));
    text::law_contains(row, slot + " "@ + owner);
    text::law_stripping_undoes_joining(row, end, t + " "@);
}

/// The row of a lease shows its slot first, then its owner and the time that is
/// left, and says that it has run out exactly where it has.
pub proof fn law_row_of_a_lease(l: LeaseView, remaining: Seq<char>, now: u64)
    ensures
        text::starts_with(
            lease_row(l, remaining, now),
            "   "@ + text::pad_right(text::decimal(l.slot as nat), 6) + " "@ + text::pad_right(
                l.owner,
                26,
            ) + " "@ + text::pad_left(remaining, ' ', 9) + " s  "@,
        ),
        now >= l.expires_ms ==> text::ends_with(
            lease_row(l, remaining, now),
            "\x1b[31mEXPIRED\x1b[0m"@ + "\n"@,
        ),
        now < l.expires_ms ==> text::ends_with(lease_row(l, remaining, now), " s  "@ + "\n"@),
{
    let row = lease_row(l, remaining, now);
    let head = "   "@ + text::pad_right(text::decimal(l.slot as nat), 6) + " "@ + text::pad_right(
        l.owner,
        26,
    ) + " "@ + text::pad_left(remaining, ' ', 9);
    reveal_strlit("");
    let mark = if l.expires_ms <= now {
        "\x1b[31mEXPIRED\x1b[0m"@
    } else {
        ""@
    };
    assert(row =~= (head + " s  "@) + (mark + "\n"@));
    text::law_stripping_undoes_joining(row, head + " s  "@, mark + "\n"@);
    text::law_stripping_undoes_joining(row, mark + "\n"@, head + " s  "@);
    if now < l.expires_ms {
        assert(row =~= head + (" s  "@ + "\n"@));
        text::law_stripping_undoes_joining(row, " s  "@ + "\n"@, head);
    }
}

/// The rows of leases follow each other, each with the time that is left of its own
/// lease.
pub proof fn law_lease_rows_follow_each_other(
    list: Seq<LeaseView>,
    remaining: Seq<Seq<char>>,
    l: LeaseView,
    r: Seq<char>,
    now: u64,
)
    requires
        list.len() == remaining.len(),
    ensures
        lease_rows(list.push(l), remaining.push(r), now) == lease_rows(list, remaining, now)
            + lease_row(l, r, now),
{
    assert(list.push(l).drop_last() =~= list);
    lemma_lease_rows_prefix(list, remaining, r, now);
}

proof fn lemma_lease_rows_prefix(
    list: Seq<LeaseView>,
    remaining: Seq<Seq<char>>,
    r: Seq<char>,
    now: u64,
)
    requires
        list.len() <= remaining.len(),
    ensures
        lease_rows(list, remaining.push(r), now) == lease_rows(list, remaining, now),
    decreases list.len(),
{
    if list.len() > 0 {
        lemma_lease_rows_prefix(list.drop_last(), remaining, r, now);
        assert(remaining.push(r)[list.len() - 1] == remaining[list.len() - 1]);
    }
}

/// The rows of two lists of instances follow each other. The row of one shows its
/// id, its health and its lifecycle state.
pub proof fn law_rows_of_instances(a: Seq<InstanceView>, b: Seq<InstanceView>, x: InstanceView)
    ensures
        instance_rows(a + b) == instance_rows(a) + instance_rows(b),
        text::starts_with(
            instance_rows(seq![x]),
            "   "@ + text::pad_right(x.id, 26) + " "@ + text::pad_right(x.health, 14),
        ),
        text::ends_with(instance_rows(seq![x]), x.lifecycle + RESET@ + "\n"@),
    decreases b.len(),
{
    reveal_with_fuel(instance_rows, 2);
    assert(seq![x].drop_last() =~= Seq::<InstanceView>::empty());
    let row = instance_rows(seq![x]);
    let head = "   "@ + text::pad_right(x.id, 26) + " "@ + text::pad_right(x.health, 14);
    let colour = if x.in_service() {
        "\x1b[32m"@
    } else {
        "\x1b[33m"@
    };
    let tail = x.lifecycle + RESET@ + "\n"@;
    assert(row =~= head + (" "@ + colour + tail));
    text::law_stripping_undoes_joining(row, head, " "@ + colour + tail);
    assert(row =~= (head + " "@ + colour) + tail);
    text::law_stripping_undoes_joining(row, tail, head + " "@ + colour);
    if b.len() == 0 {
        assert(a + b =~= a);
        assert(instance_rows(a) + instance_rows(b) =~= instance_rows(a));
    } else {
        law_rows_of_instances(a, b.drop_last(), x);
        assert((a + b).drop_last() =~= a + b.drop_last());
        assert(instance_rows(a + b) =~= instance_rows(a) + instance_rows(b));
    }
}

/// A group at its minimum is marked, and no other is.
pub proof fn law_capacity_is_marked_at_minimum(g: AsgGroupInfo)
    ensures
        ({
            let head = "  desired="@ + text::signed_decimal(g.desired_capacity as int) + "  min="@
                + text::signed_decimal(g.min_size as int) + "  max="@ + text::signed_decimal(
                g.max_size as int,
            );
            &&& g.desired_capacity > g.min_size ==> capacity_text(Some(g)) == head
            &&& g.desired_capacity <= g.min_size ==> capacity_text(Some(g)) == head
                + " \x1b[33m[!] desired=min\x1b[0m"@
            &&& capacity_text(None).len() == 0
        }),
{
    reveal_strlit("");
    let head = "  desired="@ + text::signed_decimal(g.desired_capacity as int) + "  min="@
        + text::signed_decimal(g.min_size as int) + "  max="@ + text::signed_decimal(
        g.max_size as int,
    );
    assert(head + ""@ =~= head);
}

} // verus!
