//! What operators can ask of a coach: to replace, change or confirm the plan, to
//! start, stop and reset a test run, and to set the bandwidth.

use vstd::prelude::*;

use crate::coach::load_plan;
use crate::coach::load_plan::{to_time_slices, LoadPlanFile, SliceSpec};
use crate::coach::metrics_store;
use crate::coach::metrics_store::AgentTotals;
use crate::coach::ndjson;
use crate::coach::ndjson::safe_record_prefix;
use crate::coach::registry;
use crate::coach::registry::{AgentStatus, EntryView, Registry};
use crate::coach::state;
use crate::coach::state::{AppState, CoachState};
use crate::gym;
use crate::json;
use crate::json::read_text_field;
use crate::order;
use crate::proto::{
    CoachCommand, CommandPayload, CommandView, LoadPlanUpdate, ShutdownCmd, TimeSlice,
    TransferRecord, UpdateView,
};
use crate::text;

verus! {

// ── Replies ───────────────────────────────────────────────────────────────

/// What a reply says.
#[derive(Debug)]
pub enum ReplyBody {
    /// The request is refused.
    Error { message: String },
    /// Done.
    Accepted,
    /// The plan of this id is in place.
    Plan { plan_id: String },
    /// The bandwidth is in place.
    Bandwidth { total_bandwidth_bps: u64 },
    /// The agents have been told to register again.
    Confirmed { agents_notified: usize },
    /// The run has started with this many connected agents.
    Started { agents: usize },
    /// The clock has been asked to stop.
    Stopping,
    /// The coach is waiting again.
    Waiting,
}

/// A reply to an operator.
#[derive(Debug)]
pub struct Reply {
    /// HTTP status code.
    pub status: u16,
    pub body: ReplyBody,
    /// The command that was put into the channels of the agents.
    pub command: Option<CoachCommand>,
    /// How many channels took the command.
    pub sent: usize,
}

pub const OK: u16 = 200;

pub const BAD_REQUEST: u16 = 400;

pub const NOT_FOUND: u16 = 404;

pub const CONFLICT: u16 = 409;

pub const PRECONDITION_FAILED: u16 = 412;

pub const UNPROCESSABLE_ENTITY: u16 = 422;

/// Whether a reply refuses the request with this status and text.
pub open spec fn refuses(r: Reply, status: u16, message: Seq<char>) -> bool {
    &&& r.status == status
    &&& r.body matches ReplyBody::Error { message: m } && m@ == message
    &&& r.command is None
    &&& r.sent == 0
}

/// Whether a reply reports success and nothing was sent to the agents.
pub open spec fn is_quiet(r: Reply) -> bool {
    r.status == OK && r.command is None && r.sent == 0
}

fn refusal(status: u16, message: String) -> (r: Reply)
    ensures
        refuses(r, status, message@),
{
    Reply { status, body: ReplyBody::Error { message }, command: None, sent: 0 }
}

fn wrong_state(before: &str, s: &CoachState, after: &str) -> (r: Reply)
    ensures
        refuses(r, CONFLICT, before@ + state::state_text(*s) + after@),
{
    let mut message = text::copy_str(before);
    message.push_str(s.to_string().as_str());
    message.push_str(after);
    refusal(CONFLICT, message)
}

fn success(body: ReplyBody) -> (r: Reply)
    ensures
        is_quiet(r),
        r.body == body,
{
    Reply { status: OK, body, command: None, sent: 0 }
}

fn shutdown(graceful: bool, reason: &str) -> (c: CoachCommand)
    ensures
        c@ == Some(CommandView::Shutdown(graceful, reason@)),
{
    CoachCommand {
        payload: Some(
            CommandPayload::Shutdown(ShutdownCmd { graceful, reason: text::copy_str(reason) }),
        ),
    }
}

fn plan_update(
    effective_from_slice: u32,
    updated_slices: Vec<TimeSlice>,
    new_bandwidth_bps: Option<u64>,
    new_total_agents: Option<u32>,
) -> (c: CoachCommand)
    ensures
        c@ == Some(
            CommandView::PlanUpdate(
                UpdateView {
                    effective_from_slice,
                    updated_slices: updated_slices@,
                    new_bandwidth_bps,
                    new_buckets: None,
                    new_total_agents,
                },
            ),
        ),
{
    CoachCommand {
        payload: Some(
            CommandPayload::PlanUpdate(
                LoadPlanUpdate {
                    effective_from_slice,
                    updated_slices,
                    new_bandwidth_bps,
                    new_file_distribution: None,
                    new_total_agents,
                },
            ),
        ),
    }
}

/// Whether a reply says that this command was broadcast, and the registry is as
/// a broadcast to that many agents leaves it.
pub open spec fn has_broadcast(
    r: Reply,
    cmd: CommandView,
    before: Seq<EntryView>,
    after: Seq<EntryView>,
) -> bool {
    &&& r.status == OK
    &&& r.command matches Some(c) && c@ == Some(cmd)
    &&& registry::is_after_broadcast(before, after, Some(cmd), r.sent as nat)
}

// ── Plan ──────────────────────────────────────────────────────────────────

/// Looks up the plan for `GET /plan`: `None` where it is to be sent, otherwise
/// the refusal.
pub fn get_plan(s: &AppState) -> (r: Option<Reply>)
    ensures
        match r {
            None => s.load_plan is Some,
            Some(reply) => s.load_plan is None && refuses(
                reply,
                NOT_FOUND,
                "no plan is loaded; supply one via PUT /plan"@,
            ),
        },
{
    if s.load_plan.is_some() {
        None
    } else {
        Some(
            refusal(
                NOT_FOUND,
                text::copy_str("no plan is loaded; supply one via PUT /plan"),
            ),
        )
    }
}

/// Replaces the plan, for `PUT /plan`: only while waiting, and only by a plan
/// that passes validation. A plan that comes this way has no file.
///
/// The last two arguments are those of [`LoadPlanFile::validate`] and
/// [`load_plan::PlanError::message`].
pub fn put_plan(
    s: &mut AppState,
    body: LoadPlanFile,
    percentages_sum_to_one: bool,
    number: &str,
) -> (r: Reply)
    ensures
        match body.first_error(percentages_sum_to_one) {
            Some(e) => *final(s) == *old(s) && refuses(
                r,
                UNPROCESSABLE_ENTITY,
                load_plan::error_text(e, body, number@),
            ),
            None => if old(s).coach_state is Waiting {
                &&& is_quiet(r)
                &&& r.body matches ReplyBody::Plan { plan_id } && plan_id@ == body.plan_id@
                &&& *final(s) == (AppState {
                    load_plan: Some(body),
                    plan_filename_stem: None,
                    ..*old(s)
                })
            } else {
                *final(s) == *old(s) && refuses(
                    r,
                    CONFLICT,
                    "cannot replace plan while in state "@ + state::state_text(old(s).coach_state)
                        + "; plan replacement requires WAITING"@,
                )
            },
        },
{
    match body.validate(percentages_sum_to_one) {
        Err(e) => {
            return refusal(UNPROCESSABLE_ENTITY, e.message(&body, number));
        },
        Ok(_) => {},
    }
    if !s.coach_state.is_waiting() {
        return wrong_state(
            "cannot replace plan while in state ",
            &s.coach_state,
            "; plan replacement requires WAITING",
        );
    }
    let plan_id = text::copy_str(body.plan_id.as_str());
    s.load_plan = Some(body);
    s.plan_filename_stem = None;
    success(ReplyBody::Plan { plan_id })
}

/// The first slice with this index, from `i` on.
pub open spec fn find_slice(slices: Seq<SliceSpec>, index: u32, i: int) -> Option<int>
    decreases slices.len() - i,
{
    if i < 0 || i >= slices.len() {
        None
    } else if slices[i].slice_index == index {
        Some(i)
    } else {
        find_slice(slices, index, i + 1)
    }
}

/// The connections that a plan gives to a slice of the whole fleet; `None` where
/// it has no such slice.
pub open spec fn planned(slices: Seq<SliceSpec>, index: u32) -> Option<u32> {
    match find_slice(slices, index, 0) {
        Some(i) => Some(slices[i].total_connections),
        None => None,
    }
}

/// The slices with the connections of one slice changed; a slice before the
/// boundary and an unknown slice change nothing.
pub open spec fn patch_one(slices: Seq<SliceSpec>, from: u32, u: SliceSpec) -> Seq<SliceSpec> {
    match find_slice(slices, u.slice_index, 0) {
        Some(i) => if u.slice_index < from {
            slices
        } else {
            slices.update(i, u)
        },
        None => slices,
    }
}

/// The slices with all changes from the boundary on made, one after the other.
pub open spec fn patched(slices: Seq<SliceSpec>, from: u32, updates: Seq<SliceSpec>) -> Seq<
    SliceSpec,
>
    decreases updates.len(),
{
    if updates.len() == 0 {
        slices
    } else {
        patch_one(patched(slices, from, updates.drop_last()), from, updates.last())
    }
}

fn patch_slices(slices: &mut Vec<SliceSpec>, from: u32, updates: &Vec<SliceSpec>)
    ensures
        final(slices)@ == patched(old(slices)@, from, updates@),
{
    let ghost first = slices@;
    let mut k: usize = 0;
    assert(updates@.take(0) =~= Seq::<SliceSpec>::empty());
    while k < updates.len()
        invariant
            k <= updates@.len(),
            slices@ == patched(first, from, updates@.take(k as int)),
        decreases updates@.len() - k,
    {
        let u: SliceSpec = updates[k];
        let ghost was = slices@;
        proof {
            assert(updates@.take(k + 1).last() == u);
            assert(updates@.take(k + 1).drop_last() =~= updates@.take(k as int));
        }
        let n: usize = slices.len();
        let mut i: usize = 0;
        let mut found: bool = false;
        while i < n && !found
            invariant
                i <= n,
                n == was.len(),
                slices@ == was,
                found ==> i < n && find_slice(was, u.slice_index, 0) == Some(i as int)
                    && was[i as int].slice_index == u.slice_index,
                !found ==> find_slice(was, u.slice_index, 0) == find_slice(
                    was,
                    u.slice_index,
                    i as int,
                ),
            decreases
                    n - i,
                    if found {
                        0int
                    } else {
                        1int
                    },
        {
            if slices[i].slice_index == u.slice_index {
                found = true;
            } else {
                i = i + 1;
            }
        }
        if found && u.slice_index >= from {
            slices.set(i, u);
        }
        k = k + 1;
    }
    assert(updates@.take(k as int) =~= updates@);
}

/// The slices from a boundary on.
pub open spec fn slices_from(slices: Seq<SliceSpec>, from: u32) -> Seq<SliceSpec>
    decreases slices.len(),
{
    if slices.len() == 0 {
        slices
    } else if slices.last().slice_index < from {
        slices_from(slices.drop_last(), from)
    } else {
        slices_from(slices.drop_last(), from).push(slices.last())
    }
}

fn keep_from(slices: &Vec<SliceSpec>, from: u32) -> (out: Vec<SliceSpec>)
    ensures
        out@ == slices_from(slices@, from),
{
    let mut out: Vec<SliceSpec> = Vec::new();
    let mut i: usize = 0;
    assert(slices@.take(0) =~= Seq::<SliceSpec>::empty());
    while i < slices.len()
        invariant
            i <= slices@.len(),
            out@ == slices_from(slices@.take(i as int), from),
        decreases slices@.len() - i,
    {
        proof {
            assert(slices@.take(i + 1).last() == slices@[i as int]);
            assert(slices@.take(i + 1).drop_last() =~= slices@.take(i as int));
        }
        if slices[i].slice_index >= from {
            out.push(slices[i]);
        }
        i = i + 1;
    }
    assert(slices@.take(i as int) =~= slices@);
    out
}

/// The slices in the form that agents get.
pub open spec fn time_slices(slices: Seq<SliceSpec>) -> Seq<TimeSlice> {
    Seq::new(
        slices.len(),
        |i: int|
            TimeSlice {
                slice_index: slices[i].slice_index,
                total_connections: slices[i].total_connections,
            },
    )
}

/// Whether all of the state is unchanged but the plan and the registry.
pub open spec fn same_but_plan_and_agents(a: AppState, b: AppState) -> bool {
    &&& a.coach_state == b.coach_state
    &&& a.metrics == b.metrics
    &&& a.stop_requested == b.stop_requested
    &&& a.record_dir == b.record_dir
    &&& a.plan_dir == b.plan_dir
    &&& a.plan_filename_stem == b.plan_filename_stem
    &&& a.record_open == b.record_open
    &&& a.record_file_path == b.record_file_path
}

/// Changes slices and bandwidth of the plan, for `PATCH /plan`: not once the run
/// is over. Slices before the boundary stay as they are, even where they are
/// listed. While the run is on, the agents get all slices from the boundary on, as
/// they are then planned: agents replace theirs from there on.
pub fn patch_plan(
    s: &mut AppState,
    effective_from_slice: u32,
    updated_slices: &Vec<SliceSpec>,
    new_bandwidth_bps: Option<u64>,
) -> (r: Reply)
    requires
        old(s).wf(),
    ensures
        final(s).wf(),
        if old(s).coach_state is Done {
            *final(s) == *old(s) && refuses(r, CONFLICT, "cannot patch plan in DONE state"@)
        } else {
            match old(s).load_plan {
                None => *final(s) == *old(s) && refuses(r, NOT_FOUND, "no plan is loaded"@),
                Some(plan) => {
                    &&& r.status == OK
                    &&& r.body is Accepted
                    &&& same_but_plan_and_agents(*old(s), *final(s))
                    &&& final(s).load_plan matches Some(p) && {
                        &&& p.slices@ == patched(
                            plan.slices@,
                            effective_from_slice,
                            updated_slices@,
                        )
                        &&& p.total_bandwidth_bps == (match new_bandwidth_bps {
                            Some(bps) => bps,
                            None => plan.total_bandwidth_bps,
                        })
                        &&& p.plan_id == plan.plan_id
                        &&& p.slice_duration_ms == plan.slice_duration_ms
                        &&& p.file_distribution == plan.file_distribution
                    }
                    &&& if old(s).coach_state is Running {
                        has_broadcast(
                            r,
                            CommandView::PlanUpdate(
                                UpdateView {
                                    effective_from_slice,
                                    updated_slices: time_slices(
                                        slices_from(
                                            patched(
                                                plan.slices@,
                                                effective_from_slice,
                                                updated_slices@,
                                            ),
                                            effective_from_slice,
                                        ),
                                    ),
                                    new_bandwidth_bps,
                                    new_buckets: None,
                                    new_total_agents: None,
                                },
                            ),
                            old(s).registry.agents(),
                            final(s).registry.agents(),
                        )
                    } else {
                        is_quiet(r) && final(s).registry == old(s).registry
                    }
                },
            }
        },
{
    if s.coach_state.is_done() {
        return refusal(CONFLICT, text::copy_str("cannot patch plan in DONE state"));
    }
    let rest: Vec<SliceSpec> = match &mut s.load_plan {
        None => {
            return refusal(NOT_FOUND, text::copy_str("no plan is loaded"));
        },
        Some(plan) => {
            patch_slices(&mut plan.slices, effective_from_slice, updated_slices);
            match new_bandwidth_bps {
                Some(bps) => {
                    plan.total_bandwidth_bps = bps;
                },
                None => {},
            }
            keep_from(&plan.slices, effective_from_slice)
        },
    };
    if s.coach_state.is_running() {
        let slices = to_time_slices(&rest);
        assert(slices@ =~= time_slices(rest@));
        let cmd = plan_update(effective_from_slice, slices, new_bandwidth_bps, None);
        let sent: usize = s.registry.broadcast(&cmd);
        return Reply { status: OK, body: ReplyBody::Accepted, command: Some(cmd), sent };
    }
    success(ReplyBody::Accepted)
}

/// Tells all agents to register again and so to get the plan, for
/// `POST /plan/confirm`: only while waiting, and only with a plan. A new round
/// of acknowledgements begins.
pub fn confirm_plan(s: &mut AppState) -> (r: Reply)
    requires
        old(s).wf(),
    ensures
        final(s).wf(),
        final(s).load_plan == old(s).load_plan,
        same_but_plan_and_agents(*old(s), *final(s)),
        if !(old(s).coach_state is Waiting) {
            *final(s) == *old(s) && refuses(
                r,
                CONFLICT,
                "cannot confirm plan while in state "@ + state::state_text(old(s).coach_state)
                    + "; must be WAITING"@,
            )
        } else if old(s).load_plan is None {
            *final(s) == *old(s) && refuses(
                r,
                PRECONDITION_FAILED,
                "no plan loaded; select a plan before confirming"@,
            )
        } else {
            &&& has_broadcast(
                r,
                CommandView::Shutdown(
                    false,
                    "plan confirmed — re-register to receive the updated plan"@,
                ),
                registry::without_acks(old(s).registry.agents()),
                final(s).registry.agents(),
            )
            &&& r.body matches ReplyBody::Confirmed { agents_notified } && agents_notified == r.sent
            &&& forall|i: int|
                0 <= i < final(s).registry.agents().len() ==> !(
                #[trigger] final(s).registry.agents()[i]).plan_acked
        },
{
    if !s.coach_state.is_waiting() {
        return wrong_state(
            "cannot confirm plan while in state ",
            &s.coach_state,
            "; must be WAITING",
        );
    }
    if s.load_plan.is_none() {
        return refusal(
            PRECONDITION_FAILED,
            text::copy_str("no plan loaded; select a plan before confirming"),
        );
    }
    s.registry.reset_plan_acks();
    let cmd = shutdown(false, "plan confirmed — re-register to receive the updated plan");
    let n: usize = s.registry.broadcast(&cmd);
    Reply {
        status: OK,
        body: ReplyBody::Confirmed { agents_notified: n },
        command: Some(cmd),
        sent: n,
    }
}

// ── Plan directory ────────────────────────────────────────────────────────

/// Whether a file of this name is a plan file: it has a stem and the extension
/// `json`.
pub open spec fn is_plan_name(name: Seq<char>) -> bool {
    text::ends_with(name, ".json"@) && name.len() > 5
}

/// The plan files among these names.
pub open spec fn plan_names(names: Seq<Seq<char>>) -> Seq<Seq<char>>
    decreases names.len(),
{
    if names.len() == 0 {
        Seq::empty()
    } else if is_plan_name(names.last()) {
        plan_names(names.drop_last()).push(names.last())
    } else {
        plan_names(names.drop_last())
    }
}

/// Whether `sorted` holds these texts in lexicographic order.
pub open spec fn is_sorted_form(all: Seq<Seq<char>>, sorted: Seq<Seq<char>>) -> bool {
    exists|p: Seq<usize>|
        #[trigger] order::is_text_order(all, p) && sorted == order::permuted(all, p)
}

/// The plan files of a directory that holds files of these names, sorted by
/// name.
pub fn plan_files(names: &Vec<String>) -> (out: Vec<String>)
    ensures
        is_sorted_form(plan_names(text::texts(names@)), text::texts(out@)),
{
    let ghost all = text::texts(names@);
    let mut kept: Vec<String> = Vec::new();
    let mut i: usize = 0;
    assert(all.take(0) =~= Seq::<Seq<char>>::empty());
    assert(text::texts(kept@) =~= plan_names(all.take(0)));
    while i < names.len()
        invariant
            i <= names@.len(),
            all == text::texts(names@),
            text::texts(kept@) == plan_names(all.take(i as int)),
        decreases names@.len() - i,
    {
        let name = names[i].as_str();
        proof {
            assert(all.take(i + 1).last() == name@);
            assert(all.take(i + 1).drop_last() =~= all.take(i as int));
        }
        if text::ends(name, ".json") && text::chars_of(name).len() > 5 {
            let copy = text::copy_str(name);
            proof {
                text::lemma_texts_push(kept@, copy);
            }
            kept.push(copy);
        }
        i = i + 1;
    }
    assert(all.take(i as int) =~= all);
    let p = order::text_order(&kept);
    let ghost keys = text::texts(kept@);
    let mut out: Vec<String> = Vec::new();
    let mut k: usize = 0;
    while k < p.len()
        invariant
            k <= p@.len(),
            keys == text::texts(kept@),
            order::is_text_order(keys, p@),
            out@.len() == k,
            forall|j: int| 0 <= j < k ==> (#[trigger] out@[j])@ == keys[p@[j] as int],
        decreases p@.len() - k,
    {
        let at: usize = p[k];
        let copy = text::copy_str(kept[at].as_str());
        out.push(copy);
        k = k + 1;
    }
    assert(text::texts(out@) =~= order::permuted(keys, p@));
    out
}

/// The plan file that a coach starts with: the last one by name.
pub fn last_plan_in_dir(names: &Vec<String>) -> (r: Option<String>)
    ensures
        match r {
            Some(s) => is_last_of(plan_names(text::texts(names@)), s@),
            None => plan_names(text::texts(names@)).len() == 0,
        },
{
    let mut files = plan_files(names);
    let ghost all = plan_names(text::texts(names@));
    let ghost list = files@;
    let ghost sorted = text::texts(list);
    assert(is_sorted_form(all, sorted));
    match files.pop() {
        Some(s) => {
            proof {
                let p = choose|p: Seq<usize>|
                    #[trigger] order::is_text_order(all, p) && sorted == order::permuted(all, p);
                let n = p.len() - 1;
                assert(sorted.len() == p.len());
                assert(list[n] == s);
                assert(sorted[n] == s@);
                assert(all[p[n] as int] == s@);
                assert forall|i: int| 0 <= i < all.len() && #[trigger] all[i] != s@ implies order::text_less(
                    all[i],
                    s@,
                ) by {
                    order::law_text_order_is_permutation(all, p, i);
                    let k = choose|k: int| 0 <= k < p.len() && #[trigger] p[k] == i;
                    if k < n {
                        assert(order::text_before(all, p[k] as int, p[n] as int));
                    }
                }
            }
            Some(s)
        },
        None => {
            assert(sorted.len() == 0);
            None
        },
    }
}

/// Whether a text is one of a list and no other one of the list comes after it.
pub open spec fn is_last_of(all: Seq<Seq<char>>, s: Seq<char>) -> bool {
    &&& all.contains(s)
    &&& forall|i: int| 0 <= i < all.len() && #[trigger] all[i] != s ==> order::text_less(all[i], s)
}

/// A path below a directory.
pub open spec fn joined(dir: Seq<char>, name: Seq<char>) -> Seq<char> {
    if dir.len() == 0 || dir.last() == '/' {
        dir + name
    } else {
        dir + "/"@ + name
    }
}

/// The path of a file of a directory. The name is not an absolute path.
pub fn join_path(dir: &str, name: &str) -> (out: String)
    ensures
        out@ == joined(dir@, name@),
{
    let cs = text::chars_of(dir);
    let n: usize = cs.len();
    let mut out = text::copy_str(dir);
    if n > 0 && cs[n - 1] != '/' {
        out.push_str("/");
    }
    out.push_str(name);
    out
}

/// Whether this is the path of the plan in a directory that holds files of these
/// names: the one with the last name.
pub open spec fn is_plan_path(dir: Seq<char>, names: Seq<Seq<char>>, path: Seq<char>) -> bool {
    exists|name: Seq<char>|
        #[trigger] is_last_of(plan_names(names), name) && path == joined(dir, name)
}

/// The plan file to load at startup: the last one of the plan directory where
/// one is set, and else the configured file. `names` are the names of the files
/// in the directory, `None` where it cannot be read.
pub fn startup_plan(
    plan_dir: &Option<String>,
    plan_file: &Option<String>,
    names: &Option<Vec<String>>,
) -> (r: Option<String>)
    ensures
        match (*plan_dir, *names) {
            (Some(dir), Some(list)) => match r {
                Some(path) => is_plan_path(dir@, text::texts(list@), path@),
                None => plan_names(text::texts(list@)).len() == 0,
            },
            (Some(_), None) => r is None,
            (None, _) => text::opt_text(r) == text::opt_text(*plan_file),
        },
{
    match plan_dir {
        Some(dir) => match names {
            Some(list) => match last_plan_in_dir(list) {
                Some(name) => {
                    let path = join_path(dir.as_str(), name.as_str());
                    assert(is_plan_path(dir@, text::texts(list@), path@)) by {
                        assert(is_last_of(plan_names(text::texts(list@)), name@));
                    }
                    Some(path)
                },
                None => None,
            },
            None => None,
        },
        None => text::copy_opt(plan_file),
    }
}

/// Puts the plan of the startup file in place, with the prefix for record files
/// that comes from the stem of the file's name. The caller has validated the
/// plan.
pub fn startup_commit(s: &mut AppState, stem: &Option<String>, plan: LoadPlanFile)
    ensures
        final(s).load_plan == Some(plan),
        final(s).plan_filename_stem matches Some(prefix) && prefix@ == ndjson::record_prefix(
            match *stem {
                Some(name) => name@,
                None => plan.plan_id@,
            },
        ),
        *final(s) == (AppState {
            load_plan: final(s).load_plan,
            plan_filename_stem: final(s).plan_filename_stem,
            ..*old(s)
        }),
{
    let prefix = ndjson::stem_from_path(stem, plan.plan_id.as_str());
    s.load_plan = Some(plan);
    s.plan_filename_stem = Some(prefix);
}

/// The directory to list, for `GET /plans`.
pub fn plans_dir(s: &AppState) -> (r: Result<String, Reply>)
    ensures
        match s.plan_dir {
            Some(dir) => r matches Ok(d) && d@ == dir@,
            None => r matches Err(reply) && refuses(
                reply,
                NOT_FOUND,
                "no plan directory configured (AEROCOACH_PLAN_DIR not set)"@,
            ),
        },
{
    match &s.plan_dir {
        Some(dir) => Ok(text::copy_str(dir.as_str())),
        None => Err(
            refusal(
                NOT_FOUND,
                text::copy_str("no plan directory configured (AEROCOACH_PLAN_DIR not set)"),
            ),
        ),
    }
}

/// A plan file in a list of plans.
#[derive(Debug)]
pub struct PlanEntry {
    pub filename: String,
    /// The id in the file, or the name of the file where it has none.
    pub plan_id: String,
}

/// The entry of a plan file in which this id was found.
pub fn listed(filename: &str, id: Option<String>) -> (e: PlanEntry)
    ensures
        e.filename@ == filename@,
        e.plan_id@ == (match text::opt_text(id) {
            Some(t) => t,
            None => filename@,
        }),
{
    let plan_id = match id {
        Some(t) => t,
        None => text::copy_str(filename),
    };
    PlanEntry { filename: text::copy_str(filename), plan_id }
}

/// The id in the text of a plan file; `None` where the file cannot be read or
/// has no id.
pub open spec fn plan_id_in(raw: Option<String>) -> Option<Seq<char>> {
    match raw {
        Some(t) => json::text_field(t@, "plan_id"@),
        None => None,
    }
}

/// The entry of a plan file with this text, for `GET /plans`; `raw` is `None`
/// where the file cannot be read.
pub fn plan_entry(filename: &str, raw: &Option<String>) -> (e: PlanEntry)
    ensures
        e.filename@ == filename@,
        e.plan_id@ == (match plan_id_in(*raw) {
            Some(t) => t,
            None => filename@,
        }),
{
    let id: Option<String> = match raw {
        Some(t) => read_text_field(t.as_str(), "plan_id"),
        None => None,
    };
    listed(filename, id)
}

/// Checks a request to load a plan file, for `POST /plan/select`, and gives the
/// path of the file: only with a plan directory and while waiting, and only
/// files right in that directory.
pub fn select_check(s: &AppState, filename: &str) -> (r: Result<String, Reply>)
    ensures
        match s.plan_dir {
            None => r matches Err(reply) && refuses(
                reply,
                NOT_FOUND,
                "no plan directory configured (AEROCOACH_PLAN_DIR not set)"@,
            ),
            Some(dir) => if text::contains(filename@, "/"@) || text::contains(filename@, "\\"@)
                || text::contains(filename@, ".."@) {
                r matches Err(reply) && refuses(
                    reply,
                    BAD_REQUEST,
                    "filename must not contain path separators"@,
                )
            } else if !text::ends_with(filename@, ".json"@) {
                r matches Err(reply) && refuses(
                    reply,
                    BAD_REQUEST,
                    "filename must end with .json"@,
                )
            } else if !(s.coach_state is Waiting) {
                r matches Err(reply) && refuses(
                    reply,
                    CONFLICT,
                    "cannot select plan while in state "@ + state::state_text(s.coach_state)
                        + "; must be WAITING"@,
                )
            } else {
                r matches Ok(path) && path@ == joined(dir@, filename@)
            },
        },
{
    match plans_dir(s) {
        Err(reply) => Err(reply),
        Ok(dir) => {
            if text::has(filename, "/") || text::has(filename, "\\") || text::has(filename, "..") {
                return Err(
                    refusal(
                        BAD_REQUEST,
                        text::copy_str("filename must not contain path separators"),
                    ),
                );
            }
            if !text::ends(filename, ".json") {
                return Err(refusal(BAD_REQUEST, text::copy_str("filename must end with .json")));
            }
            if !s.coach_state.is_waiting() {
                return Err(
                    wrong_state(
                        "cannot select plan while in state ",
                        &s.coach_state,
                        "; must be WAITING",
                    ),
                );
            }
            Ok(join_path(dir.as_str(), filename))
        },
    }
}

/// The stem of a file name that ends with `.json`; a name that is nothing but
/// the extension is its own stem.
pub open spec fn json_stem(filename: Seq<char>) -> Seq<char> {
    if is_plan_name(filename) {
        filename.take(filename.len() - 5)
    } else {
        filename
    }
}

/// Puts a plan in place that was read from a file of the plan directory, for
/// `POST /plan/select`. The caller has checked the request with
/// [`select_check`] and validated the plan.
pub fn select_commit(s: &mut AppState, filename: &str, plan: LoadPlanFile) -> (r: Reply)
    ensures
        is_quiet(r),
        r.body matches ReplyBody::Plan { plan_id } && plan_id@ == plan.plan_id@,
        final(s).load_plan == Some(plan),
        final(s).plan_filename_stem matches Some(stem) && stem@ == ndjson::record_prefix(
            json_stem(filename@),
        ),
        final(s).registry == old(s).registry,
        final(s).coach_state == old(s).coach_state,
        final(s).metrics == old(s).metrics,
        final(s).stop_requested == old(s).stop_requested,
        final(s).record_dir == old(s).record_dir,
        final(s).plan_dir == old(s).plan_dir,
        final(s).record_open == old(s).record_open,
        final(s).record_file_path == old(s).record_file_path,
{
    let cs = text::chars_of(filename);
    let n: usize = cs.len();
    let stem = if text::ends(filename, ".json") && n > 5 {
        let stem = text::string_of(&cs, 0, n - 5);
        assert(stem@ =~= filename@.take(n - 5));
        safe_record_prefix(stem.as_str())
    } else {
        safe_record_prefix(filename)
    };
    let plan_id = text::copy_str(plan.plan_id.as_str());
    s.load_plan = Some(plan);
    s.plan_filename_stem = Some(stem);
    success(ReplyBody::Plan { plan_id })
}

// ── Test run ──────────────────────────────────────────────────────────────

/// Checks a request to start the run, for `POST /start`, and gives the prefix
/// of the record file: only while waiting, and only with a plan.
pub fn start_check(s: &AppState) -> (r: Result<String, Reply>)
    ensures
        if !(s.coach_state is Waiting) {
            r matches Err(reply) && refuses(
                reply,
                CONFLICT,
                "cannot start: coach is in state "@ + state::state_text(s.coach_state)
                    + ", must be WAITING"@,
            )
        } else {
            match s.load_plan {
                None => r matches Err(reply) && refuses(
                    reply,
                    PRECONDITION_FAILED,
                    "no load plan loaded; supply one via PUT /plan first"@,
                ),
                Some(plan) => r matches Ok(prefix) && prefix@ == (match s.plan_filename_stem {
                    Some(stem) => stem@,
                    None => ndjson::record_prefix(plan.plan_id@),
                }),
            }
        },
{
    if !s.coach_state.is_waiting() {
        return Err(
            wrong_state("cannot start: coach is in state ", &s.coach_state, ", must be WAITING"),
        );
    }
    match &s.load_plan {
        None => Err(
            refusal(
                PRECONDITION_FAILED,
                text::copy_str("no load plan loaded; supply one via PUT /plan first"),
            ),
        ),
        Some(plan) => match &s.plan_filename_stem {
            Some(stem) => Ok(text::copy_str(stem.as_str())),
            None => Ok(safe_record_prefix(plan.plan_id.as_str())),
        },
    }
}

/// Starts the run, for `POST /start`. `record_file` is the path of the record
/// file; `None` where it could not be opened.
///
/// The agents are told how many they are, before any slice begins: each of them
/// derives its share from that number. The boundary of that update lies beyond
/// all slices, so that it changes none.
pub fn start_commit(s: &mut AppState, record_file: Option<String>) -> (r: Reply)
    requires
        old(s).wf(),
    ensures
        final(s).wf(),
        final(s).coach_state == (CoachState::Running { current_slice: 0 }),
        !final(s).stop_requested,
        final(s).load_plan == old(s).load_plan,
        final(s).metrics == old(s).metrics,
        final(s).record_dir == old(s).record_dir,
        final(s).plan_dir == old(s).plan_dir,
        final(s).plan_filename_stem == old(s).plan_filename_stem,
        match record_file {
            Some(path) => final(s).record_file_path == Some(path) && final(s).record_open,
            None => final(s).record_file_path == old(s).record_file_path && final(s).record_open
                == old(s).record_open,
        },
        has_broadcast(
            r,
            CommandView::PlanUpdate(
                UpdateView {
                    effective_from_slice: u32::MAX,
                    updated_slices: Seq::empty(),
                    new_bandwidth_bps: None,
                    new_buckets: None,
                    new_total_agents: Some(old(s).registry.agents().len() as u32),
                },
            ),
            old(s).registry.agents(),
            final(s).registry.agents(),
        ),
        r.body matches ReplyBody::Started { agents } && agents == registry::count(
            final(s).registry.agents(),
            |e: EntryView| e.connected,
        ),
{
    s.coach_state = CoachState::Running { current_slice: 0 };
    s.renew_stop();
    match record_file {
        Some(path) => {
            s.record_file_path = Some(path);
            s.record_open = true;
        },
        None => {},
    }
    let total_agents: u32 = s.registry.len() as u32;
    let cmd = plan_update(u32::MAX, Vec::new(), None, Some(total_agents));
    let sent: usize = s.registry.broadcast(&cmd);
    let agents: usize = s.registry.connected_count();
    Reply { status: OK, body: ReplyBody::Started { agents }, command: Some(cmd), sent }
}

/// Asks the clock to stop, for `POST /stop`: only while the run is on.
pub fn stop(s: &mut AppState) -> (r: Reply)
    ensures
        if old(s).coach_state is Running {
            is_quiet(r) && r.body is Stopping && *final(s) == (AppState {
                stop_requested: true,
                ..*old(s)
            })
        } else {
            *final(s) == *old(s) && refuses(
                r,
                CONFLICT,
                "cannot stop: coach is in state "@ + state::state_text(old(s).coach_state)
                    + ", must be RUNNING"@,
            )
        },
{
    if !s.coach_state.is_running() {
        return wrong_state("cannot stop: coach is in state ", &s.coach_state, ", must be RUNNING");
    }
    s.signal_stop();
    success(ReplyBody::Stopping)
}

/// Goes back to waiting after a run, for `POST /reset`: only once the run is
/// over. Agents that are still draining are told to abort first.
///
/// Hands back the registry with which the agents were told, which the state no
/// longer holds; `None` where the request is refused.
pub fn reset(s: &mut AppState) -> (out: (Reply, Option<Registry>))
    requires
        old(s).wf(),
    ensures
        final(s).wf(),
        if old(s).coach_state is Done {
            &&& out.0.status == OK
            &&& out.0.body is Waiting
            &&& out.1 matches Some(told) && has_broadcast(
                out.0,
                CommandView::Shutdown(false, "coach reset — abort and re-register"@),
                old(s).registry.agents(),
                told.agents(),
            )
            &&& final(s).coach_state == CoachState::Waiting
            &&& final(s).registry.agents().len() == 0
            &&& final(s).metrics.pending().len() == 0
            &&& final(s).metrics.totals@.len() == 0
            &&& !final(s).stop_requested
            &&& !final(s).record_open
            &&& final(s).record_file_path is None
            &&& final(s).load_plan == old(s).load_plan
            &&& final(s).record_dir == old(s).record_dir
            &&& final(s).plan_dir == old(s).plan_dir
            &&& final(s).plan_filename_stem == old(s).plan_filename_stem
        } else {
            *final(s) == *old(s) && out.1 is None && refuses(
                out.0,
                CONFLICT,
                "cannot reset: coach is in state "@ + state::state_text(old(s).coach_state)
                    + ", must be DONE"@,
            )
        },
{
    if !s.coach_state.is_done() {
        let r = wrong_state("cannot reset: coach is in state ", &s.coach_state, ", must be DONE");
        return (r, None);
    }
    let cmd = shutdown(false, "coach reset — abort and re-register");
    let sent: usize = s.registry.broadcast(&cmd);
    let mut told = Registry::new();
    std::mem::swap(&mut told, &mut s.registry);
    s.reset();
    (Reply { status: OK, body: ReplyBody::Waiting, command: Some(cmd), sent }, Some(told))
}

/// Sets the bandwidth of the plan, for `POST /bandwidth`: not to zero, and not
/// once the run is over. While the run is on, the agents are told, with a boundary
/// beyond all slices, so that they keep theirs.
pub fn set_bandwidth(s: &mut AppState, total_bandwidth_bps: u64) -> (r: Reply)
    requires
        old(s).wf(),
    ensures
        final(s).wf(),
        if total_bandwidth_bps == 0 {
            *final(s) == *old(s) && refuses(
                r,
                UNPROCESSABLE_ENTITY,
                "total_bandwidth_bps must be greater than zero"@,
            )
        } else if old(s).coach_state is Done {
            *final(s) == *old(s) && refuses(r, CONFLICT, "cannot update bandwidth in DONE state"@)
        } else {
            match old(s).load_plan {
                None => *final(s) == *old(s) && refuses(r, NOT_FOUND, "no plan is loaded"@),
                Some(plan) => {
                    &&& r.status == OK
                    &&& r.body == (ReplyBody::Bandwidth { total_bandwidth_bps })
                    &&& same_but_plan_and_agents(*old(s), *final(s))
                    &&& final(s).load_plan == Some(LoadPlanFile { total_bandwidth_bps, ..plan })
                    &&& match old(s).coach_state {
                        CoachState::Running { .. } => has_broadcast(
                            r,
                            CommandView::PlanUpdate(
                                UpdateView {
                                    effective_from_slice: u32::MAX,
                                    updated_slices: Seq::empty(),
                                    new_bandwidth_bps: Some(total_bandwidth_bps),
                                    new_buckets: None,
                                    new_total_agents: None,
                                },
                            ),
                            old(s).registry.agents(),
                            final(s).registry.agents(),
                        ),
                        _ => is_quiet(r) && final(s).registry == old(s).registry,
                    }
                },
            }
        },
{
    if total_bandwidth_bps == 0 {
        return refusal(
            UNPROCESSABLE_ENTITY,
            text::copy_str("total_bandwidth_bps must be greater than zero"),
        );
    }
    if s.coach_state.is_done() {
        return refusal(CONFLICT, text::copy_str("cannot update bandwidth in DONE state"));
    }
    match &mut s.load_plan {
        None => {
            return refusal(NOT_FOUND, text::copy_str("no plan is loaded"));
        },
        Some(plan) => {
            plan.total_bandwidth_bps = total_bandwidth_bps;
        },
    }
    if s.coach_state.is_running() {
        let cmd = plan_update(u32::MAX, Vec::new(), Some(total_bandwidth_bps), None);
        let sent: usize = s.registry.broadcast(&cmd);
        let body = ReplyBody::Bandwidth { total_bandwidth_bps };
        return Reply { status: OK, body, command: Some(cmd), sent };
    }
    success(ReplyBody::Bandwidth { total_bandwidth_bps })
}

/// The record file to send, for `GET /results`.
pub fn results(s: &AppState) -> (r: Result<String, Reply>)
    ensures
        match s.record_file_path {
            Some(path) => r matches Ok(p) && p@ == path@,
            None => r matches Err(reply) && refuses(
                reply,
                NOT_FOUND,
                "no results available; run a test first"@,
            ),
        },
{
    match &s.record_file_path {
        Some(path) => Ok(text::copy_str(path.as_str())),
        None => Err(
            refusal(NOT_FOUND, text::copy_str("no results available; run a test first")),
        ),
    }
}

// ── Dashboard ticker ──────────────────────────────────────────────────────

/// How long a record file stays open after the run at most, in milliseconds,
/// while agents still report connections.
pub const WRITER_CLOSE_MS: u64 = 120_000;

/// What the ticker takes out of the state.
#[derive(Debug)]
pub struct TickData {
    pub drained: Vec<(String, TransferRecord)>,
    pub snapshot: Vec<AgentStatus>,
    /// The totals of the agents of `snapshot`, in the same order.
    pub totals: Vec<AgentTotals>,
    pub current_slice: u32,
    pub total_slices: u32,
}

/// Takes out what the next payload for the dashboards is made of.
pub fn take_tick(s: &mut AppState) -> (d: TickData)
    requires
        old(s).wf(),
    ensures
        final(s).wf(),
        metrics_store::completed_views(d.drained@) == old(s).metrics.pending(),
        final(s).metrics.pending().len() == 0,
        final(s).metrics.totals == old(s).metrics.totals,
        *final(s) == (AppState { metrics: final(s).metrics, ..*old(s) }),
        d.snapshot@.len() == old(s).registry.agents().len(),
        forall|i: int|
            0 <= i < d.snapshot@.len() ==> (#[trigger] d.snapshot@[i])@ == registry::status_of(
                old(s).registry.agents()[i],
            ),
        d.totals@.len() == d.snapshot@.len(),
        forall|i: int|
            0 <= i < d.totals@.len() ==> (#[trigger] d.totals@[i]) == old(s).metrics.totals_of(
                old(s).registry.agents()[i].agent_id,
            ),
        d.current_slice == (match old(s).coach_state {
            CoachState::Running { current_slice } => current_slice,
            _ => 0,
        }),
        d.total_slices == (match old(s).load_plan {
            Some(p) => p.slices@.len() as u32,
            None => 0,
        }),
{
    let drained = s.metrics.drain_completed();
    let snapshot = s.registry.status_snapshot();
    let mut totals: Vec<AgentTotals> = Vec::new();
    let mut i: usize = 0;
    while i < snapshot.len()
        invariant
            i <= snapshot@.len(),
            totals@.len() == i,
            forall|k: int|
                0 <= k < i ==> (#[trigger] totals@[k]) == s.metrics.totals_of(
                    snapshot@[k].agent_id@,
                ),
        decreases snapshot@.len() - i,
    {
        totals.push(s.metrics.agent_totals(snapshot[i].agent_id.as_str()));
        i = i + 1;
    }
    proof {
        assert forall|k: int| 0 <= k < totals@.len() implies (#[trigger] totals@[k]) == old(
            s,
        ).metrics.totals_of(old(s).registry.agents()[k].agent_id) by {
            assert(snapshot@[k]@ == registry::status_of(old(s).registry.agents()[k]));
        }
    }
    let current_slice: u32 = match s.coach_state.current_slice() {
        Some(n) => n,
        None => 0,
    };
    let total_slices: u32 = match &s.load_plan {
        Some(p) => p.total_slices(),
        None => 0,
    };
    TickData { drained, snapshot, totals, current_slice, total_slices }
}

/// Whether an agent still reports connections.
pub open spec fn draining(snapshot: Seq<AgentStatus>) -> bool {
    exists|i: int| 0 <= i < snapshot.len() && (#[trigger] snapshot[i]).active_connections > 0
}

/// The deadline for closing the record file.
#[derive(Debug, Clone, Copy, PartialEq, Eq, Structural)]
pub struct WriterDeadline {
    /// In milliseconds of a clock that only goes forward; `None` while the run
    /// is not over.
    pub at_ms: Option<u64>,
}

/// Whether to close the record file now.
#[derive(Debug, Clone, Copy, PartialEq, Eq, Structural)]
pub struct CloseDecision {
    pub close: bool,
    /// The deadline has passed although agents are still draining.
    pub forced: bool,
}

impl WriterDeadline {
    /// The deadline after a tick: set when the run is first seen to be over,
    /// cleared when it is not.
    pub open spec fn ticked(self, is_done: bool, now_ms: u64) -> Option<int> {
        if !is_done {
            None
        } else {
            match self.at_ms {
                Some(d) => Some(d as int),
                None => Some(now_ms + WRITER_CLOSE_MS),
            }
        }
    }

    /// Decides at a tick whether to close the record file: once the run is over
    /// and no agent reports connections any more, or the deadline has passed.
    pub fn tick(&mut self, is_done: bool, now_ms: u64, snapshot: &Vec<AgentStatus>) -> (d:
        CloseDecision)
        requires
            now_ms <= u64::MAX - WRITER_CLOSE_MS,
        ensures
            match (old(self).ticked(is_done, now_ms), final(self).at_ms) {
                (Some(a), Some(b)) => a == b,
                (None, None) => true,
                _ => false,
            },
            d.close == (is_done && (!draining(snapshot@) || old(self).ticked(is_done, now_ms)->0
                <= now_ms)),
            d.forced == (d.close && draining(snapshot@)),
    {
        if !is_done {
            self.at_ms = None;
        } else if self.at_ms.is_none() {
            self.at_ms = Some(now_ms + WRITER_CLOSE_MS);
        }
        let mut still: bool = false;
        let mut i: usize = 0;
        while i < snapshot.len()
            invariant
                i <= snapshot@.len(),
                still == exists|k: int|
                    0 <= k < i && (#[trigger] snapshot@[k]).active_connections > 0,
            decreases snapshot@.len() - i,
        {
            if snapshot[i].active_connections > 0 {
                still = true;
            }
            i = i + 1;
        }
        let late: bool = match self.at_ms {
            Some(d) => now_ms >= d,
            None => false,
        };
        let close: bool = is_done && (!still || late);
        CloseDecision { close, forced: close && still }
    }
}

// ── Laws ──────────────────────────────────────────────────────────────────

/// A patch changes neither the number of slices nor their indices.
pub proof fn law_patch_keeps_slice_indices(
    slices: Seq<SliceSpec>,
    from: u32,
    updates: Seq<SliceSpec>,
)
    ensures
        patched(slices, from, updates).len() == slices.len(),
        forall|i: int|
            0 <= i < slices.len() ==> (#[trigger] patched(slices, from, updates)[i]).slice_index
                == slices[i].slice_index,
    decreases updates.len(),
{
    if updates.len() > 0 {
        let before = patched(slices, from, updates.drop_last());
        law_patch_keeps_slice_indices(slices, from, updates.drop_last());
        lemma_find_slice(before, updates.last().slice_index, 0);
    }
}

/// The connections with which a slice is listed last; `None` where it is not
/// listed.
pub open spec fn last_listed(updates: Seq<SliceSpec>, index: u32) -> Option<u32>
    decreases updates.len(),
{
    if updates.len() == 0 {
        None
    } else if updates.last().slice_index == index {
        Some(updates.last().total_connections)
    } else {
        last_listed(updates.drop_last(), index)
    }
}

/// A patch gives a slice of the plan that is listed, and does not lie before the
/// boundary, the connections with which it is listed last. Every other slice is
/// planned as before.
pub proof fn law_patch_takes_effect_from_boundary(
    slices: Seq<SliceSpec>,
    from: u32,
    updates: Seq<SliceSpec>,
    index: u32,
)
    ensures
        planned(patched(slices, from, updates), index) == (if index >= from && planned(
            slices,
            index,
        ) is Some && last_listed(updates, index) is Some {
            last_listed(updates, index)
        } else {
            planned(slices, index)
        }),
    decreases updates.len(),
{
    if updates.len() > 0 {
        let u = updates.last();
        let before = patched(slices, from, updates.drop_last());
        law_patch_takes_effect_from_boundary(slices, from, updates.drop_last(), index);
        lemma_find_slice(before, u.slice_index, 0);
        if find_slice(before, u.slice_index, 0) is Some && u.slice_index >= from {
            let i = find_slice(before, u.slice_index, 0)->0;
            lemma_same_indices(before, before.update(i, u), index, 0);
            lemma_find_slice(before, index, 0);
        }
    }
}

/// After a patch coach and agents plan the same number of connections for every
/// slice from the boundary on, and for every other slice where they did before.
pub proof fn law_patch_reaches_agents(
    slices: Seq<SliceSpec>,
    from: u32,
    updates: Seq<SliceSpec>,
    agent: Seq<TimeSlice>,
    agent_after: Seq<TimeSlice>,
    index: u32,
)
    requires
        index < from ==> gym::load_plan::planned(agent, index) == planned(slices, index),
        gym::load_plan::is_sorted_form(
            gym::load_plan::slices_before(agent, from) + time_slices(
                slices_from(patched(slices, from, updates), from),
            ),
            agent_after,
        ),
    ensures
        gym::load_plan::planned(agent_after, index) == planned(
            patched(slices, from, updates),
            index,
        ),
{
    let coach_after = patched(slices, from, updates);
    let sent = slices_from(coach_after, from);
    law_patch_takes_effect_from_boundary(slices, from, updates, index);
    gym::load_plan::law_update_replaces_from_boundary(
        agent,
        from,
        time_slices(sent),
        agent_after,
        index,
    );
    lemma_time_slices_find(sent, index, 0);
    lemma_find_slice(sent, index, 0);
    lemma_plan_from(coach_after, from, index);
}

/// The slices from a boundary on plan the same from there on.
proof fn lemma_plan_from(slices: Seq<SliceSpec>, from: u32, index: u32)
    ensures
        planned(slices_from(slices, from), index) == (if index < from {
            None
        } else {
            planned(slices, index)
        }),
    decreases slices.len(),
{
    if slices.len() > 0 {
        let front = slices.drop_last();
        lemma_plan_from(front, from, index);
        assert(front.push(slices.last()) =~= slices);
        lemma_push_plan(front, slices.last(), index);
        if slices.last().slice_index >= from {
            lemma_push_plan(slices_from(front, from), slices.last(), index);
        }
    }
}

proof fn lemma_push_plan(front: Seq<SliceSpec>, last: SliceSpec, index: u32)
    ensures
        planned(front.push(last), index) == (match planned(front, index) {
            Some(n) => Some(n),
            None => if last.slice_index == index {
                Some(last.total_connections)
            } else {
                None
            },
        }),
{
    lemma_push_find(front, last, index, 0);
    lemma_find_slice(front, index, 0);
}

proof fn lemma_push_find(front: Seq<SliceSpec>, last: SliceSpec, index: u32, i: int)
    requires
        0 <= i <= front.len(),
    ensures
        find_slice(front.push(last), index, i) == (match find_slice(front, index, i) {
            Some(k) => Some(k),
            None => if last.slice_index == index {
                Some(front.len() as int)
            } else {
                None
            },
        }),
    decreases front.len() - i,
{
    if i < front.len() {
        assert(front.push(last)[i] == front[i]);
        lemma_push_find(front, last, index, i + 1);
    } else {
        assert(front.push(last)[i] == last);
        assert(find_slice(front.push(last), index, i + 1) is None);
    }
}

proof fn lemma_find_slice(slices: Seq<SliceSpec>, index: u32, i: int)
    requires
        0 <= i,
    ensures
        find_slice(slices, index, i) matches Some(k) ==> i <= k < slices.len()
            && slices[k].slice_index == index,
    decreases slices.len() - i,
{
    if i < slices.len() && slices[i].slice_index != index {
        lemma_find_slice(slices, index, i + 1);
    }
}

/// Where a slice stands depends on the indices alone.
proof fn lemma_same_indices(a: Seq<SliceSpec>, b: Seq<SliceSpec>, index: u32, i: int)
    requires
        0 <= i,
        a.len() == b.len(),
        forall|k: int| 0 <= k < a.len() ==> (#[trigger] a[k]).slice_index == b[k].slice_index,
    ensures
        find_slice(a, index, i) == find_slice(b, index, i),
    decreases a.len() - i,
{
    if i < a.len() && a[i].slice_index != index {
        lemma_same_indices(a, b, index, i + 1);
    }
}

/// Slices stand in the same places in the form that agents get.
proof fn lemma_time_slices_find(slices: Seq<SliceSpec>, index: u32, i: int)
    requires
        0 <= i,
    ensures
        gym::load_plan::find_slice(time_slices(slices), index, i) == find_slice(slices, index, i),
    decreases slices.len() - i,
{
    if i < slices.len() && slices[i].slice_index != index {
        lemma_time_slices_find(slices, index, i + 1);
    }
}

/// A slice is found at the first place that has its index, and nowhere only where
/// none has it.
pub proof fn law_slice_is_found(slices: Seq<SliceSpec>, index: u32, i: int)
    requires
        0 <= i <= slices.len(),
    ensures
        match find_slice(slices, index, i) {
            Some(k) => i <= k < slices.len() && slices[k].slice_index == index && forall|j: int|
                i <= j < k ==> (#[trigger] slices[j]).slice_index != index,
            None => forall|j: int|
                i <= j < slices.len() ==> (#[trigger] slices[j]).slice_index != index,
        },
    decreases slices.len() - i,
{
    if i < slices.len() && slices[i].slice_index != index {
        law_slice_is_found(slices, index, i + 1);
    }
}

/// What is planned for a slice after a patch is what the last update with its index
/// says, and none where no update has it.
pub proof fn law_last_update_counts(updates: Seq<SliceSpec>, index: u32)
    ensures
        match last_listed(updates, index) {
            Some(n) => exists|k: int|
                0 <= k < updates.len() && (#[trigger] updates[k]).slice_index == index
                    && updates[k].total_connections == n && forall|j: int|
                    k < j < updates.len() ==> (#[trigger] updates[j]).slice_index != index,
            None => forall|j: int|
                0 <= j < updates.len() ==> (#[trigger] updates[j]).slice_index != index,
        },
    decreases updates.len(),
{
    if updates.len() > 0 {
        let d = updates.drop_last();
        if updates.last().slice_index == index {
            assert(updates[updates.len() - 1].slice_index == index);
        } else {
            law_last_update_counts(d, index);
            match last_listed(updates, index) {
                Some(n) => {
                    let k = choose|k: int|
                        0 <= k < d.len() && (#[trigger] d[k]).slice_index == index
                            && d[k].total_connections == n && forall|j: int|
                            k < j < d.len() ==> (#[trigger] d[j]).slice_index != index;
                    assert(updates[k] == d[k]);
                    assert forall|j: int| k < j < updates.len() implies (
                    #[trigger] updates[j]).slice_index != index by {
                        if j < d.len() {
                            assert(d[j] == updates[j]);
                        }
                    }
                },
                None => {
                    assert forall|j: int| 0 <= j < updates.len() implies (
                    #[trigger] updates[j]).slice_index != index by {
                        if j < d.len() {
                            assert(d[j] == updates[j]);
                        }
                    }
                },
            }
        }
    }
}

/// The slices from a boundary on are those whose index is not before it, in order.
pub proof fn law_slices_from_boundary(
    a: Seq<SliceSpec>,
    b: Seq<SliceSpec>,
    x: SliceSpec,
    from: u32,
)
    ensures
        slices_from(a + b, from) == slices_from(a, from) + slices_from(b, from),
        x.slice_index >= from ==> slices_from(seq![x], from) == seq![x],
        x.slice_index < from ==> slices_from(seq![x], from).len() == 0,
    decreases b.len(),
{
    reveal_with_fuel(slices_from, 2);
    assert(seq![x].drop_last() =~= Seq::<SliceSpec>::empty());
    if b.len() == 0 {
        assert(a + b =~= a);
        assert(slices_from(a, from) + slices_from(b, from) =~= slices_from(a, from));
    } else {
        law_slices_from_boundary(a, b.drop_last(), x, from);
        assert((a + b).drop_last() =~= a + b.drop_last());
        assert(slices_from(a + b, from) =~= slices_from(a, from) + slices_from(b, from));
    }
}

/// Agents are told the index and the connections of every slice, in order.
pub proof fn law_agents_are_told_the_slices(slices: Seq<SliceSpec>, i: int)
    requires
        0 <= i < slices.len(),
    ensures
        time_slices(slices).len() == slices.len(),
        time_slices(slices)[i].slice_index == slices[i].slice_index,
        time_slices(slices)[i].total_connections == slices[i].total_connections,
{
}

/// The plan files in two listings follow each other. A name is that of a plan file
/// where something stands before its extension.
pub proof fn law_plan_files_by_name(
    a: Seq<Seq<char>>,
    b: Seq<Seq<char>>,
    name: Seq<char>,
    stem: Seq<char>,
)
    ensures
        plan_names(a + b) == plan_names(a) + plan_names(b),
        stem.len() > 0 ==> plan_names(seq![stem + ".json"@]) == seq![stem + ".json"@],
        stem.len() > 0 ==> json_stem(stem + ".json"@) == stem,
        plan_names(seq![".json"@]).len() == 0,
        !text::ends_with(name, ".json"@) ==> plan_names(seq![name]).len() == 0 && json_stem(name)
            == name,
    decreases b.len(),
{
    reveal_with_fuel(plan_names, 2);
    reveal_strlit(".json");
    let full = stem + ".json"@;
    assert(seq![full].drop_last() =~= Seq::<Seq<char>>::empty());
    assert(seq![name].drop_last() =~= Seq::<Seq<char>>::empty());
    assert(seq![".json"@].drop_last() =~= Seq::<Seq<char>>::empty());
    text::law_stripping_undoes_joining(full, ".json"@, stem);
    assert(full.take(full.len() - 5) =~= stem);
    if b.len() == 0 {
        assert(a + b =~= a);
        assert(plan_names(a) + plan_names(b) =~= plan_names(a));
    } else {
        law_plan_files_by_name(a, b.drop_last(), name, stem);
        assert((a + b).drop_last() =~= a + b.drop_last());
        assert(plan_names(a + b) =~= plan_names(a) + plan_names(b));
    }
}

/// A sorted listing has all names, and none before a lesser one.
pub proof fn law_plan_files_are_sorted(all: Seq<Seq<char>>, sorted: Seq<Seq<char>>)
    requires
        is_sorted_form(all, sorted),
    ensures
        sorted.len() == all.len(),
        forall|k: int| 0 <= k < all.len() ==> sorted.contains(#[trigger] all[k]),
        forall|i: int, j: int|
            0 <= i < j < sorted.len() ==> order::text_less(
                #[trigger] sorted[i],
                #[trigger] sorted[j],
            ) || sorted[i] == sorted[j],
{
    let p = choose|p: Seq<usize>|
        #[trigger] order::is_text_order(all, p) && sorted == order::permuted(all, p);
    assert forall|k: int| 0 <= k < all.len() implies sorted.contains(#[trigger] all[k]) by {
        order::law_text_order_is_permutation(all, p, k);
        let i = choose|i: int| 0 <= i < p.len() && p[i] == k;
        assert(sorted[i] == all[k]);
    }
    assert forall|i: int, j: int| 0 <= i < j < sorted.len() implies order::text_less(
        #[trigger] sorted[i],
        #[trigger] sorted[j],
    ) || sorted[i] == sorted[j] by {
        assert(order::text_before(all, p[i] as int, p[j] as int));
    }
}

/// A path is the directory and the name, with one slash between them that is there
/// only once.
pub proof fn law_joined_path(dir: Seq<char>, name: Seq<char>)
    ensures
        joined(Seq::<char>::empty(), name) == name,
        joined(dir.push('/'), name) == dir.push('/') + name,
        dir.len() > 0 && dir.last() != '/' ==> joined(dir, name) == dir.push('/') + name,
{
    reveal_strlit("/");
    assert(dir + "/"@ + name =~= dir.push('/') + name);
    assert(Seq::<char>::empty() + name =~= name);
}

/// The deadline of a writer is set at the first tick after the run is over, at later
/// ticks it stays, and a new run takes it away.
pub proof fn law_deadline_is_set_once(w: WriterDeadline, now: u64, later: u64)
    requires
        now <= u64::MAX - WRITER_CLOSE_MS,
    ensures
        w.ticked(false, now) is None,
        w.at_ms is None ==> w.ticked(true, now) == Some(now + WRITER_CLOSE_MS),
        ({
            let set = WriterDeadline { at_ms: Some((now + WRITER_CLOSE_MS) as u64) };
            set.ticked(true, later) == Some(now + WRITER_CLOSE_MS)
        }),
{
}

/// A refused request sends nothing to the agents, and says why.
pub proof fn law_refusal_sends_nothing(r: Reply, status: u16, message: Seq<char>)
    requires
        refuses(r, status, message),
    ensures
        r.status == status,
        r.command is None,
        r.sent == 0,
        r.body matches ReplyBody::Error { message: m } && m@ == message,
        !is_quiet(r) || status == OK,
{
}

/// The last plan file is one of those in the directory, and all others come before
/// it.
pub proof fn law_last_plan_file(all: Seq<Seq<char>>, a: Seq<char>, b: Seq<char>)
    requires
        is_last_of(all, a),
        all.contains(b),
    ensures
        all.contains(a),
        b == a || order::text_less(b, a),
        is_last_of(all, b) ==> a == b,
{
    let i = choose|i: int| 0 <= i < all.len() && all[i] == b;
    let k = choose|k: int| 0 <= k < all.len() && all[k] == a;
    order::lemma_text_total(a, b);
    assert(all[i] == b && all[k] == a);
}

/// A reply without a broadcast is a success that sends no command.
pub proof fn law_quiet_reply(r: Reply)
    ensures
        is_quiet(r) <==> r.status == 200 && r.command is None && r.sent == 0,
{
}

/// A broadcast succeeds, shows the command that was sent and how many channels took
/// it; only agents with an open session are concerned.
pub proof fn law_broadcast_reply(
    r: Reply,
    cmd: CommandView,
    before: Seq<EntryView>,
    after: Seq<EntryView>,
    i: int,
)
    requires
        has_broadcast(r, cmd, before, after),
        0 <= i < before.len(),
    ensures
        r.status == 200,
        r.command is Some,
        (r.command->0)@ == Some(cmd),
        after.len() == before.len(),
        r.sent == registry::reached(before, after),
        !before[i].connected || before[i].channel is None ==> after[i] == before[i],
        after[i].channel is Some ==> after[i].channel == before[i].channel || after[i].channel
            == Some(before[i].channel->0.push(Some(cmd))),
{
    registry::law_broadcast_reaches_sessions(before, after, Some(cmd), r.sent as nat);
    assert(after[i] == after[i]);
}

/// Agents are still draining while one of them has a connection.
pub proof fn law_draining_agents(a: Seq<AgentStatus>, b: Seq<AgentStatus>, x: AgentStatus)
    ensures
        draining(a + b) <==> draining(a) || draining(b),
        draining(seq![x]) <==> x.active_connections != 0,
        !draining(Seq::<AgentStatus>::empty()),
{
    let one = seq![x];
    assert(one[0] == x);
    if draining(a) {
        let i = choose|i: int| 0 <= i < a.len() && (#[trigger] a[i]).active_connections > 0;
        assert((a + b)[i] == a[i]);
    }
    if draining(b) {
        let i = choose|i: int| 0 <= i < b.len() && (#[trigger] b[i]).active_connections > 0;
        assert((a + b)[a.len() + i] == b[i]);
    }
    if draining(a + b) {
        let i = choose|i: int|
            0 <= i < (a + b).len() && (#[trigger] (a + b)[i]).active_connections > 0;
        if i < a.len() {
            assert(a[i].active_connections > 0);
        } else {
            assert(b[i - a.len()].active_connections > 0);
        }
    }
}

/// The plan to start with is one plan file of the directory, the same one whenever
/// the directory is the same.
pub proof fn law_plan_to_start_with(
    dir: Seq<char>,
    names: Seq<Seq<char>>,
    p: Seq<char>,
    q: Seq<char>,
)
    requires
        is_plan_path(dir, names, p),
        is_plan_path(dir, names, q),
    ensures
        p == q,
        exists|name: Seq<char>|
            #[trigger] plan_names(names).contains(name) && p == joined(dir, name),
{
    let a = choose|name: Seq<char>|
        #[trigger] is_last_of(plan_names(names), name) && p == joined(dir, name);
    let b = choose|name: Seq<char>|
        #[trigger] is_last_of(plan_names(names), name) && q == joined(dir, name);
    law_last_plan_file(plan_names(names), a, b);
    assert(plan_names(names).contains(a));
}

/// What concerns the plan or the agents leaves the run, its metrics and its records
/// as they were.
pub proof fn law_run_is_left_alone(a: AppState, b: AppState)
    ensures
        same_but_plan_and_agents(a, b) <==> b == (AppState {
            load_plan: b.load_plan,
            registry: b.registry,
            ..a
        }),
{
}

} // verus!
