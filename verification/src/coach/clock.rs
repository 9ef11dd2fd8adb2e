//! The clock of a test run: it takes the coach from slice to slice and ends the
//! run.
//!
//! At the beginning of a slice every connected agent gets a tick. The clock then
//! waits until all of them have acknowledged it, though not for longer than
//! [`ACK_TIMEOUT_MS`], and after that for the next tick of its timer. When the
//! last slice is over, or when it is asked to stop, it shuts the agents down.
//!
//! The caller waits: for the timer, for acknowledgements, for the request to
//! stop. It reports each of these to [`SliceClock::step`].

use vstd::prelude::*;

use crate::coach::registry;
use crate::coach::registry::EntryView;
use crate::coach::state::{AppState, CoachState};
use crate::proto::{
    utc_now_ms, CoachCommand, CommandPayload, CommandView, ShutdownCmd, SliceTick,
};
use crate::text;

verus! {

/// How long the clock waits for the acknowledgements of a slice, in
/// milliseconds.
pub const ACK_TIMEOUT_MS: u64 = 5_000;

/// What the clock is waiting for.
#[derive(Debug, Clone, Copy, PartialEq, Eq, Structural)]
pub enum ClockPhase {
    /// For the timer, to begin this slice.
    Tick { next: u32 },
    /// For the acknowledgements of this slice.
    Acks { slice: u32 },
    /// For the timer, to end the last slice.
    LastSlice,
    /// For nothing: the run is over.
    Finished,
}

/// What can happen while the clock is waiting.
#[derive(Debug, Clone, Copy, PartialEq, Eq, Structural)]
pub enum ClockEvent {
    /// The clock was asked to stop.
    Stop,
    /// The timer has ticked.
    Tick,
    /// An agent has acknowledged a slice.
    Ack,
    /// The time for acknowledgements is over.
    AckTimeout,
}

/// The clock of one test run.
#[derive(Debug, Clone, Copy, PartialEq, Eq, Structural)]
pub struct SliceClock {
    /// Period of the timer.
    pub slice_duration_ms: u64,
    pub total_slices: u32,
    pub phase: ClockPhase,
}

/// What a step of the clock did.
#[derive(Debug)]
pub struct ClockStep {
    /// The command that was put into the channels of the agents.
    pub command: Option<CoachCommand>,
    /// How many channels took the command.
    pub sent: usize,
    /// The agents that have not acknowledged the slice in time.
    pub lagging: Vec<String>,
}

/// The phase after slice `slice` was acknowledged.
pub open spec fn following(total: u32, slice: u32) -> ClockPhase {
    if slice + 1 < total {
        ClockPhase::Tick { next: (slice + 1) as u32 }
    } else {
        ClockPhase::LastSlice
    }
}

/// The phase that the clock starts in.
pub open spec fn first_phase(total: u32) -> ClockPhase {
    if total > 0 {
        ClockPhase::Tick { next: 0 }
    } else {
        ClockPhase::LastSlice
    }
}

/// The phase after an event. `acked` says whether all connected agents have
/// acknowledged the slice that the phase is about.
pub open spec fn next_phase(
    total: u32,
    phase: ClockPhase,
    event: ClockEvent,
    acked: bool,
) -> ClockPhase {
    match (phase, event) {
        (ClockPhase::Finished, _) => ClockPhase::Finished,
        (_, ClockEvent::Stop) => ClockPhase::Finished,
        (ClockPhase::Tick { next }, ClockEvent::Tick) => if acked {
            following(total, next)
        } else {
            ClockPhase::Acks { slice: next }
        },
        (ClockPhase::Acks { slice }, ClockEvent::Ack) => if acked {
            following(total, slice)
        } else {
            phase
        },
        (ClockPhase::Acks { slice }, ClockEvent::AckTimeout) => following(total, slice),
        (ClockPhase::LastSlice, ClockEvent::Tick) => ClockPhase::Finished,
        _ => phase,
    }
}

/// The slice that a phase is about.
pub open spec fn slice_of(phase: ClockPhase) -> u32 {
    match phase {
        ClockPhase::Tick { next } => next,
        ClockPhase::Acks { slice } => slice,
        _ => 0,
    }
}

/// The command that an event makes the clock send.
pub open spec fn command_for(phase: ClockPhase, event: ClockEvent, now_ms: i64) -> Option<
    CommandView,
> {
    match (phase, event) {
        (ClockPhase::Finished, _) => None,
        (ClockPhase::Tick { .. }, ClockEvent::Stop) => Some(
            CommandView::Shutdown(true, "POST /stop"@),
        ),
        (ClockPhase::Acks { .. }, ClockEvent::Stop) => Some(
            CommandView::Shutdown(true, "stop during ack wait"@),
        ),
        (ClockPhase::LastSlice, ClockEvent::Stop) => Some(
            CommandView::Shutdown(true, "POST /stop during last slice"@),
        ),
        (ClockPhase::Tick { next }, ClockEvent::Tick) => Some(
            CommandView::SliceTick(SliceTick { slice_index: next, wall_clock_ms: now_ms }),
        ),
        (ClockPhase::LastSlice, ClockEvent::Tick) => Some(
            CommandView::Shutdown(true, "test complete"@),
        ),
        _ => None,
    }
}

/// The state of the coach after an event.
pub open spec fn coach_state_after(s: CoachState, phase: ClockPhase, event: ClockEvent) -> CoachState {
    match (phase, event) {
        (ClockPhase::Finished, _) => s,
        (_, ClockEvent::Stop) => CoachState::Done,
        (ClockPhase::Tick { next }, ClockEvent::Tick) => CoachState::Running {
            current_slice: next,
        },
        (ClockPhase::LastSlice, ClockEvent::Tick) => CoachState::Done,
        _ => s,
    }
}

/// The ids of the connected agents that are behind a slice.
pub open spec fn lagging_ids(v: Seq<EntryView>, slice: u32) -> Seq<Seq<char>>
    decreases v.len(),
{
    if v.len() == 0 {
        Seq::empty()
    } else if v.last().connected && v.last().current_slice < slice {
        lagging_ids(v.drop_last(), slice).push(v.last().agent_id)
    } else {
        lagging_ids(v.drop_last(), slice)
    }
}

fn shutdown(reason: &str) -> (c: CoachCommand)
    ensures
        c@ == Some(CommandView::Shutdown(true, reason@)),
{
    CoachCommand {
        payload: Some(
            CommandPayload::Shutdown(
                ShutdownCmd { graceful: true, reason: text::copy_str(reason) },
            ),
        ),
    }
}

/// The ids of the connected agents that are behind a slice.
pub fn lagging(s: &AppState, slice_index: u32) -> (out: Vec<String>)
    ensures
        text::texts(out@) == lagging_ids(s.registry.agents(), slice_index),
{
    let ghost all = s.registry.agents();
    let entries = &s.registry.entries;
    let mut out: Vec<String> = Vec::new();
    let mut i: usize = 0;
    assert(all.take(0) =~= Seq::<EntryView>::empty());
    assert(text::texts(out@) =~= lagging_ids(all.take(0), slice_index));
    while i < entries.len()
        invariant
            i <= entries@.len(),
            all == registry::entry_views(entries@),
            text::texts(out@) == lagging_ids(all.take(i as int), slice_index),
        decreases entries@.len() - i,
    {
        let e = &entries[i];
        proof {
            assert(all.take(i + 1).last() == e@);
            assert(all.take(i + 1).drop_last() =~= all.take(i as int));
        }
        if e.connected && e.current_slice < slice_index {
            let id = text::copy_str(e.agent_id.as_str());
            proof {
                text::lemma_texts_push(out@, id);
            }
            out.push(id);
        }
        i = i + 1;
    }
    assert(all.take(i as int) =~= all);
    out
}

fn next_after(total: u32, slice: u32) -> (p: ClockPhase)
    ensures
        p == following(total, slice),
{
    if slice < u32::MAX && slice + 1 < total {
        ClockPhase::Tick { next: slice + 1 }
    } else {
        ClockPhase::LastSlice
    }
}

impl SliceClock {
    /// A clock for the plan of the coach. Without a plan there is none, and the
    /// run is over.
    pub fn new(s: &mut AppState) -> (r: Option<SliceClock>)
        ensures
            match old(s).load_plan {
                Some(plan) => {
                    &&& *final(s) == *old(s)
                    &&& r == Some(
                        SliceClock {
                            slice_duration_ms: plan.slice_duration_ms,
                            total_slices: plan.slices@.len() as u32,
                            phase: first_phase(plan.slices@.len() as u32),
                        },
                    )
                },
                None => r is None && *final(s) == (AppState {
                    coach_state: CoachState::Done,
                    ..*old(s)
                }),
            },
    {
        match &s.load_plan {
            Some(plan) => {
                let total_slices: u32 = plan.total_slices();
                Some(
                    SliceClock {
                        slice_duration_ms: plan.slice_duration_ms,
                        total_slices,
                        phase: if total_slices > 0 {
                            ClockPhase::Tick { next: 0 }
                        } else {
                            ClockPhase::LastSlice
                        },
                    },
                )
            },
            None => {
                s.coach_state = CoachState::Done;
                None
            },
        }
    }

    /// Takes in an event at the time `now_ms`.
    pub fn step_at(&mut self, s: &mut AppState, event: ClockEvent, now_ms: i64) -> (step: ClockStep)
        requires
            old(s).wf(),
        ensures
            final(s).wf(),
            *final(self) == (SliceClock {
                phase: next_phase(
                    old(self).total_slices,
                    old(self).phase,
                    event,
                    final(s).registry.acked(slice_of(old(self).phase)),
                ),
                ..*old(self)
            }),
            *final(s) == (AppState {
                coach_state: coach_state_after(old(s).coach_state, old(self).phase, event),
                registry: final(s).registry,
                ..*old(s)
            }),
            match command_for(old(self).phase, event, now_ms) {
                Some(cmd) => {
                    &&& step.command matches Some(c) && c@ == Some(cmd)
                    &&& registry::is_after_broadcast(
                        old(s).registry.agents(),
                        final(s).registry.agents(),
                        Some(cmd),
                        step.sent as nat,
                    )
                },
                None => {
                    &&& step.command is None
                    &&& step.sent == 0
                    &&& final(s).registry == old(s).registry
                },
            },
            text::texts(step.lagging@) == (match (old(self).phase, event) {
                (ClockPhase::Acks { slice }, ClockEvent::AckTimeout) => lagging_ids(
                    old(s).registry.agents(),
                    slice,
                ),
                _ => Seq::empty(),
            }),
    {
        let mut late: Vec<String> = Vec::new();
        assert(text::texts(late@) =~= Seq::empty());
        let cmd: Option<CoachCommand> = match (self.phase, event) {
            (ClockPhase::Finished, _) => None,
            (ClockPhase::Tick { .. }, ClockEvent::Stop) => Some(shutdown("POST /stop")),
            (ClockPhase::Acks { .. }, ClockEvent::Stop) => Some(shutdown("stop during ack wait")),
            (ClockPhase::LastSlice, ClockEvent::Stop) => Some(
                shutdown("POST /stop during last slice"),
            ),
            (ClockPhase::Tick { next }, ClockEvent::Tick) => Some(
                CoachCommand {
                    payload: Some(
                        CommandPayload::SliceTick(
                            SliceTick { slice_index: next, wall_clock_ms: now_ms },
                        ),
                    ),
                },
            ),
            (ClockPhase::LastSlice, ClockEvent::Tick) => Some(shutdown("test complete")),
            _ => None,
        };
        let sent: usize = match &cmd {
            Some(c) => s.registry.broadcast(c),
            None => 0,
        };
        match (self.phase, event) {
            (ClockPhase::Finished, _) => {},
            (_, ClockEvent::Stop) => {
                s.coach_state = CoachState::Done;
                self.phase = ClockPhase::Finished;
            },
            (ClockPhase::Tick { next }, ClockEvent::Tick) => {
                s.coach_state = CoachState::Running { current_slice: next };
                self.phase =
                if s.registry.all_acked(next) {
                    next_after(self.total_slices, next)
                } else {
                    ClockPhase::Acks { slice: next }
                };
            },
            (ClockPhase::Acks { slice }, ClockEvent::Ack) => {
                if s.registry.all_acked(slice) {
                    self.phase = next_after(self.total_slices, slice);
                }
            },
            (ClockPhase::Acks { slice }, ClockEvent::AckTimeout) => {
                late = lagging(s, slice);
                self.phase = next_after(self.total_slices, slice);
            },
            (ClockPhase::LastSlice, ClockEvent::Tick) => {
                s.coach_state = CoachState::Done;
                self.phase = ClockPhase::Finished;
            },
            _ => {},
        }
        ClockStep { command: cmd, sent, lagging: late }
    }

    /// Takes in an event now. The time that a tick carries is read from the
    /// system clock; everything else is as in [`SliceClock::step_at`].
    pub fn step(&mut self, s: &mut AppState, event: ClockEvent) -> (step: ClockStep)
        requires
            old(s).wf(),
        ensures
            final(s).wf(),
            *final(self) == (SliceClock {
                phase: next_phase(
                    old(self).total_slices,
                    old(self).phase,
                    event,
                    final(s).registry.acked(slice_of(old(self).phase)),
                ),
                ..*old(self)
            }),
            *final(s) == (AppState {
                coach_state: coach_state_after(old(s).coach_state, old(self).phase, event),
                registry: final(s).registry,
                ..*old(s)
            }),
            exists|now_ms: i64|
                match #[trigger] command_for(old(self).phase, event, now_ms) {
                    Some(cmd) => {
                        &&& step.command matches Some(c) && c@ == Some(cmd)
                        &&& registry::is_after_broadcast(
                            old(s).registry.agents(),
                            final(s).registry.agents(),
                            Some(cmd),
                            step.sent as nat,
                        )
                    },
                    None => {
                        &&& step.command is None
                        &&& step.sent == 0
                        &&& final(s).registry == old(s).registry
                    },
                },
            text::texts(step.lagging@) == (match (old(self).phase, event) {
                (ClockPhase::Acks { slice }, ClockEvent::AckTimeout) => lagging_ids(
                    old(s).registry.agents(),
                    slice,
                ),
                _ => Seq::empty(),
            }),
    {
        let now_ms: i64 = utc_now_ms();
        self.step_at(s, event, now_ms)
    }
}

// ── Laws ──────────────────────────────────────────────────────────────────

/// The phase after a run of events, each with what was acknowledged then.
pub open spec fn phase_after(total: u32, events: Seq<(ClockEvent, bool)>) -> ClockPhase
    decreases events.len(),
{
    if events.len() == 0 {
        first_phase(total)
    } else {
        next_phase(
            total,
            phase_after(total, events.drop_last()),
            events.last().0,
            events.last().1,
        )
    }
}

/// The slices that the clock has begun after a run of events.
pub open spec fn begun(total: u32, events: Seq<(ClockEvent, bool)>) -> Seq<u32>
    decreases events.len(),
{
    if events.len() == 0 {
        Seq::empty()
    } else {
        let front = begun(total, events.drop_last());
        match (phase_after(total, events.drop_last()), events.last().0) {
            (ClockPhase::Tick { next }, ClockEvent::Tick) => front.push(next),
            _ => front,
        }
    }
}

/// Whether nobody asked the clock to stop.
pub open spec fn undisturbed(events: Seq<(ClockEvent, bool)>) -> bool {
    forall|i: int| 0 <= i < events.len() ==> (#[trigger] events[i]).0 != ClockEvent::Stop
}

/// Whatever happens, the slices begin in the order 0, 1, 2, … without gaps or
/// repetitions; and where nobody asked to stop, the run is over only after all
/// slices of the plan have begun.
pub proof fn law_slices_begin_in_order(total: u32, events: Seq<(ClockEvent, bool)>)
    ensures
        begun(total, events).len() <= total,
        forall|i: int| 0 <= i < begun(total, events).len() ==> #[trigger] begun(total, events)[i] == i,
        undisturbed(events) && phase_after(total, events) is Finished ==> begun(total, events).len()
            == total,
        match phase_after(total, events) {
            ClockPhase::Tick { next } => begun(total, events).len() == next && next < total,
            ClockPhase::Acks { slice } => begun(total, events).len() == slice + 1 && slice < total,
            ClockPhase::LastSlice => begun(total, events).len() == total,
            ClockPhase::Finished => true,
        },
    decreases events.len(),
{
    if events.len() > 0 {
        let front = events.drop_last();
        law_slices_begin_in_order(total, front);
        if undisturbed(events) {
            assert forall|i: int| 0 <= i < front.len() implies (#[trigger] front[i]).0
                != ClockEvent::Stop by {
                assert(front[i] == events[i]);
            }
            assert(events[events.len() - 1].0 != ClockEvent::Stop);
        }
    }
}

/// How many ticks of the timer and timeouts are left at most.
pub open spec fn steps_left(total: u32, phase: ClockPhase) -> int {
    match phase {
        ClockPhase::Tick { next } => 2 * (total - next) + 1,
        ClockPhase::Acks { slice } => 2 * (total - slice),
        ClockPhase::LastSlice => 1,
        ClockPhase::Finished => 0,
    }
}

/// Agents that never acknowledge cannot stall the clock: in every phase before
/// the end there is an event of the timers that brings it closer to the end, and
/// no event takes it further away. A request to stop ends the run at once.
pub proof fn law_clock_makes_progress(total: u32, phase: ClockPhase, event: ClockEvent, acked: bool)
    requires
        match phase {
            ClockPhase::Tick { next } => next < total,
            ClockPhase::Acks { slice } => slice < total,
            _ => true,
        },
    ensures
        next_phase(total, phase, ClockEvent::Stop, acked) is Finished,
        steps_left(total, next_phase(total, phase, event, acked)) <= steps_left(total, phase),
        0 <= steps_left(total, next_phase(total, phase, event, acked)),
        phase is Tick || phase is LastSlice ==> steps_left(
            total,
            next_phase(total, phase, ClockEvent::Tick, acked),
        ) < steps_left(total, phase),
        phase is Acks ==> steps_left(total, next_phase(total, phase, ClockEvent::AckTimeout, acked))
            < steps_left(total, phase),
{
}

/// Acknowledgements of all agents end the wait for a slice at once, and so does the
/// timeout; a single acknowledgement does not while others are missing. After the
/// wait comes the next slice, or the last one runs out.
pub proof fn law_acknowledgements_end_the_wait(total: u32, slice: u32, acked: bool)
    requires
        slice < total,
    ensures
        ({
            let waits = ClockPhase::Acks { slice };
            let after = if slice + 1 == total {
                ClockPhase::LastSlice
            } else {
                ClockPhase::Tick { next: (slice + 1) as u32 }
            };
            &&& next_phase(total, waits, ClockEvent::Ack, true) == after
            &&& next_phase(total, waits, ClockEvent::Ack, false) == waits
            &&& next_phase(total, waits, ClockEvent::AckTimeout, acked) == after
            &&& next_phase(total, waits, ClockEvent::Tick, acked) == waits
            &&& next_phase(total, ClockPhase::Tick { next: slice }, ClockEvent::Tick, true) == after
            &&& next_phase(total, ClockPhase::Tick { next: slice }, ClockEvent::Tick, false)
                == waits
        }),
{
}

/// Only the timer begins a slice and ends the last one, and only a request to stop
/// ends the run earlier; a run that is over stays over.
pub proof fn law_only_timer_and_stop_move_the_clock(total: u32, next: u32, event: ClockEvent, acked: bool)
    requires
        event is Ack || event is AckTimeout,
    ensures
        next_phase(total, ClockPhase::Tick { next }, event, acked) == (ClockPhase::Tick { next }),
        next_phase(total, ClockPhase::LastSlice, event, acked) is LastSlice,
        next_phase(total, ClockPhase::LastSlice, ClockEvent::Tick, acked) is Finished,
        next_phase(total, ClockPhase::Finished, event, acked) is Finished,
        next_phase(total, ClockPhase::Finished, ClockEvent::Tick, acked) is Finished,
        next_phase(total, ClockPhase::Finished, ClockEvent::Stop, acked) is Finished,
{
}

/// The agents hear of every slice that begins and of the end of the run, and of
/// nothing else: a slice is announced with its index when its timer ticks, and the
/// end with a graceful shutdown. The coach is done exactly from then on.
pub proof fn law_agents_hear_what_happens(
    total: u32,
    phase: ClockPhase,
    event: ClockEvent,
    acked: bool,
    now_ms: i64,
    s: CoachState,
)
    ensures
        ({
            let cmd = command_for(phase, event, now_ms);
            let ends = !(phase is Finished) && next_phase(total, phase, event, acked) is Finished;
            let begins = phase is Tick && event is Tick;
            &&& begins ==> cmd == Some(
                CommandView::SliceTick(
                    SliceTick { slice_index: phase->next, wall_clock_ms: now_ms },
                ),
            )
            &&& ends ==> (cmd matches Some(CommandView::Shutdown(graceful, _)) && graceful)
            &&& !begins && !ends ==> cmd is None
            &&& ends ==> coach_state_after(s, phase, event) is Done
            &&& begins ==> coach_state_after(s, phase, event) == (CoachState::Running {
                current_slice: phase->next,
            })
            &&& !begins && !ends ==> coach_state_after(s, phase, event) == s
        }),
{
}

/// The agents that lag behind are the connected ones whose last slice lies before
/// this one; those of two lists come one list after the other.
pub proof fn law_lagging_agents(a: Seq<EntryView>, b: Seq<EntryView>, x: EntryView, slice: u32)
    ensures
        lagging_ids(a + b, slice) == lagging_ids(a, slice) + lagging_ids(b, slice),
        lagging_ids(seq![x], slice) == (if x.connected && x.current_slice < slice {
            seq![x.agent_id]
        } else {
            Seq::empty()
        }),
    decreases b.len(),
{
    reveal_with_fuel(lagging_ids, 2);
    assert(lagging_ids(seq![x], slice) =~= (if x.connected && x.current_slice < slice {
        seq![x.agent_id]
    } else {
        Seq::empty()
    }));
    if b.len() == 0 {
        assert(a + b =~= a);
        assert(lagging_ids(a, slice) + lagging_ids(b, slice) =~= lagging_ids(a, slice));
    } else {
        law_lagging_agents(a, b.drop_last(), x, slice);
        assert((a + b).drop_last() =~= a + b.drop_last());
        assert(lagging_ids(a + b, slice) =~= lagging_ids(a, slice) + lagging_ids(b, slice));
    }
}

} // verus!
