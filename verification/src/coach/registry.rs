//! The agents that have registered, with the channel of their session.

use tokio::sync::mpsc::error::TrySendError;
use tokio::sync::mpsc::{Receiver, Sender};

use vstd::prelude::*;

use crate::proto::{CoachCommand, CommandView};
use crate::text;

verus! {

// ── Command channels ──────────────────────────────────────────────────────

/// The sending half of a channel, `tokio::sync::mpsc::Sender`.
#[verifier::external_type_specification]
#[verifier::external_body]
#[verifier::reject_recursive_types(T)]
pub struct ExSender<T>(tokio::sync::mpsc::Sender<T>);

/// The receiving half of a channel, `tokio::sync::mpsc::Receiver`.
#[verifier::external_type_specification]
#[verifier::external_body]
#[verifier::reject_recursive_types(T)]
pub struct ExReceiver<T>(tokio::sync::mpsc::Receiver<T>);

/// How many commands a channel can hold.
pub const CMD_CHANNEL_CAPACITY: usize = 64;

/// How many commands the channel of a sender was made to hold.
pub uninterp spec fn capacity(tx: Sender<CoachCommand>) -> nat;

/// The commands that were put into a channel through a sender, the first one
/// first, whether or not they have been received since.
pub uninterp spec fn handed_over(tx: Sender<CoachCommand>) -> Seq<Option<CommandView>>;

/// `tokio::sync::mpsc::channel`: a new channel that holds `n` commands, and
/// nothing was put into it. It panics for 0 and for more than
/// `Semaphore::MAX_PERMITS`, which is more than any `u16`.
#[verifier::external_body]
fn channel(n: usize) -> (r: (Sender<CoachCommand>, Receiver<CoachCommand>))
    requires
        0 < n <= u16::MAX,
    ensures
        capacity(r.0) == n,
        handed_over(r.0).len() == 0,
{
    tokio::sync::mpsc::channel(n)
}

/// What became of a command that was put into a channel.
#[derive(Debug, Clone, Copy, PartialEq, Eq, Structural)]
pub enum SendOutcome {
    Sent,
    /// The channel is full: the agent lags behind.
    Full,
    /// The receiving half is gone.
    Closed,
}

/// `Sender::try_send`: puts a command into a channel without waiting.
///
/// Which outcome it has is left open: that depends on the receiving side. Only a
/// command that was sent is in the channel.
#[verifier::external_body]
fn try_send(tx: &mut Sender<CoachCommand>, cmd: CoachCommand) -> (outcome: SendOutcome)
    ensures
        capacity(*final(tx)) == capacity(*old(tx)),
        outcome is Sent ==> handed_over(*final(tx)) == handed_over(*old(tx)).push(cmd@),
        !(outcome is Sent) ==> handed_over(*final(tx)) == handed_over(*old(tx)),
{
    match tx.try_send(cmd) {
        Ok(()) => SendOutcome::Sent,
        Err(TrySendError::Full(_)) => SendOutcome::Full,
        Err(TrySendError::Closed(_)) => SendOutcome::Closed,
    }
}

// ── Entries ───────────────────────────────────────────────────────────────

/// All that is known of one agent.
#[derive(Debug)]
pub struct AgentEntry {
    pub agent_id: String,
    /// Assigned at registration, from 0.
    pub agent_index: u32,
    pub private_ip: String,
    pub instance_id: String,
    /// The slice that the agent last acknowledged.
    pub current_slice: u32,
    pub active_connections: u32,
    /// Whether the agent has acknowledged the plan since the last confirm.
    pub plan_acked: bool,
    /// Whether the agent has an open session.
    pub connected: bool,
    /// Counts the sessions of the agent.
    pub session_gen: u64,
    /// The channel of the open session.
    pub cmd_tx: Option<Sender<CoachCommand>>,
}

/// An entry with its texts; of the channel what was put into it.
pub struct EntryView {
    pub agent_id: Seq<char>,
    pub agent_index: u32,
    pub private_ip: Seq<char>,
    pub instance_id: Seq<char>,
    pub current_slice: u32,
    pub active_connections: u32,
    pub plan_acked: bool,
    pub connected: bool,
    pub session_gen: u64,
    pub channel: Option<Seq<Option<CommandView>>>,
}

impl View for AgentEntry {
    type V = EntryView;

    open spec fn view(&self) -> EntryView {
        EntryView {
            agent_id: self.agent_id@,
            agent_index: self.agent_index,
            private_ip: self.private_ip@,
            instance_id: self.instance_id@,
            current_slice: self.current_slice,
            active_connections: self.active_connections,
            plan_acked: self.plan_acked,
            connected: self.connected,
            session_gen: self.session_gen,
            channel: match self.cmd_tx {
                Some(tx) => Some(handed_over(tx)),
                None => None,
            },
        }
    }
}

impl EntryView {
    /// An agent that has just registered for the first time.
    pub open spec fn fresh(
        id: Seq<char>,
        index: u32,
        private_ip: Seq<char>,
        instance_id: Seq<char>,
    ) -> EntryView {
        EntryView {
            agent_id: id,
            agent_index: index,
            private_ip,
            instance_id,
            current_slice: 0,
            active_connections: 0,
            plan_acked: false,
            connected: false,
            session_gen: 0,
            channel: None,
        }
    }

    /// The entry of an agent that registers again.
    pub open spec fn again(self, private_ip: Seq<char>, instance_id: Seq<char>) -> EntryView {
        EntryView {
            private_ip,
            instance_id,
            current_slice: 0,
            active_connections: 0,
            plan_acked: false,
            channel: None,
            ..self
        }
    }

    /// The entry of an agent that opens a session with a channel that holds
    /// these commands.
    pub open spec fn opened(self, commands: Seq<Option<CommandView>>) -> EntryView {
        EntryView {
            session_gen: (self.session_gen + 1) as u64,
            channel: Some(commands),
            connected: true,
            current_slice: 0,
            active_connections: 0,
            ..self
        }
    }

    /// The entry of an agent whose session is over.
    pub open spec fn closed(self) -> EntryView {
        EntryView { connected: false, channel: None, ..self }
    }

    /// The entry with one more command in the channel.
    pub open spec fn sent(self, cmd: Option<CommandView>) -> EntryView {
        match self.channel {
            Some(commands) => EntryView { channel: Some(commands.push(cmd)), ..self },
            None => self,
        }
    }
}

/// The state of one agent as others see it.
#[derive(Debug)]
pub struct AgentStatus {
    pub agent_id: String,
    pub agent_index: u32,
    pub private_ip: String,
    pub instance_id: String,
    pub current_slice: u32,
    pub active_connections: u32,
    pub connected: bool,
    pub plan_acked: bool,
}

/// A status with its texts.
pub struct StatusView {
    pub agent_id: Seq<char>,
    pub agent_index: u32,
    pub private_ip: Seq<char>,
    pub instance_id: Seq<char>,
    pub current_slice: u32,
    pub active_connections: u32,
    pub connected: bool,
    pub plan_acked: bool,
}

impl View for AgentStatus {
    type V = StatusView;

    open spec fn view(&self) -> StatusView {
        StatusView {
            agent_id: self.agent_id@,
            agent_index: self.agent_index,
            private_ip: self.private_ip@,
            instance_id: self.instance_id@,
            current_slice: self.current_slice,
            active_connections: self.active_connections,
            connected: self.connected,
            plan_acked: self.plan_acked,
        }
    }
}

/// The status of an entry.
pub open spec fn status_of(e: EntryView) -> StatusView {
    StatusView {
        agent_id: e.agent_id,
        agent_index: e.agent_index,
        private_ip: e.private_ip,
        instance_id: e.instance_id,
        current_slice: e.current_slice,
        active_connections: e.active_connections,
        connected: e.connected,
        plan_acked: e.plan_acked,
    }
}

impl AgentStatus {
    /// The status of an entry.
    pub fn from_entry(e: &AgentEntry) -> (s: AgentStatus)
        ensures
            s@ == status_of(e@),
    {
        AgentStatus {
            agent_id: text::copy_str(e.agent_id.as_str()),
            agent_index: e.agent_index,
            private_ip: text::copy_str(e.private_ip.as_str()),
            instance_id: text::copy_str(e.instance_id.as_str()),
            current_slice: e.current_slice,
            active_connections: e.active_connections,
            connected: e.connected,
            plan_acked: e.plan_acked,
        }
    }
}

// ── Registry ──────────────────────────────────────────────────────────────

/// Why an agent that has an open session is not registered, in words.
pub open spec fn connected_text(id: Seq<char>) -> Seq<char> {
    "agent "@ + text::debug_text(id) + " is already registered and connected"@
}

/// All agents that have registered, in the order of their indices.
#[derive(Debug)]
pub struct Registry {
    pub entries: Vec<AgentEntry>,
    /// The index of the next new agent.
    pub next_index: u32,
}

/// The views of a list of entries.
pub open spec fn entry_views(v: Seq<AgentEntry>) -> Seq<EntryView> {
    Seq::new(v.len(), |i: int| v[i]@)
}

/// The first position of an agent at or after `i`.
pub open spec fn find_agent(v: Seq<EntryView>, id: Seq<char>, i: int) -> Option<int>
    decreases v.len() - i,
{
    if i < 0 || i >= v.len() {
        None
    } else if v[i].agent_id == id {
        Some(i)
    } else {
        find_agent(v, id, i + 1)
    }
}

/// The position of an agent.
pub open spec fn agent_at(v: Seq<EntryView>, id: Seq<char>) -> Option<int> {
    find_agent(v, id, 0)
}

/// The entries with that of one agent changed; an unknown agent changes
/// nothing.
pub open spec fn changed(v: Seq<EntryView>, id: Seq<char>, f: spec_fn(EntryView) -> EntryView) -> Seq<
    EntryView,
> {
    match agent_at(v, id) {
        Some(i) => v.update(i, f(v[i])),
        None => v,
    }
}

/// What `find_agent` returns has the id, and nothing before it has.
pub proof fn lemma_find_agent(v: Seq<EntryView>, id: Seq<char>, i: int)
    requires
        0 <= i,
    ensures
        match find_agent(v, id, i) {
            Some(k) => i <= k < v.len() && v[k].agent_id == id && forall|j: int|
                i <= j < k ==> (#[trigger] v[j]).agent_id != id,
            None => forall|j: int| i <= j < v.len() ==> (#[trigger] v[j]).agent_id != id,
        },
    decreases v.len() - i,
{
    if i < v.len() && v[i].agent_id != id {
        lemma_find_agent(v, id, i + 1);
    }
}

/// The entries with no acknowledgement of the plan.
pub open spec fn without_acks(v: Seq<EntryView>) -> Seq<EntryView> {
    Seq::new(v.len(), |i: int| EntryView { plan_acked: false, ..v[i] })
}

/// How many entries satisfy a condition.
pub open spec fn count(v: Seq<EntryView>, f: spec_fn(EntryView) -> bool) -> nat
    decreases v.len(),
{
    if v.len() == 0 {
        0
    } else {
        count(v.drop_last(), f) + if f(v.last()) {
            1nat
        } else {
            0nat
        }
    }
}

/// The entries after a command was sent, with these outcomes.
pub open spec fn delivered(
    v: Seq<EntryView>,
    cmd: Option<CommandView>,
    outcomes: Seq<Option<SendOutcome>>,
) -> Seq<EntryView> {
    Seq::new(
        v.len(),
        |i: int|
            if outcomes[i] == Some(SendOutcome::Sent) {
                v[i].sent(cmd)
            } else {
                v[i]
            },
    )
}

/// The entries after the outcomes of a broadcast: agents whose channel was
/// found closed are disconnected.
pub open spec fn after_sends(v: Seq<EntryView>, outcomes: Seq<Option<SendOutcome>>) -> Seq<
    EntryView,
> {
    Seq::new(
        v.len(),
        |i: int|
            if outcomes[i] == Some(SendOutcome::Closed) {
                v[i].closed()
            } else {
                v[i]
            },
    )
}

/// How many sends worked.
pub open spec fn sent_count(outcomes: Seq<Option<SendOutcome>>) -> nat
    decreases outcomes.len(),
{
    if outcomes.len() == 0 {
        0
    } else {
        sent_count(outcomes.drop_last()) + if outcomes.last() == Some(SendOutcome::Sent) {
            1nat
        } else {
            0nat
        }
    }
}

/// Whether a command is put into the channel of an agent.
pub open spec fn is_recipient(e: EntryView) -> bool {
    e.connected && e.channel is Some
}

/// Whether `after` can be what the broadcast of a command that reached `sent`
/// agents leaves: it was put into the channel of every recipient or refused
/// there, and those whose channel was closed are disconnected.
pub open spec fn is_after_broadcast(
    before: Seq<EntryView>,
    after: Seq<EntryView>,
    cmd: Option<CommandView>,
    sent: nat,
) -> bool {
    exists|outcomes: Seq<Option<SendOutcome>>|
        #![trigger delivered(before, cmd, outcomes)]
        {
            &&& outcomes.len() == before.len()
            &&& forall|i: int|
                0 <= i < outcomes.len() ==> ((#[trigger] outcomes[i]) is Some <==> is_recipient(
                    before[i],
                ))
            &&& after == after_sends(delivered(before, cmd, outcomes), outcomes)
            &&& sent == sent_count(outcomes)
        }
}

impl Registry {
    /// The entries with their texts.
    pub open spec fn agents(self) -> Seq<EntryView> {
        entry_views(self.entries@)
    }

    /// No id occurs twice, and the index of an agent is its position.
    pub open spec fn wf(self) -> bool {
        &&& self.next_index == self.entries@.len()
        &&& forall|i: int|
            0 <= i < self.agents().len() ==> (#[trigger] self.agents()[i]).agent_index == i
        &&& forall|i: int, j: int|
            0 <= i < j < self.agents().len() ==> (#[trigger] self.agents()[i]).agent_id != (
            #[trigger] self.agents()[j]).agent_id
    }

    /// A registry without agents.
    pub fn new() -> (r: Registry)
        ensures
            r.wf(),
            r.agents().len() == 0,
    {
        Registry { entries: Vec::new(), next_index: 0 }
    }

    fn find(&self, id: &str) -> (r: Option<usize>)
        ensures
            match r {
                Some(i) => i < self.entries@.len() && agent_at(self.agents(), id@) == Some(
                    i as int,
                ),
                None => agent_at(self.agents(), id@) is None,
            },
    {
        let ghost all = self.agents();
        let mut i: usize = 0;
        while i < self.entries.len()
            invariant
                i <= self.entries@.len(),
                all == self.agents(),
                agent_at(all, id@) == find_agent(all, id@, i as int),
            decreases self.entries@.len() - i,
        {
            assert(all[i as int] == self.entries@[i as int]@);
            if text::str_eq(self.entries[i].agent_id.as_str(), id) {
                return Some(i);
            }
            i = i + 1;
        }
        None
    }

    /// Registers an agent and returns its index.
    ///
    /// An agent that is connected is refused. One that is registered but not
    /// connected keeps its index; everything else of its entry starts over,
    /// except the count of its sessions.
    pub fn register(&mut self, agent_id: String, private_ip: String, instance_id: String) -> (r:
        Result<u32, String>)
        requires
            old(self).wf(),
            agent_at(old(self).agents(), agent_id@) is None ==> old(self).next_index < u32::MAX,
        ensures
            final(self).wf(),
            match agent_at(old(self).agents(), agent_id@) {
                Some(i) => if old(self).agents()[i].connected {
                    r matches Err(e) && e@ == connected_text(agent_id@) && final(self).agents()
                        == old(self).agents()
                } else {
                    r == Ok::<u32, String>(old(self).agents()[i].agent_index)
                        && final(self).agents() == old(self).agents().update(
                        i,
                        old(self).agents()[i].again(private_ip@, instance_id@),
                    )
                },
                None => r == Ok::<u32, String>(old(self).next_index)
                    && final(self).agents() == old(self).agents().push(
                    EntryView::fresh(
                        agent_id@,
                        old(self).next_index,
                        private_ip@,
                        instance_id@,
                    ),
                ),
            },
    {
        let ghost before = self.agents();
        match self.find(agent_id.as_str()) {
            Some(i) => {
                proof {
                    lemma_find_agent(before, agent_id@, 0);
                }
                if self.entries[i].connected {
                    let mut e = text::copy_str("agent ");
                    e.push_str(text::quoted(agent_id.as_str()).as_str());
                    e.push_str(" is already registered and connected");
                    return Err(e);
                }
                let old_entry = &self.entries[i];
                let index: u32 = old_entry.agent_index;
                let session_gen: u64 = old_entry.session_gen;
                let entry = AgentEntry {
                    agent_id,
                    agent_index: index,
                    private_ip,
                    instance_id,
                    current_slice: 0,
                    active_connections: 0,
                    plan_acked: false,
                    connected: false,
                    session_gen,
                    cmd_tx: None,
                };
                self.entries.set(i, entry);
                assert(self.agents() =~= before.update(
                    i as int,
                    before[i as int].again(private_ip@, instance_id@),
                ));
                proof {
                    lemma_update_keeps(before, self.agents(), i as int);
                }
                Ok(index)
            },
            None => {
                let index: u32 = self.next_index;
                let ghost fresh = EntryView::fresh(agent_id@, index, private_ip@, instance_id@);
                proof {
                    lemma_find_agent(before, agent_id@, 0);
                }
                let entry = AgentEntry {
                    agent_id,
                    agent_index: index,
                    private_ip,
                    instance_id,
                    current_slice: 0,
                    active_connections: 0,
                    plan_acked: false,
                    connected: false,
                    session_gen: 0,
                    cmd_tx: None,
                };
                self.entries.push(entry);
                self.next_index = index + 1;
                proof {
                    assert(self.agents() =~= before.push(fresh));
                    let after = self.agents();
                    assert forall|i: int| 0 <= i < after.len() implies (
                    #[trigger] after[i]).agent_index == i by {
                        if i < before.len() {
                            assert(after[i] == before[i]);
                        }
                    }
                    assert forall|i: int, j: int| 0 <= i < j < after.len() implies (
                    #[trigger] after[i]).agent_id != (#[trigger] after[j]).agent_id by {
                        assert(after[i] == before[i]);
                        if j < before.len() {
                            assert(after[j] == before[j]);
                        }
                    }
                }
                Ok(index)
            },
        }
    }

    /// Attaches the channel of a new session to an agent and returns the
    /// number of the session; 0 where the agent is not registered.
    pub fn set_session_channel(&mut self, agent_id: &str, tx: Sender<CoachCommand>) -> (gen: u64)
        requires
            old(self).wf(),
            agent_at(old(self).agents(), agent_id@) matches Some(i) ==> old(
                self,
            ).agents()[i].session_gen < u64::MAX,
        ensures
            final(self).wf(),
            final(self).agents() == changed(
                old(self).agents(),
                agent_id@,
                |e: EntryView| e.opened(handed_over(tx)),
            ),
            gen == (match agent_at(old(self).agents(), agent_id@) {
                Some(i) => old(self).agents()[i].session_gen + 1,
                None => 0,
            }),
    {
        let ghost before = self.agents();
        match self.find(agent_id) {
            Some(i) => {
                let gen: u64 = self.entries[i].session_gen + 1;
                let e = &mut self.entries[i];
                e.session_gen = gen;
                e.cmd_tx = Some(tx);
                e.connected = true;
                e.current_slice = 0;
                e.active_connections = 0;
                proof {
                    assert(self.agents() =~= before.update(
                        i as int,
                        before[i as int].opened(handed_over(tx)),
                    ));
                    lemma_update_keeps(before, self.agents(), i as int);
                }
                gen
            },
            None => 0,
        }
    }

    /// Closes the session of an agent, but only if it is session
    /// `session_gen`: what is left of an older session cannot close a newer
    /// one.
    pub fn close_session(&mut self, agent_id: &str, session_gen: u64)
        requires
            old(self).wf(),
        ensures
            final(self).wf(),
            final(self).agents() == changed(
                old(self).agents(),
                agent_id@,
                |e: EntryView|
                    if e.session_gen == session_gen {
                        e.closed()
                    } else {
                        e
                    },
            ),
    {
        let ghost before = self.agents();
        match self.find(agent_id) {
            Some(i) => {
                if self.entries[i].session_gen == session_gen {
                    let e = &mut self.entries[i];
                    e.connected = false;
                    e.cmd_tx = None;
                    proof {
                        assert(self.agents() =~= before.update(
                            i as int,
                            before[i as int].closed(),
                        ));
                        lemma_update_keeps(before, self.agents(), i as int);
                    }
                } else {
                    assert(before.update(i as int, before[i as int]) =~= before);
                }
            },
            None => {},
        }
    }

    /// Disconnects an agent, whatever session it has.
    pub fn deregister(&mut self, agent_id: &str)
        requires
            old(self).wf(),
        ensures
            final(self).wf(),
            final(self).agents() == changed(
                old(self).agents(),
                agent_id@,
                |e: EntryView| e.closed(),
            ),
    {
        let ghost before = self.agents();
        match self.find(agent_id) {
            Some(i) => {
                let e = &mut self.entries[i];
                e.connected = false;
                e.cmd_tx = None;
                proof {
                    assert(self.agents() =~= before.update(i as int, before[i as int].closed()));
                    lemma_update_keeps(before, self.agents(), i as int);
                }
            },
            None => {},
        }
    }

    /// Notes that an agent has acknowledged the plan.
    pub fn ack_plan(&mut self, agent_id: &str)
        requires
            old(self).wf(),
        ensures
            final(self).wf(),
            final(self).agents() == changed(
                old(self).agents(),
                agent_id@,
                |e: EntryView| EntryView { plan_acked: true, ..e },
            ),
    {
        let ghost before = self.agents();
        match self.find(agent_id) {
            Some(i) => {
                let e = &mut self.entries[i];
                e.plan_acked = true;
                proof {
                    assert(self.agents() =~= before.update(
                        i as int,
                        EntryView { plan_acked: true, ..before[i as int] },
                    ));
                    lemma_update_keeps(before, self.agents(), i as int);
                }
            },
            None => {},
        }
    }

    /// Forgets all acknowledgements of the plan.
    pub fn reset_plan_acks(&mut self)
        requires
            old(self).wf(),
        ensures
            final(self).wf(),
            final(self).agents() == without_acks(old(self).agents()),
    {
        let ghost before = self.agents();
        let n: usize = self.entries.len();
        let mut i: usize = 0;
        while i < n
            invariant
                i <= n == self.entries@.len(),
                n == before.len(),
                self.next_index == old(self).next_index,
                forall|k: int|
                    0 <= k < n ==> (#[trigger] self.entries@[k])@ == (if k < i {
                        EntryView { plan_acked: false, ..before[k] }
                    } else {
                        before[k]
                    }),
            decreases n - i,
        {
            let e = &mut self.entries[i];
            e.plan_acked = false;
            i = i + 1;
        }
        proof {
            let after = self.agents();
            assert(after =~= without_acks(before));
            assert forall|a: int, b: int| 0 <= a < b < after.len() implies (
            #[trigger] after[a]).agent_id != (#[trigger] after[b]).agent_id by {
                assert(before[a].agent_id != before[b].agent_id);
            }
            assert forall|a: int| 0 <= a < after.len() implies (#[trigger] after[a]).agent_index
                == a by {
                assert(before[a].agent_index == a);
            }
        }
    }

    /// How many agents have acknowledged the plan since the last confirm.
    pub fn plan_ack_count(&self) -> (n: usize)
        ensures
            n == count(self.agents(), |e: EntryView| e.plan_acked),
    {
        let ghost all = self.agents();
        let ghost f = |e: EntryView| e.plan_acked;
        let mut n: usize = 0;
        let mut i: usize = 0;
        assert(all.take(0) =~= Seq::<EntryView>::empty());
        while i < self.entries.len()
            invariant
                n <= i <= self.entries@.len(),
                all == self.agents(),
                f == (|e: EntryView| e.plan_acked),
                n == count(all.take(i as int), f),
            decreases self.entries@.len() - i,
        {
            proof {
                assert(all.take(i + 1).last() == self.entries@[i as int]@);
                assert(all.take(i + 1).drop_last() =~= all.take(i as int));
            }
            if self.entries[i].plan_acked {
                n = n + 1;
            }
            i = i + 1;
        }
        assert(all.take(i as int) =~= all);
        n
    }

    /// Notes that an agent has acknowledged a slice.
    pub fn update_slice(&mut self, agent_id: &str, slice_index: u32)
        requires
            old(self).wf(),
        ensures
            final(self).wf(),
            final(self).agents() == changed(
                old(self).agents(),
                agent_id@,
                |e: EntryView| EntryView { current_slice: slice_index, ..e },
            ),
    {
        let ghost before = self.agents();
        match self.find(agent_id) {
            Some(i) => {
                let e = &mut self.entries[i];
                e.current_slice = slice_index;
                proof {
                    assert(self.agents() =~= before.update(
                        i as int,
                        EntryView { current_slice: slice_index, ..before[i as int] },
                    ));
                    lemma_update_keeps(before, self.agents(), i as int);
                }
            },
            None => {},
        }
    }

    /// Notes the active connections of an agent.
    pub fn update_active_connections(&mut self, agent_id: &str, count: u32)
        requires
            old(self).wf(),
        ensures
            final(self).wf(),
            final(self).agents() == changed(
                old(self).agents(),
                agent_id@,
                |e: EntryView| EntryView { active_connections: count, ..e },
            ),
    {
        let ghost before = self.agents();
        match self.find(agent_id) {
            Some(i) => {
                let e = &mut self.entries[i];
                e.active_connections = count;
                proof {
                    assert(self.agents() =~= before.update(
                        i as int,
                        EntryView { active_connections: count, ..before[i as int] },
                    ));
                    lemma_update_keeps(before, self.agents(), i as int);
                }
            },
            None => {},
        }
    }

    /// Whether an agent has registered.
    pub fn contains(&self, agent_id: &str) -> (yes: bool)
        ensures
            yes == (agent_at(self.agents(), agent_id@) is Some),
    {
        self.find(agent_id).is_some()
    }

    /// The number of registered agents.
    pub fn len(&self) -> (n: usize)
        ensures
            n == self.agents().len(),
    {
        self.entries.len()
    }

    /// The number of agents with an open session.
    pub fn connected_count(&self) -> (n: usize)
        ensures
            n == count(self.agents(), |e: EntryView| e.connected),
    {
        let ghost all = self.agents();
        let ghost f = |e: EntryView| e.connected;
        let mut n: usize = 0;
        let mut i: usize = 0;
        assert(all.take(0) =~= Seq::<EntryView>::empty());
        while i < self.entries.len()
            invariant
                n <= i <= self.entries@.len(),
                all == self.agents(),
                f == (|e: EntryView| e.connected),
                n == count(all.take(i as int), f),
            decreases self.entries@.len() - i,
        {
            proof {
                assert(all.take(i + 1).last() == self.entries@[i as int]@);
                assert(all.take(i + 1).drop_last() =~= all.take(i as int));
            }
            if self.entries[i].connected {
                n = n + 1;
            }
            i = i + 1;
        }
        assert(all.take(i as int) =~= all);
        n
    }

    /// Whether every connected agent has acknowledged a slice.
    pub open spec fn acked(self, slice_index: u32) -> bool {
        forall|i: int|
            0 <= i < self.agents().len() && (#[trigger] self.agents()[i]).connected
                ==> self.agents()[i].current_slice >= slice_index
    }

    /// Whether every connected agent has acknowledged a slice; agents without
    /// a session do not count.
    pub fn all_acked(&self, slice_index: u32) -> (yes: bool)
        ensures
            yes == self.acked(slice_index),
    {
        let mut i: usize = 0;
        while i < self.entries.len()
            invariant
                i <= self.entries@.len(),
                forall|k: int|
                    0 <= k < i && (#[trigger] self.agents()[k]).connected
                        ==> self.agents()[k].current_slice >= slice_index,
            decreases self.entries@.len() - i,
        {
            assert(self.agents()[i as int] == self.entries@[i as int]@);
            if self.entries[i].connected && self.entries[i].current_slice < slice_index {
                return false;
            }
            i = i + 1;
        }
        true
    }

    /// The status of all agents, in the order of their indices.
    pub fn status_snapshot(&self) -> (out: Vec<AgentStatus>)
        requires
            self.wf(),
        ensures
            out@.len() == self.agents().len(),
            forall|i: int|
                0 <= i < out@.len() ==> (#[trigger] out@[i])@ == status_of(self.agents()[i])
                    && out@[i].agent_index == i,
    {
        let mut out: Vec<AgentStatus> = Vec::new();
        let mut i: usize = 0;
        while i < self.entries.len()
            invariant
                i <= self.entries@.len(),
                self.wf(),
                out@.len() == i,
                forall|k: int|
                    0 <= k < i ==> (#[trigger] out@[k])@ == status_of(self.agents()[k])
                        && out@[k].agent_index == k,
            decreases self.entries@.len() - i,
        {
            let s = AgentStatus::from_entry(&self.entries[i]);
            assert(self.agents()[i as int] == self.entries@[i as int]@);
            assert(s@ == status_of(self.agents()[i as int]));
            out.push(s);
            i = i + 1;
        }
        out
    }

    /// A channel for the commands of a session, with nothing put into it.
    pub fn new_cmd_channel() -> (r: (Sender<CoachCommand>, Receiver<CoachCommand>))
        ensures
            capacity(r.0) == CMD_CHANNEL_CAPACITY,
            handed_over(r.0).len() == 0,
    {
        channel(CMD_CHANNEL_CAPACITY)
    }

    /// Takes in the outcomes of a broadcast, one per agent; `None` where
    /// nothing was sent. Agents whose channel is closed are disconnected.
    /// Returns how many sends worked.
    pub fn apply_sends(&mut self, outcomes: &Vec<Option<SendOutcome>>) -> (sent: usize)
        requires
            old(self).wf(),
            outcomes@.len() == old(self).agents().len(),
        ensures
            final(self).wf(),
            final(self).agents() == after_sends(old(self).agents(), outcomes@),
            sent == sent_count(outcomes@),
    {
        let ghost before = self.agents();
        let n: usize = self.entries.len();
        let mut sent: usize = 0;
        let mut i: usize = 0;
        assert(outcomes@.take(0) =~= Seq::<Option<SendOutcome>>::empty());
        while i < n
            invariant
                sent <= i <= n,
                n == self.entries@.len(),
                n == before.len(),
                n == outcomes@.len(),
                self.next_index == old(self).next_index,
                sent == sent_count(outcomes@.take(i as int)),
                forall|k: int|
                    0 <= k < n ==> (#[trigger] self.entries@[k])@ == (if k < i {
                        after_sends(before, outcomes@)[k]
                    } else {
                        before[k]
                    }),
            decreases n - i,
        {
            proof {
                assert(outcomes@.take(i + 1).last() == outcomes@[i as int]);
                assert(outcomes@.take(i + 1).drop_last() =~= outcomes@.take(i as int));
            }
            match outcomes[i] {
                Some(SendOutcome::Sent) => {
                    sent = sent + 1;
                },
                Some(SendOutcome::Closed) => {
                    let e = &mut self.entries[i];
                    e.connected = false;
                    e.cmd_tx = None;
                },
                _ => {},
            }
            i = i + 1;
        }
        proof {
            let after = self.agents();
            assert(after =~= after_sends(before, outcomes@));
            assert(outcomes@.take(i as int) =~= outcomes@);
            assert forall|a: int, b: int| 0 <= a < b < after.len() implies (
            #[trigger] after[a]).agent_id != (#[trigger] after[b]).agent_id by {
                assert(before[a].agent_id != before[b].agent_id);
            }
            assert forall|a: int| 0 <= a < after.len() implies (#[trigger] after[a]).agent_index
                == a by {
                assert(before[a].agent_index == a);
            }
        }
        sent
    }

    /// Puts a command into the channel of every connected agent and returns how
    /// many sends worked.
    ///
    /// Agents with a full channel are skipped; agents whose channel is closed
    /// are disconnected. Which of these happens is up to the receivers.
    pub fn broadcast(&mut self, cmd: &CoachCommand) -> (sent: usize)
        requires
            old(self).wf(),
        ensures
            final(self).wf(),
            sent <= count(old(self).agents(), |e: EntryView| is_recipient(e)),
            is_after_broadcast(old(self).agents(), final(self).agents(), cmd@, sent as nat),
    {
        let ghost before = self.agents();
        let n: usize = self.entries.len();
        let mut outcomes: Vec<Option<SendOutcome>> = Vec::new();
        let mut i: usize = 0;
        while i < n
            invariant
                i <= n,
                n == self.entries@.len(),
                n == before.len(),
                self.next_index == old(self).next_index,
                outcomes@.len() == i,
                forall|k: int|
                    0 <= k < i ==> ((#[trigger] outcomes@[k]) is Some <==> is_recipient(before[k])),
                forall|k: int|
                    0 <= k < n ==> (#[trigger] self.entries@[k])@ == (if k < i && outcomes@[k]
                        == Some(SendOutcome::Sent) {
                        before[k].sent(cmd@)
                    } else {
                        before[k]
                    }),
            decreases n - i,
        {
            let mut outcome: Option<SendOutcome> = None;
            let e = &mut self.entries[i];
            if e.connected {
                match &mut e.cmd_tx {
                    Some(tx) => {
                        outcome = Some(try_send(tx, cmd.clone()));
                    },
                    None => {},
                }
            }
            outcomes.push(outcome);
            i = i + 1;
        }
        proof {
            let after = self.agents();
            assert(after =~= delivered(before, cmd@, outcomes@));
            assert forall|a: int, b: int| 0 <= a < b < after.len() implies (
            #[trigger] after[a]).agent_id != (#[trigger] after[b]).agent_id by {
                assert(before[a].agent_id != before[b].agent_id);
            }
            assert forall|a: int| 0 <= a < after.len() implies (#[trigger] after[a]).agent_index
                == a by {
                assert(before[a].agent_index == a);
            }
            lemma_sent_bound(before, outcomes@);
        }
        self.apply_sends(&outcomes)
    }
}

/// A change of one entry that keeps its id and index keeps the registry sound.
proof fn lemma_update_keeps(before: Seq<EntryView>, after: Seq<EntryView>, at: int)
    requires
        0 <= at < before.len(),
        after.len() == before.len(),
        forall|k: int| 0 <= k < before.len() && k != at ==> (#[trigger] after[k]) == before[k],
        after[at].agent_id == before[at].agent_id,
        after[at].agent_index == before[at].agent_index,
        forall|i: int| 0 <= i < before.len() ==> (#[trigger] before[i]).agent_index == i,
        forall|i: int, j: int|
            0 <= i < j < before.len() ==> (#[trigger] before[i]).agent_id != (
            #[trigger] before[j]).agent_id,
    ensures
        forall|i: int| 0 <= i < after.len() ==> (#[trigger] after[i]).agent_index == i,
        forall|i: int, j: int|
            0 <= i < j < after.len() ==> (#[trigger] after[i]).agent_id != (
            #[trigger] after[j]).agent_id,
{
    assert forall|i: int| 0 <= i < after.len() implies (#[trigger] after[i]).agent_index == i by {
        assert(before[i].agent_index == i);
    }
    assert forall|i: int, j: int| 0 <= i < j < after.len() implies (#[trigger] after[i]).agent_id
        != (#[trigger] after[j]).agent_id by {
        assert(before[i].agent_id != before[j].agent_id);
    }
}

proof fn lemma_sent_bound(v: Seq<EntryView>, outcomes: Seq<Option<SendOutcome>>)
    requires
        outcomes.len() == v.len(),
        forall|k: int|
            0 <= k < v.len() ==> ((#[trigger] outcomes[k]) is Some <==> is_recipient(v[k])),
    ensures
        sent_count(outcomes) <= count(v, |e: EntryView| is_recipient(e)),
    decreases v.len(),
{
    if v.len() > 0 {
        let d = outcomes.drop_last();
        assert forall|k: int| 0 <= k < v.drop_last().len() implies ((#[trigger] d[k]) is Some
            <==> is_recipient(v.drop_last()[k])) by {
            assert(d[k] == outcomes[k]);
        }
        lemma_sent_bound(v.drop_last(), d);
        assert(outcomes[v.len() - 1] == outcomes.last());
    }
}

// ── Laws ──────────────────────────────────────────────────────────────────

/// Closing an older session leaves the registry as it is.
pub proof fn law_stale_close_is_ignored(v: Seq<EntryView>, id: Seq<char>, gen: u64)
    requires
        agent_at(v, id) matches Some(i) && v[i].session_gen != gen,
    ensures
        changed(
            v,
            id,
            |e: EntryView|
                if e.session_gen == gen {
                    e.closed()
                } else {
                    e
                },
        ) == v,
{
    lemma_find_agent(v, id, 0);
    let i = agent_at(v, id)->0;
    assert(v.update(i, v[i]) =~= v);
}

/// An agent that registers again after its session ended keeps its index, and
/// no other agent is affected.
pub proof fn law_index_survives_reconnect(
    v: Seq<EntryView>,
    id: Seq<char>,
    ip: Seq<char>,
    instance: Seq<char>,
)
    requires
        agent_at(v, id) is Some,
    ensures
        ({
            let i = agent_at(v, id)->0;
            let w = v.update(i, v[i].closed().again(ip, instance));
            &&& w.len() == v.len()
            &&& w[i].agent_index == v[i].agent_index
            &&& agent_at(w, id) == agent_at(v, id)
            &&& forall|k: int| 0 <= k < v.len() && k != i ==> (#[trigger] w[k]) == v[k]
        }),
{
    lemma_find_agent(v, id, 0);
    let i = agent_at(v, id)->0;
    let w = v.update(i, v[i].closed().again(ip, instance));
    lemma_find_agent(w, id, 0);
    let k = agent_at(w, id);
    match k {
        Some(k) => {
            if k < i {
                assert(w[k] == v[k]);
            } else if i < k {
                assert(w[i].agent_id == id);
            }
        },
        None => {
            assert(w[i].agent_id == id);
        },
    }
}

/// An agent is found at the first place that has its id, and nowhere only where no
/// entry has it.
pub proof fn law_agent_is_found(v: Seq<EntryView>, id: Seq<char>)
    ensures
        match agent_at(v, id) {
            Some(i) => 0 <= i < v.len() && v[i].agent_id == id && forall|k: int|
                0 <= k < i ==> (#[trigger] v[k]).agent_id != id,
            None => forall|k: int| 0 <= k < v.len() ==> (#[trigger] v[k]).agent_id != id,
        },
{
    lemma_find_agent(v, id, 0);
}

/// A change concerns one agent only: all entries with another id stay, and where
/// the agent is known its entry is changed.
pub proof fn law_change_concerns_one_agent(
    v: Seq<EntryView>,
    id: Seq<char>,
    f: spec_fn(EntryView) -> EntryView,
)
    ensures
        changed(v, id, f).len() == v.len(),
        forall|k: int|
            0 <= k < v.len() && v[k].agent_id != id ==> #[trigger] changed(v, id, f)[k] == v[k],
        forall|k: int|
            0 <= k < v.len() && v[k].agent_id == id && (forall|j: int|
                0 <= j < k ==> (#[trigger] v[j]).agent_id != id) ==> #[trigger] changed(v, id, f)[k]
                == f(v[k]),
{
    lemma_find_agent(v, id, 0);
}

/// What becomes of an entry. An agent that registers for the first time has
/// nothing but its id, index and addresses; one that registers again keeps its
/// index and the number of its sessions. A session is connected, has the next
/// number and starts from slice 0; its end leaves the agent disconnected and all
/// else as it was.
pub proof fn law_life_of_an_entry(
    e: EntryView,
    index: u32,
    ip: Seq<char>,
    instance: Seq<char>,
    commands: Seq<Option<CommandView>>,
)
    requires
        e.session_gen < u64::MAX,
    ensures
        ({
            let f = EntryView::fresh(e.agent_id, index, ip, instance);
            &&& f.agent_id == e.agent_id && f.agent_index == index
            &&& f.private_ip == ip && f.instance_id == instance
            &&& !f.connected && !f.plan_acked && f.channel is None
            &&& f.current_slice == 0 && f.active_connections == 0 && f.session_gen == 0
        }),
        ({
            let r = e.again(ip, instance);
            &&& r.agent_id == e.agent_id && r.agent_index == e.agent_index
            &&& r.session_gen == e.session_gen && r.connected == e.connected
            &&& r.private_ip == ip && r.instance_id == instance
            &&& !r.plan_acked && r.channel is None
            &&& r.current_slice == 0 && r.active_connections == 0
        }),
        ({
            let o = e.opened(commands);
            &&& o.agent_id == e.agent_id && o.agent_index == e.agent_index
            &&& o.private_ip == e.private_ip && o.instance_id == e.instance_id
            &&& o.session_gen == e.session_gen + 1
            &&& o.connected && o.channel == Some(commands)
            &&& o.current_slice == 0 && o.active_connections == 0
            &&& o.plan_acked == e.plan_acked
        }),
        ({
            let c = e.closed();
            &&& !c.connected && c.channel is None
            &&& c.agent_id == e.agent_id && c.agent_index == e.agent_index
            &&& c.private_ip == e.private_ip && c.instance_id == e.instance_id
            &&& c.current_slice == e.current_slice
            &&& c.active_connections == e.active_connections
            &&& c.plan_acked == e.plan_acked && c.session_gen == e.session_gen
        }),
{
}

/// Two entries with the same status agree in all that others can see.
pub proof fn law_status_tells_entries_apart(a: EntryView, b: EntryView)
    requires
        status_of(a) == status_of(b),
    ensures
        a.agent_id == b.agent_id,
        a.agent_index == b.agent_index,
        a.private_ip == b.private_ip,
        a.instance_id == b.instance_id,
        a.current_slice == b.current_slice,
        a.active_connections == b.active_connections,
        a.connected == b.connected,
        a.plan_acked == b.plan_acked,
{
}

/// Counts of two lists add up, and one entry counts where it meets the condition.
pub proof fn law_counts_add_up(
    a: Seq<EntryView>,
    b: Seq<EntryView>,
    x: EntryView,
    f: spec_fn(EntryView) -> bool,
)
    ensures
        count(a + b, f) == count(a, f) + count(b, f),
        f(x) ==> count(seq![x], f) == 1,
        !f(x) ==> count(seq![x], f) == 0,
    decreases b.len(),
{
    reveal_with_fuel(count, 2);
    if b.len() == 0 {
        assert(a + b =~= a);
    } else {
        law_counts_add_up(a, b.drop_last(), x, f);
        assert((a + b).drop_last() =~= a + b.drop_last());
    }
}

/// Forgetting the acknowledgements of the plan changes nothing else.
pub proof fn law_acks_are_forgotten(v: Seq<EntryView>)
    ensures
        without_acks(v).len() == v.len(),
        forall|i: int|
            0 <= i < v.len() ==> !(#[trigger] without_acks(v)[i]).plan_acked && (EntryView {
                plan_acked: v[i].plan_acked,
                ..without_acks(v)[i]
            }) == v[i],
{
}

/// How many channels have one more command in them.
pub open spec fn reached(before: Seq<EntryView>, after: Seq<EntryView>) -> nat
    decreases before.len(),
{
    if before.len() == 0 || after.len() == 0 {
        0
    } else {
        reached(before.drop_last(), after.drop_last()) + match (
            before.last().channel,
            after.last().channel,
        ) {
            (Some(b), Some(a)) => if a.len() == b.len() + 1 {
                1nat
            } else {
                0nat
            },
            _ => 0nat,
        }
    }
}

/// What a broadcast does to each agent. One without an open session is left as it
/// was. Into the channel of any other the command was put behind all others, or it
/// was refused and nothing changed, or the channel was closed and the session is
/// over. As many channels have the command as are reported.
pub proof fn law_broadcast_reaches_sessions(
    before: Seq<EntryView>,
    after: Seq<EntryView>,
    cmd: Option<CommandView>,
    sent: nat,
)
    requires
        is_after_broadcast(before, after, cmd, sent),
    ensures
        after.len() == before.len(),
        sent == reached(before, after),
        forall|i: int|
            #![trigger after[i]]
            0 <= i < before.len() ==> {
                let open = before[i].connected && before[i].channel is Some;
                &&& !open ==> after[i] == before[i]
                &&& open ==> {
                    ||| after[i] == before[i]
                    ||| after[i] == (EntryView {
                        channel: Some(before[i].channel->0.push(cmd)),
                        ..before[i]
                    })
                    ||| after[i] == (EntryView { connected: false, channel: None, ..before[i] })
                }
            },
{
    let outcomes = choose|outcomes: Seq<Option<SendOutcome>>|
        #![trigger delivered(before, cmd, outcomes)]
        {
            &&& outcomes.len() == before.len()
            &&& forall|i: int|
                0 <= i < outcomes.len() ==> ((#[trigger] outcomes[i]) is Some <==> is_recipient(
                    before[i],
                ))
            &&& after == after_sends(delivered(before, cmd, outcomes), outcomes)
            &&& sent == sent_count(outcomes)
        };
    assert forall|i: int| #![trigger after[i]] 0 <= i < before.len() implies {
        let open = before[i].connected && before[i].channel is Some;
        &&& !open ==> after[i] == before[i]
        &&& open ==> {
            ||| after[i] == before[i]
            ||| after[i] == (EntryView {
                channel: Some(before[i].channel->0.push(cmd)),
                ..before[i]
            })
            ||| after[i] == (EntryView { connected: false, channel: None, ..before[i] })
        }
    } by {
        assert(outcomes[i] is Some <==> is_recipient(before[i]));
    }
    lemma_reached(before, after, cmd, outcomes);
}

proof fn lemma_reached(
    before: Seq<EntryView>,
    after: Seq<EntryView>,
    cmd: Option<CommandView>,
    outcomes: Seq<Option<SendOutcome>>,
)
    requires
        outcomes.len() == before.len(),
        forall|i: int|
            0 <= i < outcomes.len() ==> ((#[trigger] outcomes[i]) is Some <==> is_recipient(
                before[i],
            )),
        after == after_sends(delivered(before, cmd, outcomes), outcomes),
    ensures
        sent_count(outcomes) == reached(before, after),
    decreases before.len(),
{
    if before.len() > 0 {
        let b = before.drop_last();
        let o = outcomes.drop_last();
        let a = after.drop_last();
        assert forall|i: int| 0 <= i < o.len() implies ((#[trigger] o[i]) is Some <==> is_recipient(
            b[i],
        )) by {
            assert(o[i] == outcomes[i]);
        }
        assert(a =~= after_sends(delivered(b, cmd, o), o));
        lemma_reached(b, a, cmd, o);
        let n = before.len() - 1;
        assert(outcomes[n] is Some <==> is_recipient(before[n]));
        assert(after[n] == after.last());
    }
}

/// A slice is acknowledged where no connected agent is behind it. Agents that are
/// not connected do not matter, and with a slice all slices before it are
/// acknowledged.
pub proof fn law_acknowledged_slice(r: Registry, slice: u32, i: int)
    requires
        0 <= i < r.agents().len(),
    ensures
        r.agents()[i].connected && r.agents()[i].current_slice < slice ==> !r.acked(slice),
        (forall|k: int|
            0 <= k < r.agents().len() ==> !(#[trigger] r.agents()[k]).connected
                || r.agents()[k].current_slice >= slice) ==> r.acked(slice),
        forall|s: u32| s <= slice && r.acked(slice) ==> #[trigger] r.acked(s),
{
}

} // verus!
