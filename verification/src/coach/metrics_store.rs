//! The transfers that agents have reported, with running totals per agent.

use vstd::prelude::*;

use crate::proto;
use crate::proto::{MetricsUpdate, RecordView, TransferRecord};
use crate::text;

verus! {

/// Running totals of one agent.
#[derive(Debug, Clone, Copy, PartialEq, Eq, Structural)]
pub struct AgentTotals {
    pub success_count: u32,
    pub error_count: u32,
    pub bytes_transferred: u64,
    /// Bytes of transfers that are still running.
    pub bytes_in_flight: u64,
}

/// Totals of an agent that has not reported anything.
pub open spec fn no_totals() -> AgentTotals {
    AgentTotals { success_count: 0, error_count: 0, bytes_transferred: 0, bytes_in_flight: 0 }
}

/// The totals of one agent.
#[derive(Debug)]
pub struct TotalsEntry {
    pub agent_id: String,
    pub totals: AgentTotals,
}

/// What was reported in the current test run.
#[derive(Debug)]
pub struct MetricsStore {
    /// The transfers since they were last taken out, with their agent.
    pub completed: Vec<(String, TransferRecord)>,
    /// The totals of every agent that has reported; no agent occurs twice.
    pub totals: Vec<TotalsEntry>,
}

/// Transfers with their texts.
pub open spec fn completed_views(v: Seq<(String, TransferRecord)>) -> Seq<(Seq<char>, RecordView)> {
    Seq::new(v.len(), |i: int| (v[i].0@, v[i].1@))
}

/// Totals with the texts of their agents.
pub open spec fn totals_view(v: Seq<TotalsEntry>) -> Seq<(Seq<char>, AgentTotals)> {
    Seq::new(v.len(), |i: int| (v[i].agent_id@, v[i].totals))
}

/// The position of an agent at or after `i`.
pub open spec fn find_totals(v: Seq<(Seq<char>, AgentTotals)>, id: Seq<char>, i: int) -> Option<int>
    decreases v.len() - i,
{
    if i < 0 || i >= v.len() {
        None
    } else if v[i].0 == id {
        Some(i)
    } else {
        find_totals(v, id, i + 1)
    }
}

/// The totals of an agent; zero where it has not reported.
pub open spec fn lookup(v: Seq<(Seq<char>, AgentTotals)>, id: Seq<char>) -> AgentTotals {
    match find_totals(v, id, 0) {
        Some(i) => v[i].1,
        None => no_totals(),
    }
}

proof fn lemma_find_totals(v: Seq<(Seq<char>, AgentTotals)>, id: Seq<char>, i: int)
    requires
        0 <= i,
    ensures
        match find_totals(v, id, i) {
            Some(k) => i <= k < v.len() && v[k].0 == id && forall|j: int|
                i <= j < k ==> (#[trigger] v[j]).0 != id,
            None => forall|j: int| i <= j < v.len() ==> (#[trigger] v[j]).0 != id,
        },
    decreases v.len() - i,
{
    if i < v.len() && v[i].0 != id {
        lemma_find_totals(v, id, i + 1);
    }
}

/// How many of a list of transfers succeeded.
pub open spec fn successes(r: Seq<RecordView>) -> nat
    decreases r.len(),
{
    if r.len() == 0 {
        0
    } else {
        successes(r.drop_last()) + if r.last().success {
            1nat
        } else {
            0nat
        }
    }
}

/// How many of a list of transfers failed.
pub open spec fn failures(r: Seq<RecordView>) -> nat {
    (r.len() - successes(r)) as nat
}

/// The bytes of the transfers that succeeded.
pub open spec fn good_bytes(r: Seq<RecordView>) -> nat
    decreases r.len(),
{
    if r.len() == 0 {
        0
    } else {
        good_bytes(r.drop_last()) + if r.last().success {
            r.last().bytes_transferred as nat
        } else {
            0nat
        }
    }
}

/// Whether the totals of an agent stay within their range with these
/// transfers.
pub open spec fn totals_fit(t: AgentTotals, r: Seq<RecordView>) -> bool {
    &&& t.success_count + successes(r) <= u32::MAX
    &&& t.error_count + failures(r) <= u32::MAX
    &&& t.bytes_transferred + good_bytes(r) <= u64::MAX
}

/// The totals of an agent with these transfers.
pub open spec fn totals_with(t: AgentTotals, r: Seq<RecordView>) -> AgentTotals {
    AgentTotals {
        success_count: (t.success_count + successes(r)) as u32,
        error_count: (t.error_count + failures(r)) as u32,
        bytes_transferred: (t.bytes_transferred + good_bytes(r)) as u64,
        bytes_in_flight: t.bytes_in_flight,
    }
}

proof fn lemma_successes_bound(r: Seq<RecordView>)
    ensures
        successes(r) <= r.len(),
    decreases r.len(),
{
    if r.len() > 0 {
        lemma_successes_bound(r.drop_last());
    }
}

proof fn lemma_prefix(r: Seq<RecordView>, i: int)
    requires
        0 <= i <= r.len(),
    ensures
        successes(r.take(i)) <= successes(r),
        failures(r.take(i)) <= failures(r),
        good_bytes(r.take(i)) <= good_bytes(r),
    decreases r.len(),
{
    if i < r.len() {
        lemma_prefix(r.drop_last(), i);
        assert(r.drop_last().take(i) =~= r.take(i));
        lemma_successes_bound(r.drop_last());
    } else {
        assert(r.take(i) =~= r);
    }
}

/// The transfers of an agent, each with the agent's id.
pub open spec fn tagged(id: Seq<char>, r: Seq<RecordView>) -> Seq<(Seq<char>, RecordView)> {
    Seq::new(r.len(), |i: int| (id, r[i]))
}

/// The transfers counted in a list of totals.
pub open spec fn counted(v: Seq<(Seq<char>, AgentTotals)>) -> nat
    decreases v.len(),
{
    if v.len() == 0 {
        0
    } else {
        counted(v.drop_last()) + v.last().1.success_count as nat + v.last().1.error_count as nat
    }
}

impl MetricsStore {
    /// No agent has two totals.
    pub open spec fn wf(self) -> bool {
        forall|i: int, j: int|
            0 <= i < j < self.totals@.len() ==> (#[trigger] totals_view(self.totals@)[i]).0 != (
            #[trigger] totals_view(self.totals@)[j]).0
    }

    /// The totals of an agent.
    pub open spec fn totals_of(self, id: Seq<char>) -> AgentTotals {
        lookup(totals_view(self.totals@), id)
    }

    /// The transfers that have not been taken out yet.
    pub open spec fn pending(self) -> Seq<(Seq<char>, RecordView)> {
        completed_views(self.completed@)
    }

    /// A store without any reports.
    pub fn new() -> (s: MetricsStore)
        ensures
            s.wf(),
            s.pending().len() == 0,
            s.totals@.len() == 0,
            forall|id: Seq<char>| #[trigger] s.totals_of(id) == no_totals(),
    {
        MetricsStore { completed: Vec::new(), totals: Vec::new() }
    }

    fn find(&self, id: &str) -> (r: Option<usize>)
        ensures
            match r {
                Some(i) => i < self.totals@.len() && find_totals(
                    totals_view(self.totals@),
                    id@,
                    0,
                ) == Some(i as int),
                None => find_totals(totals_view(self.totals@), id@, 0) is None,
            },
    {
        let ghost all = totals_view(self.totals@);
        let mut i: usize = 0;
        while i < self.totals.len()
            invariant
                i <= self.totals@.len(),
                all == totals_view(self.totals@),
                find_totals(all, id@, 0) == find_totals(all, id@, i as int),
            decreases self.totals@.len() - i,
        {
            assert(all[i as int] == (self.totals@[i as int].agent_id@, self.totals@[i as int].totals));
            if text::str_eq(self.totals[i].agent_id.as_str(), id) {
                return Some(i);
            }
            i = i + 1;
        }
        None
    }

    /// Whether the totals of an agent stay within their range with the
    /// transfers of an update.
    pub fn fits(&self, agent_id: &str, update: &MetricsUpdate) -> (yes: bool)
        ensures
            yes == totals_fit(
                self.totals_of(agent_id@),
                proto::record_views(update.completed_transfers@),
            ),
    {
        let ghost r = proto::record_views(update.completed_transfers@);
        let t: AgentTotals = self.agent_totals(agent_id);
        let records = &update.completed_transfers;
        let mut good: u128 = 0;
        let mut bad: u128 = 0;
        let mut bytes: u128 = 0;
        let mut i: usize = 0;
        let mut big: bool = false;
        assert(r.take(0) =~= Seq::<RecordView>::empty());
        while i < records.len()
            invariant
                i <= records@.len(),
                r == proto::record_views(records@),
                good == successes(r.take(i as int)),
                bad == failures(r.take(i as int)),
                good <= i,
                bad <= i,
                big ==> good_bytes(r.take(i as int)) > u64::MAX,
                !big ==> bytes == good_bytes(r.take(i as int)) && bytes <= u64::MAX,
            decreases records@.len() - i,
        {
            proof {
                assert(r.take(i + 1).last() == records@[i as int]@);
                assert(r.take(i + 1).drop_last() =~= r.take(i as int));
                lemma_successes_bound(r.take(i as int));
            }
            if records[i].success {
                good = good + 1;
                if !big {
                    bytes = bytes + records[i].bytes_transferred as u128;
                    if bytes > u64::MAX as u128 {
                        big = true;
                    }
                }
            } else {
                bad = bad + 1;
            }
            i = i + 1;
        }
        assert(r.take(i as int) =~= r);
        t.success_count as u128 + good <= u32::MAX as u128 && t.error_count as u128 + bad
            <= u32::MAX as u128 && !big && t.bytes_transferred as u128 + bytes <= u64::MAX as u128
    }

    /// Takes in an update of an agent: its transfers are kept and added to the
    /// agent's totals. Bytes only count for transfers that succeeded.
    pub fn record_update(&mut self, agent_id: String, update: &MetricsUpdate)
        requires
            old(self).wf(),
            totals_fit(
                old(self).totals_of(agent_id@),
                proto::record_views(update.completed_transfers@),
            ),
        ensures
            final(self).wf(),
            final(self).pending() == old(self).pending() + tagged(
                agent_id@,
                proto::record_views(update.completed_transfers@),
            ),
            final(self).totals_of(agent_id@) == totals_with(
                old(self).totals_of(agent_id@),
                proto::record_views(update.completed_transfers@),
            ),
            forall|id: Seq<char>|
                id != agent_id@ ==> #[trigger] final(self).totals_of(id) == old(self).totals_of(id),
            counted(totals_view(final(self).totals@)) == counted(totals_view(old(self).totals@))
                + update.completed_transfers@.len(),
    {
        let ghost r = proto::record_views(update.completed_transfers@);
        let ghost first = self.totals_of(agent_id@);
        let ghost before = totals_view(self.totals@);
        let ghost pending = self.pending();
        let id = agent_id.as_str();
        let at: Option<usize> = self.find(id);
        let mut t: AgentTotals = match at {
            Some(i) => self.totals[i].totals,
            None => AgentTotals {
                success_count: 0,
                error_count: 0,
                bytes_transferred: 0,
                bytes_in_flight: 0,
            },
        };
        let records = &update.completed_transfers;
        let mut i: usize = 0;
        proof {
            assert(r.take(0) =~= Seq::<RecordView>::empty());
            assert(self.pending() =~= pending + tagged(id@, r.take(0)));
            if at is Some {
                assert(before[at->0 as int].1 == first);
            }
        }
        while i < records.len()
            invariant
                i <= records@.len(),
                r == proto::record_views(records@),
                id@ == agent_id@,
                self.totals == old(self).totals,
                totals_fit(first, r),
                t == totals_with(first, r.take(i as int)),
                self.pending() == pending + tagged(id@, r.take(i as int)),
            decreases records@.len() - i,
        {
            let rec = &records[i];
            proof {
                assert(r.take(i + 1).last() == rec@);
                assert(r.take(i + 1).drop_last() =~= r.take(i as int));
                lemma_prefix(r, i as int);
                lemma_prefix(r, i + 1);
                lemma_successes_bound(r.take(i as int));
            }
            if rec.success {
                t.success_count = t.success_count + 1;
                t.bytes_transferred = t.bytes_transferred + rec.bytes_transferred;
            } else {
                t.error_count = t.error_count + 1;
            }
            let ghost was = self.completed@;
            let pair: (String, TransferRecord) = (text::copy_str(id), rec.clone());
            self.completed.push(pair);
            proof {
                assert(self.pending() =~= completed_views(was).push((id@, rec@)));
                assert(pending + tagged(id@, r.take(i + 1)) =~= (pending + tagged(
                    id@,
                    r.take(i as int),
                )).push((id@, rec@)));
            }
            i = i + 1;
        }
        assert(r.take(i as int) =~= r);
        proof {
            lemma_find_totals(before, agent_id@, 0);
            lemma_successes_bound(r);
        }
        match at {
            Some(k) => {
                let entry = TotalsEntry { agent_id, totals: t };
                self.totals.set(k, entry);
                proof {
                    let after = totals_view(self.totals@);
                    assert(after =~= before.update(k as int, (agent_id@, t)));
                    lemma_set_lookup(before, k as int, agent_id@, t);
                    lemma_set_counted(before, k as int, (agent_id@, t));
                    assert forall|i: int, j: int| 0 <= i < j < after.len() implies (
                    #[trigger] after[i]).0 != (#[trigger] after[j]).0 by {
                        assert(before[i].0 != before[j].0);
                    }
                }
            },
            None => {
                let entry = TotalsEntry { agent_id, totals: t };
                self.totals.push(entry);
                proof {
                    let after = totals_view(self.totals@);
                    assert(after =~= before.push((agent_id@, t)));
                    lemma_push_lookup(before, agent_id@, t);
                    assert(after.drop_last() =~= before);
                    assert forall|i: int, j: int| 0 <= i < j < after.len() implies (
                    #[trigger] after[i]).0 != (#[trigger] after[j]).0 by {
                        assert(after[i] == before[i]);
                        if j < before.len() {
                            assert(after[j] == before[j]);
                        }
                    }
                }
            },
        }
    }

    /// Takes out all transfers since the last call.
    pub fn drain_completed(&mut self) -> (out: Vec<(String, TransferRecord)>)
        ensures
            completed_views(out@) == old(self).pending(),
            final(self).pending().len() == 0,
            final(self).totals == old(self).totals,
    {
        let mut out: Vec<(String, TransferRecord)> = Vec::new();
        std::mem::swap(&mut out, &mut self.completed);
        out
    }

    /// The totals of an agent; zero where it has not reported.
    pub fn agent_totals(&self, agent_id: &str) -> (t: AgentTotals)
        ensures
            t == self.totals_of(agent_id@),
    {
        match self.find(agent_id) {
            Some(i) => self.totals[i].totals,
            None => AgentTotals {
                success_count: 0,
                error_count: 0,
                bytes_transferred: 0,
                bytes_in_flight: 0,
            },
        }
    }

    /// The number of transfers of all agents.
    pub fn total_count(&self) -> (n: u64)
        requires
            counted(totals_view(self.totals@)) <= u64::MAX,
        ensures
            n == counted(totals_view(self.totals@)),
    {
        let ghost all = totals_view(self.totals@);
        let mut n: u64 = 0;
        let mut i: usize = 0;
        assert(all.take(0) =~= Seq::<(Seq<char>, AgentTotals)>::empty());
        while i < self.totals.len()
            invariant
                i <= self.totals@.len(),
                all == totals_view(self.totals@),
                counted(all) <= u64::MAX,
                n == counted(all.take(i as int)),
            decreases self.totals@.len() - i,
        {
            proof {
                assert(all.take(i + 1).last() == all[i as int]);
                assert(all.take(i + 1).drop_last() =~= all.take(i as int));
                lemma_counted_prefix(all, i + 1);
            }
            let t: AgentTotals = self.totals[i].totals;
            n = n + t.success_count as u64 + t.error_count as u64;
            i = i + 1;
        }
        assert(all.take(i as int) =~= all);
        n
    }
}

proof fn lemma_counted_prefix(v: Seq<(Seq<char>, AgentTotals)>, i: int)
    requires
        0 <= i <= v.len(),
    ensures
        counted(v.take(i)) <= counted(v),
    decreases v.len(),
{
    if i < v.len() {
        lemma_counted_prefix(v.drop_last(), i);
        assert(v.drop_last().take(i) =~= v.take(i));
    } else {
        assert(v.take(i) =~= v);
    }
}

proof fn lemma_set_lookup(v: Seq<(Seq<char>, AgentTotals)>, k: int, id: Seq<char>, t: AgentTotals)
    requires
        find_totals(v, id, 0) == Some(k),
    ensures
        lookup(v.update(k, (id, t)), id) == t,
        forall|other: Seq<char>|
            other != id ==> #[trigger] lookup(v.update(k, (id, t)), other) == lookup(v, other),
{
    let w = v.update(k, (id, t));
    lemma_find_totals(v, id, 0);
    lemma_find_totals(w, id, 0);
    assert(w[k].0 == id);
    match find_totals(w, id, 0) {
        Some(a) => {
            if a < k {
                assert(w[a] == v[a]);
            }
        },
        None => {},
    }
    assert forall|other: Seq<char>| other != id implies #[trigger] lookup(w, other) == lookup(
        v,
        other,
    ) by {
        lemma_find_totals(v, other, 0);
        lemma_find_totals(w, other, 0);
        match (find_totals(v, other, 0), find_totals(w, other, 0)) {
            (Some(a), Some(b)) => {
                assert(w[a] == v[a]);
                assert(w[b] == v[b]);
            },
            (Some(a), None) => {
                assert(w[a] == v[a]);
            },
            (None, Some(b)) => {
                assert(w[b] == v[b]);
            },
            _ => {},
        }
    }
}

proof fn lemma_set_counted(
    v: Seq<(Seq<char>, AgentTotals)>,
    k: int,
    e: (Seq<char>, AgentTotals),
)
    requires
        0 <= k < v.len(),
    ensures
        counted(v.update(k, e)) + v[k].1.success_count + v[k].1.error_count == counted(v)
            + e.1.success_count + e.1.error_count,
    decreases v.len(),
{
    let w = v.update(k, e);
    if k < v.len() - 1 {
        lemma_set_counted(v.drop_last(), k, e);
        assert(w.drop_last() =~= v.drop_last().update(k, e));
    } else {
        assert(w.drop_last() =~= v.drop_last());
    }
}

proof fn lemma_push_lookup(v: Seq<(Seq<char>, AgentTotals)>, id: Seq<char>, t: AgentTotals)
    requires
        find_totals(v, id, 0) is None,
    ensures
        lookup(v.push((id, t)), id) == t,
        forall|other: Seq<char>|
            other != id ==> #[trigger] lookup(v.push((id, t)), other) == lookup(v, other),
{
    let w = v.push((id, t));
    lemma_find_totals(v, id, 0);
    lemma_find_totals(w, id, 0);
    assert(w[v.len() as int].0 == id);
    match find_totals(w, id, 0) {
        Some(a) => {
            if a < v.len() {
                assert(w[a] == v[a]);
            }
        },
        None => {},
    }
    assert forall|other: Seq<char>| other != id implies #[trigger] lookup(w, other) == lookup(
        v,
        other,
    ) by {
        lemma_find_totals(v, other, 0);
        lemma_find_totals(w, other, 0);
        match (find_totals(v, other, 0), find_totals(w, other, 0)) {
            (Some(a), Some(b)) => {
                assert(w[a] == v[a]);
                assert(b < v.len());
                assert(w[b] == v[b]);
            },
            (Some(a), None) => {
                assert(w[a] == v[a]);
            },
            (None, Some(b)) => {
                assert(b < v.len());
                assert(w[b] == v[b]);
            },
            _ => {},
        }
    }
}

/// Every transfer of an update is counted once, as a success or as a failure.
pub proof fn law_every_transfer_counted(r: Seq<RecordView>)
    ensures
        successes(r) + failures(r) == r.len(),
{
    lemma_successes_bound(r);
}

/// What two lists of transfers have in common adds up: successes and bytes. One
/// transfer counts as a success and with its bytes only where it succeeded.
pub proof fn law_transfers_add_up(a: Seq<RecordView>, b: Seq<RecordView>, x: RecordView)
    ensures
        successes(a + b) == successes(a) + successes(b),
        failures(a + b) == failures(a) + failures(b),
        good_bytes(a + b) == good_bytes(a) + good_bytes(b),
        x.success ==> successes(seq![x]) == 1 && failures(seq![x]) == 0 && good_bytes(seq![x])
            == x.bytes_transferred,
        !x.success ==> successes(seq![x]) == 0 && failures(seq![x]) == 1 && good_bytes(seq![x])
            == 0,
    decreases b.len(),
{
    reveal_with_fuel(successes, 2);
    reveal_with_fuel(good_bytes, 2);
    lemma_successes_bound(a);
    lemma_successes_bound(b);
    if b.len() == 0 {
        assert(a + b =~= a);
    } else {
        law_transfers_add_up(a, b.drop_last(), x);
        assert((a + b).drop_last() =~= a + b.drop_last());
        lemma_successes_bound(b.drop_last());
    }
}

/// Transfers raise the totals of an agent by their successes, failures and bytes;
/// the bytes on the way stay.
pub proof fn law_totals_grow(t: AgentTotals, r: Seq<RecordView>)
    requires
        totals_fit(t, r),
    ensures
        totals_with(t, r).success_count == t.success_count + successes(r),
        totals_with(t, r).error_count + successes(r) == t.error_count + r.len(),
        totals_with(t, r).bytes_transferred == t.bytes_transferred + good_bytes(r),
        totals_with(t, r).bytes_in_flight == t.bytes_in_flight,
{
    lemma_successes_bound(r);
}

/// The totals of an agent are those that the first entry with its id holds, and
/// zero only where no entry has it.
pub proof fn law_totals_lookup(v: Seq<(Seq<char>, AgentTotals)>, id: Seq<char>)
    ensures
        (exists|i: int|
            0 <= i < v.len() && (#[trigger] v[i]).0 == id && v[i].1 == lookup(v, id) && forall|
                k: int,
            |
                0 <= k < i ==> (#[trigger] v[k]).0 != id) || (lookup(v, id) == (AgentTotals {
            success_count: 0,
            error_count: 0,
            bytes_transferred: 0,
            bytes_in_flight: 0,
        }) && forall|k: int| 0 <= k < v.len() ==> (#[trigger] v[k]).0 != id),
{
    lemma_find_totals(v, id, 0);
    match find_totals(v, id, 0) {
        Some(i) => {
            assert(v[i].0 == id && v[i].1 == lookup(v, id));
        },
        None => {},
    }
}

/// What is counted in two lists of totals adds up; one agent counts with its
/// successes and failures.
pub proof fn law_counted_adds_up(
    a: Seq<(Seq<char>, AgentTotals)>,
    b: Seq<(Seq<char>, AgentTotals)>,
    x: (Seq<char>, AgentTotals),
)
    ensures
        counted(a + b) == counted(a) + counted(b),
        counted(seq![x]) == x.1.success_count + x.1.error_count,
    decreases b.len(),
{
    reveal_with_fuel(counted, 2);
    if b.len() == 0 {
        assert(a + b =~= a);
    } else {
        law_counted_adds_up(a, b.drop_last(), x);
        assert((a + b).drop_last() =~= a + b.drop_last());
    }
}

} // verus!
