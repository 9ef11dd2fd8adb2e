//! The transfers that an agent has finished and not reported yet.

use vstd::prelude::*;

use crate::gym::transfer::TransferOutcome;
use crate::proto;
use crate::proto::{MetricsUpdate, RecordView, TransferRecord};

verus! {

/// Collects outcomes between two reports.
#[derive(Debug)]
pub struct MetricsAccumulator {
    pub pending: Vec<TransferOutcome>,
}

/// Outcomes as the coach gets them.
pub open spec fn records(v: Seq<TransferOutcome>) -> Seq<RecordView> {
    Seq::new(v.len(), |i: int| v[i].record())
}

impl MetricsAccumulator {
    /// An accumulator without outcomes.
    pub fn new() -> (m: MetricsAccumulator)
        ensures
            m.pending@.len() == 0,
    {
        MetricsAccumulator { pending: Vec::new() }
    }

    /// Takes in an outcome.
    pub fn record(&mut self, outcome: TransferOutcome)
        ensures
            final(self).pending@ == old(self).pending@.push(outcome),
    {
        self.pending.push(outcome);
    }

    /// Whether there are outcomes that have not been reported.
    pub fn has_pending(&self) -> (yes: bool)
        ensures
            yes == (self.pending@.len() > 0),
    {
        self.pending.len() > 0
    }

    /// Takes all outcomes out, as a report. Without outcomes there is none,
    /// unless `force` asks for one.
    pub fn drain_into_update(&mut self, current_slice: u32, active_connections: u32, force: bool)
        -> (r: Option<MetricsUpdate>)
        ensures
            final(self).pending@.len() == 0,
            match r {
                Some(u) => {
                    &&& old(self).pending@.len() > 0 || force
                    &&& u.current_slice == current_slice
                    &&& u.active_connections == active_connections
                    &&& u.queued_connections == 0
                    &&& proto::record_views(u.completed_transfers@) == records(old(self).pending@)
                },
                None => old(self).pending@.len() == 0 && !force,
            },
    {
        if self.pending.len() == 0 && !force {
            return None;
        }
        let mut rest: Vec<TransferOutcome> = Vec::new();
        std::mem::swap(&mut rest, &mut self.pending);
        let ghost all = rest@;
        let n: usize = rest.len();
        let mut back: Vec<TransferRecord> = Vec::new();
        while rest.len() > 0
            invariant
                n == all.len(),
                rest@.len() + back@.len() == n,
                rest@ == all.take(rest@.len() as int),
                forall|k: int| 0 <= k < back@.len() ==> (#[trigger] back@[k])@ == all[n - 1 - k].record(),
            decreases rest@.len(),
        {
            match rest.pop() {
                Some(o) => {
                    back.push(o.into_proto());
                },
                None => {},
            }
        }
        let mut completed_transfers: Vec<TransferRecord> = Vec::new();
        while back.len() > 0
            invariant
                n == all.len(),
                back@.len() + completed_transfers@.len() == n,
                forall|k: int| 0 <= k < back@.len() ==> (#[trigger] back@[k])@ == all[n - 1 - k].record(),
                forall|k: int|
                    0 <= k < completed_transfers@.len() ==> (#[trigger] completed_transfers@[k])@
                        == all[k].record(),
            decreases back@.len(),
        {
            match back.pop() {
                Some(r) => {
                    completed_transfers.push(r);
                },
                None => {},
            }
        }
        assert(proto::record_views(completed_transfers@) =~= records(all));
        Some(
            MetricsUpdate {
                current_slice,
                active_connections,
                queued_connections: 0,
                completed_transfers,
            },
        )
    }
}

} // verus!
