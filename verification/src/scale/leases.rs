//! The slot leases as Redis holds them, with the owner of each slot.
//!
//! Reading an owner has three outcomes. The key may be there; it may be
//! absent, which makes any cached owner misleading; or the read may fail, in
//! which case the owner of an earlier cycle stands in. Two distinct texts mark
//! the owners that are not known, so that nothing destructive is ever done on
//! a slot whose owner could not be confirmed.

use std::collections::HashMap;

use vstd::prelude::*;

use crate::order;
use crate::scale::snapshot;
use crate::scale::snapshot::{LeaseView, SlotLease};
use crate::text;

verus! {

broadcast use vstd::std_specs::hash::group_hash_axioms;

/// Owner of a lease whose owner key is absent.
pub const OWNER_MISSING: &'static str = "(missing)";

/// Owner of a lease whose owner could not be read and is not cached either.
pub const OWNER_UNKNOWN: &'static str = "(unknown)";

/// What reading the owner key of a slot gave.
#[derive(Debug)]
pub enum OwnerReply {
    Found(String),
    Missing,
    Failed,
}

/// The texts of the cached owners.
pub open spec fn cache_view(m: Map<u32, String>) -> Map<u32, Seq<char>> {
    m.map_values(|s: String| s@)
}

/// The owner of a slot after a reply.
pub open spec fn owner_after(cache: Map<u32, Seq<char>>, slot: u32, reply: OwnerReply) -> Seq<char> {
    match reply {
        OwnerReply::Found(id) => id@,
        OwnerReply::Missing => OWNER_MISSING@,
        OwnerReply::Failed => if cache.contains_key(slot) {
            cache[slot]
        } else {
            OWNER_UNKNOWN@
        },
    }
}

/// The cached owners after a reply.
pub open spec fn cache_after(cache: Map<u32, Seq<char>>, slot: u32, reply: OwnerReply) -> Map<
    u32,
    Seq<char>,
> {
    match reply {
        OwnerReply::Found(id) => cache.insert(slot, id@),
        OwnerReply::Missing => cache.remove(slot),
        OwnerReply::Failed => cache,
    }
}

/// The owner of a slot, with the owners of earlier cycles at hand.
pub fn resolve_owner(cache: &mut HashMap<u32, String>, slot: u32, reply: OwnerReply) -> (owner:
    String)
    ensures
        owner@ == owner_after(cache_view(old(cache)@), slot, reply),
        cache_view(final(cache)@) == cache_after(cache_view(old(cache)@), slot, reply),
{
    match reply {
        OwnerReply::Found(id) => {
            let kept = text::copy_str(id.as_str());
            cache.insert(slot, kept);
            assert(cache_view(cache@) =~= cache_view(old(cache)@).insert(slot, id@));
            id
        },
        OwnerReply::Missing => {
            cache.remove(&slot);
            assert(cache_view(cache@) =~= cache_view(old(cache)@).remove(slot));
            text::copy_str(OWNER_MISSING)
        },
        OwnerReply::Failed => match cache.get(&slot) {
            Some(id) => text::copy_str(id.as_str()),
            None => text::copy_str(OWNER_UNKNOWN),
        },
    }
}

/// An owner that was read once stands in while later reads fail, and an owner
/// key that was seen to be absent is never replaced by an older owner.
pub proof fn law_failed_read_uses_last_owner(
    cache: Map<u32, Seq<char>>,
    slot: u32,
    id: String,
)
    ensures
        owner_after(
            cache_after(cache, slot, OwnerReply::Found(id)),
            slot,
            OwnerReply::Failed,
        ) == id@,
        owner_after(cache_after(cache, slot, OwnerReply::Missing), slot, OwnerReply::Failed)
            == OWNER_UNKNOWN@,
{
}

/// One member of the lease set with the reply to the read of its owner.
#[derive(Debug)]
pub struct RawLease {
    /// The slot number as Redis holds it.
    pub slot: String,
    /// The score of the member: the expiry in milliseconds.
    pub expires_ms: u64,
    pub owner: OwnerReply,
}

/// The slot that a text stands for; 0 where it is no number.
pub open spec fn slot_number(s: Seq<char>) -> u32 {
    match text::parse_max(s, u32::MAX as nat) {
        Some(n) => n as u32,
        None => 0,
    }
}

/// The slot that a text stands for; 0 where it is no number.
pub fn slot_of(s: &str) -> (slot: u32)
    ensures
        slot == slot_number(s@),
{
    match text::parse_up_to(s, u32::MAX as u64) {
        Some(n) => n as u32,
        None => 0,
    }
}

/// The cached owners after the first `n` members were read.
pub open spec fn cache_at(raw: Seq<RawLease>, cache: Map<u32, Seq<char>>, n: nat) -> Map<
    u32,
    Seq<char>,
>
    decreases n,
{
    if n == 0 {
        cache
    } else {
        let r = raw[n - 1];
        cache_after(cache_at(raw, cache, (n - 1) as nat), slot_number(r.slot@), r.owner)
    }
}

/// The lease of member `i`.
pub open spec fn lease_at(raw: Seq<RawLease>, cache: Map<u32, Seq<char>>, i: int) -> LeaseView {
    let slot = slot_number(raw[i].slot@);
    LeaseView {
        slot,
        owner: owner_after(cache_at(raw, cache, i as nat), slot, raw[i].owner),
        expires_ms: raw[i].expires_ms,
    }
}

/// The leases in the order of the set.
pub open spec fn leases_read(raw: Seq<RawLease>, cache: Map<u32, Seq<char>>) -> Seq<LeaseView> {
    Seq::new(raw.len(), |i: int| lease_at(raw, cache, i))
}

/// The slots of a list of leases, as sort keys.
pub open spec fn slot_keys(list: Seq<LeaseView>) -> Seq<u64> {
    Seq::new(list.len(), |i: int| list[i].slot as u64)
}

/// Whether `out` is `list` sorted by slot, leases of one slot in their order.
pub open spec fn sorted_by_slot(list: Seq<LeaseView>, out: Seq<LeaseView>) -> bool {
    exists|p: Seq<usize>|
        #[trigger] order::is_stable_order(slot_keys(list), p) && out == order::permuted(list, p)
}

/// Moves `list[p[0]]`, `list[p[1]]`, … into a new list.
fn pick(list: &Vec<SlotLease>, p: &Vec<usize>) -> (out: Vec<SlotLease>)
    requires
        forall|i: int| 0 <= i < p@.len() ==> (#[trigger] p@[i]) < list@.len(),
    ensures
        snapshot::lease_views(out@) == order::permuted(snapshot::lease_views(list@), p@),
{
    let mut out: Vec<SlotLease> = Vec::new();
    let mut i: usize = 0;
    while i < p.len()
        invariant
            i <= p@.len(),
            forall|k: int| 0 <= k < p@.len() ==> (#[trigger] p@[k]) < list@.len(),
            out@.len() == i,
            forall|k: int| 0 <= k < i ==> (#[trigger] out@[k])@ == list@[p@[k] as int]@,
        decreases p@.len() - i,
    {
        out.push(list[p[i]].clone());
        i = i + 1;
    }
    assert(snapshot::lease_views(out@) =~= order::permuted(snapshot::lease_views(list@), p@));
    out
}

/// All leases, sorted by slot.
///
/// `cache` carries the last owner that was read of each slot from cycle to
/// cycle. Leases that have run out are in the list.
pub fn read_all(raw: Vec<RawLease>, cache: &mut HashMap<u32, String>) -> (leases: Vec<SlotLease>)
    ensures
        sorted_by_slot(
            leases_read(raw@, cache_view(old(cache)@)),
            snapshot::lease_views(leases@),
        ),
        cache_view(final(cache)@) == cache_at(raw@, cache_view(old(cache)@), raw@.len()),
{
    let ghost all = raw@;
    let ghost first = cache_view(cache@);
    let mut found: Vec<SlotLease> = Vec::new();
    let mut keys: Vec<u64> = Vec::new();
    for r in it: raw
        invariant
            it.seq() == all,
            first == cache_view(old(cache)@),
            cache_view(cache@) == cache_at(all, first, it.index() as nat),
            found@.len() == it.index(),
            keys@.len() == it.index(),
            forall|k: int|
                0 <= k < it.index() ==> (#[trigger] found@[k])@ == lease_at(all, first, k),
            forall|k: int| 0 <= k < it.index() ==> #[trigger] keys@[k] == found@[k].slot,
    {
        let slot: u32 = slot_of(r.slot.as_str());
        let owner = resolve_owner(cache, slot, r.owner);
        found.push(SlotLease { slot, owner_instance_id: owner, expires_ms: r.expires_ms });
        keys.push(slot as u64);
    }
    let p = order::stable_order(&keys);
    let leases = pick(&found, &p);
    proof {
        let list = snapshot::lease_views(found@);
        assert(list =~= leases_read(all, first));
        assert(keys@ =~= slot_keys(list));
    }
    leases
}

/// The lease of every member: its slot is the number that the member writes, its
/// expiry is its score, and its owner is the text that was read where there is one,
/// and no text of an earlier cycle where the key is absent.
pub proof fn law_lease_of_a_member(raw: Seq<RawLease>, cache: Map<u32, Seq<char>>, i: int)
    requires
        0 <= i < raw.len(),
    ensures
        ({
            let l = leases_read(raw, cache)[i];
            &&& leases_read(raw, cache).len() == raw.len()
            &&& l.expires_ms == raw[i].expires_ms
            &&& text::parse_max(raw[i].slot@, u32::MAX as nat) matches Some(n) ==> l.slot == n
            &&& text::parse_max(raw[i].slot@, u32::MAX as nat) is None ==> l.slot == 0
            &&& raw[i].owner matches OwnerReply::Found(id) ==> l.owner == id@
            &&& raw[i].owner is Missing ==> l.owner == OWNER_MISSING@
        }),
{
}

/// The owner of a slot that could not be read: the last one that was read of that
/// slot, in this cycle or an earlier one, unless its key was absent since.
pub proof fn law_unread_owner(raw: Seq<RawLease>, cache: Map<u32, Seq<char>>, k: int, i: int)
    requires
        0 <= k < i < raw.len(),
        raw[i].owner is Failed,
        slot_number(raw[k].slot@) == slot_number(raw[i].slot@),
        !(raw[k].owner is Failed),
        forall|j: int|
            k < j < i ==> (#[trigger] raw[j]).owner is Failed || slot_number(raw[j].slot@)
                != slot_number(raw[i].slot@),
    ensures
        raw[k].owner matches OwnerReply::Found(id) ==> leases_read(raw, cache)[i].owner == id@,
        raw[k].owner is Missing ==> leases_read(raw, cache)[i].owner == OWNER_UNKNOWN@,
{
    lemma_cache_keeps(raw, cache, slot_number(raw[i].slot@), k + 1, i);
}

/// An owner that could not be read and was not asked for before in the cycle is
/// the one that was known before the cycle, if there is one.
pub proof fn law_owner_of_earlier_cycle(raw: Seq<RawLease>, cache: Map<u32, Seq<char>>, i: int)
    requires
        0 <= i < raw.len(),
        raw[i].owner is Failed,
        forall|j: int|
            0 <= j < i ==> (#[trigger] raw[j]).owner is Failed || slot_number(raw[j].slot@)
                != slot_number(raw[i].slot@),
    ensures
        ({
            let slot = slot_number(raw[i].slot@);
            &&& cache.contains_key(slot) ==> leases_read(raw, cache)[i].owner == cache[slot]
            &&& !cache.contains_key(slot) ==> leases_read(raw, cache)[i].owner == OWNER_UNKNOWN@
        }),
{
    lemma_cache_keeps(raw, cache, slot_number(raw[i].slot@), 0, i);
}

proof fn lemma_cache_keeps(
    raw: Seq<RawLease>,
    cache: Map<u32, Seq<char>>,
    slot: u32,
    from: int,
    to: int,
)
    requires
        0 <= from <= to <= raw.len(),
        forall|j: int|
            from <= j < to ==> (#[trigger] raw[j]).owner is Failed || slot_number(raw[j].slot@)
                != slot,
    ensures
        cache_at(raw, cache, to as nat).contains_key(slot) == cache_at(
            raw,
            cache,
            from as nat,
        ).contains_key(slot),
        cache_at(raw, cache, from as nat).contains_key(slot) ==> cache_at(
            raw,
            cache,
            to as nat,
        )[slot] == cache_at(raw, cache, from as nat)[slot],
    decreases to - from,
{
    if from < to {
        lemma_cache_keeps(raw, cache, slot, from, to - 1);
        assert(raw[to - 1].owner is Failed || slot_number(raw[to - 1].slot@) != slot);
    }
}

/// A sorted list has all leases, and no slot stands before a smaller one.
pub proof fn law_leases_are_sorted(list: Seq<LeaseView>, out: Seq<LeaseView>)
    requires
        sorted_by_slot(list, out),
    ensures
        out.len() == list.len(),
        forall|k: int| 0 <= k < list.len() ==> out.contains(#[trigger] list[k]),
        forall|i: int, j: int|
            0 <= i < j < out.len() ==> (#[trigger] out[i]).slot <= (#[trigger] out[j]).slot,
{
    let p = choose|p: Seq<usize>|
        #[trigger] order::is_stable_order(slot_keys(list), p) && out == order::permuted(list, p);
    order::law_stable_order_sorts(list, slot_keys(list), p);
    assert forall|i: int, j: int| 0 <= i < j < out.len() implies (#[trigger] out[i]).slot <= (
    #[trigger] out[j]).slot by {
        assert(p[i] < list.len() && p[j] < list.len());
        assert(slot_keys(list)[p[i] as int] <= slot_keys(list)[p[j] as int]);
    }
}

} // verus!
