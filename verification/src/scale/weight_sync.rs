//! Weight files on disk and their copies in Redis.
//!
//! At start every weight file is set once: from Redis where the copies are
//! recent, otherwise from the leases. The active load balancer stores the
//! weights after every pass and the standby follows them.

use vstd::prelude::*;

use crate::infra::ipv4;
use crate::infra::ipv4::Ipv4;
use crate::infra::redis_pool;
use crate::infra::slot_network::SlotNetwork;
use crate::scale::cleanup;
use crate::scale::cleanup::{WEIGHT_ACTIVE, WEIGHT_DISABLED};
use crate::scale::snapshot;
use crate::scale::snapshot::{LeaseView, SlotLease};
use crate::text;

verus! {

/// The address in the name of a weight file, such as
/// `backend-172.16.32.20.weight`.
pub open spec fn file_address(name: Seq<char>) -> Option<Seq<char>> {
    match text::strip_prefix(name, "backend-"@) {
        Some(rest) => text::strip_suffix(rest, ".weight"@),
        None => None,
    }
}

/// The address in the name of a weight file; `None` for other files.
pub fn address_of_file(name: &str) -> (ip: Option<String>)
    ensures
        text::opt_text(ip) == file_address(name@),
{
    match text::after_prefix(name, "backend-") {
        Some(rest) => text::before_suffix(rest.as_str(), ".weight"),
        None => None,
    }
}

/// Whether the copies in Redis, stored at the time `stamp`, are young enough.
pub open spec fn fresh(stamp: Option<Seq<char>>, now: u64, ttl_secs: u64) -> bool {
    match stamp {
        Some(s) => match text::parse_max(s, u64::MAX as nat) {
            Some(stored) => (if now >= stored {
                now - stored
            } else {
                0
            }) / 1000 < ttl_secs,
            None => false,
        },
        None => false,
    }
}

/// Whether the weights are restored from Redis: there is a time stamp, it is a
/// number and it is less than `ttl_secs` old. Otherwise the weights are
/// computed from the leases.
pub fn init(stamp: &Option<String>, now: u64, ttl_secs: u64) -> (use_redis: bool)
    ensures
        use_redis == fresh(text::opt_text(*stamp), now, ttl_secs),
{
    match stamp {
        Some(s) => match text::parse_up_to(s.as_str(), u64::MAX) {
            Some(stored) => {
                let age: u64 = if now >= stored {
                    now - stored
                } else {
                    0
                };
                age / 1000 < ttl_secs
            },
            None => false,
        },
        None => false,
    }
}

/// The key and value under which a weight file is stored; `None` for other
/// files.
pub fn persist(name: &str, content: &str) -> (r: Option<(String, String)>)
    ensures
        match r {
            Some(p) => file_address(name@) is Some && p.0@ == redis_pool::weight_key(
                file_address(name@)->0,
            ) && p.1@ == text::trim(content@),
            None => file_address(name@) is None,
        },
{
    match address_of_file(name) {
        Some(ip) => Some((redis_pool::key_weight(ip.as_str()), text::trimmed(content))),
        None => None,
    }
}

/// What the standby writes to a weight file.
pub open spec fn sync_value(disk: Seq<char>, stored: Seq<char>) -> Option<Seq<char>> {
    if text::trim(disk) != text::trim(stored) {
        Some(text::trim(stored))
    } else {
        None
    }
}

/// What the standby writes to a weight file: the value from Redis, where it
/// differs from the one on disk.
pub fn sync_from_redis(disk: &str, stored: &str) -> (write: Option<String>)
    ensures
        text::opt_text(write) == sync_value(disk@, stored@),
{
    let d = text::trimmed(disk);
    let s = text::trimmed(stored);
    if text::str_eq(d.as_str(), s.as_str()) {
        None
    } else {
        Some(s)
    }
}

/// What is written to a weight file at start: the value from Redis; a file
/// without one is left as it is.
pub fn restore_from_redis(stored: &Option<String>) -> (write: Option<String>)
    ensures
        text::opt_text(write) == (match *stored {
            Some(s) => Some(text::trim(s@)),
            None => None,
        }),
{
    match stored {
        Some(s) => Some(text::trimmed(s.as_str())),
        None => None,
    }
}

/// Whether a lease that has not run out at `now` belongs to an address.
pub open spec fn has_live_lease(
    leases: Seq<LeaseView>,
    net: SlotNetwork,
    ip: Ipv4,
    now: u64,
) -> bool {
    exists|i: int|
        0 <= i < leases.len() && (#[trigger] leases[i]).expires_ms > now && net.ip_slot(ip) == Some(
            leases[i].slot,
        )
}

/// The weight that a file gets from the leases.
pub open spec fn lease_weight(
    name: Seq<char>,
    leases: Seq<LeaseView>,
    net: SlotNetwork,
    now: u64,
) -> Option<Seq<char>> {
    match file_address(name) {
        Some(s) => match ipv4::parse_dotted(s) {
            Some(ip) => Some(
                if has_live_lease(leases, net, ip, now) {
                    WEIGHT_ACTIVE@
                } else {
                    WEIGHT_DISABLED@
                },
            ),
            None => None,
        },
        None => None,
    }
}

/// What is written to a weight file at start without copies in Redis: active
/// where a live lease has the address of the file, else disabled. Files that
/// name no address are left alone.
pub fn compute_from_leases(
    name: &str,
    leases: &Vec<SlotLease>,
    net: &SlotNetwork,
    now: u64,
) -> (write: Option<&'static str>)
    requires
        net.valid(),
    ensures
        match write {
            Some(w) => lease_weight(name@, snapshot::lease_views(leases@), *net, now) == Some(w@),
            None => lease_weight(name@, snapshot::lease_views(leases@), *net, now) is None,
        },
{
    let ghost all = snapshot::lease_views(leases@);
    let addr = match address_of_file(name) {
        Some(s) => s,
        None => return None,
    };
    let ip = match Ipv4::parse(addr.as_str()) {
        Some(ip) => ip,
        None => return None,
    };
    let slot: Option<u32> = net.slot_for_ip(ip);
    let mut i: usize = 0;
    while i < leases.len()
        invariant
            i <= leases@.len(),
            all == snapshot::lease_views(leases@),
            slot == net.ip_slot(ip),
            file_address(name@) == Some(addr@),
            ipv4::parse_dotted(addr@) == Some(ip),
            forall|k: int|
                0 <= k < i ==> !((#[trigger] all[k]).expires_ms > now && slot == Some(all[k].slot)),
        decreases leases@.len() - i,
    {
        assert(all[i as int] == leases@[i as int]@);
        let mine: bool = match slot {
            Some(n) => n == leases[i].slot,
            None => false,
        };
        if mine && !leases[i].is_expired_at(now) {
            return Some(WEIGHT_ACTIVE);
        }
        i = i + 1;
    }
    Some(WEIGHT_DISABLED)
}

/// The weight file that is written for a backend is read back as the file of
/// that backend.
pub proof fn law_weight_file_names_its_backend(dir: Seq<char>, ip: Ipv4)
    ensures
        cleanup::weight_file(dir, ip).skip(dir.len() as int + 1) == "backend-"@ + ipv4::dotted(ip)
            + ".weight"@,
        file_address("backend-"@ + ipv4::dotted(ip) + ".weight"@) == Some(ipv4::dotted(ip)),
        ipv4::parse_dotted(ipv4::dotted(ip)) == Some(ip),
{
    reveal_strlit("/backend-");
    reveal_strlit("backend-");
    let address = ipv4::dotted(ip);
    let name = "backend-"@ + address + ".weight"@;
    let rest = address + ".weight"@;
    assert("/backend-"@ =~= seq!['/'] + "backend-"@);
    assert(cleanup::weight_file(dir, ip).skip(dir.len() as int + 1) =~= name);
    assert(name.take("backend-"@.len() as int) =~= "backend-"@);
    assert(name.skip("backend-"@.len() as int) =~= rest);
    assert(rest.skip(rest.len() - ".weight"@.len()) =~= ".weight"@);
    assert(rest.take(rest.len() - ".weight"@.len()) =~= address);
    ipv4::law_dotted_round_trip(ip);
}

/// Weights of different backends are stored under different keys.
pub proof fn law_weight_keys_distinct(a: Seq<char>, b: Seq<char>)
    requires
        a != b,
    ensures
        redis_pool::weight_key(a) != redis_pool::weight_key(b),
{
    let n = redis_pool::KEY_BACKEND_WEIGHT_PREFIX@.len() as int;
    assert(redis_pool::weight_key(a).skip(n) =~= a);
    assert(redis_pool::weight_key(b).skip(n) =~= b);
}

/// What a weight file holds after the standby has followed the stored value.
pub open spec fn after_sync(disk: Seq<char>, stored: Seq<char>) -> Seq<char> {
    match sync_value(disk, stored) {
        Some(value) => value,
        None => disk,
    }
}

/// A weight that the active load balancer has stored is the weight of the
/// standby after it followed, whatever its file held before.
pub proof fn law_standby_follows_master(content: Seq<char>, disk: Seq<char>)
    ensures
        text::trim(after_sync(disk, text::trim(content))) == text::trim(content),
{
    text::lemma_trim_idempotent(content);
}

/// After the standby wrote a value there is nothing left to write.
pub proof fn law_sync_is_idempotent(disk: Seq<char>, stored: Seq<char>)
    ensures
        sync_value(disk, stored) matches Some(w) ==> sync_value(w, stored) is None,
{
    text::lemma_trim_idempotent(stored);
}

/// The address of a weight file is what stands between its prefix and its suffix,
/// and other files have none.
pub proof fn law_name_of_weight_file(name: Seq<char>, a: Seq<char>)
    ensures
        file_address(name) == Some(a) <==> name == "backend-"@ + (a + ".weight"@),
{
    let rest = a + ".weight"@;
    text::law_stripping_undoes_joining(name, "backend-"@, rest);
    text::law_stripping_undoes_joining(rest, ".weight"@, a);
    match text::strip_prefix(name, "backend-"@) {
        Some(r) => {
            text::law_stripping_undoes_joining(name, "backend-"@, r);
            text::law_stripping_undoes_joining(r, ".weight"@, a);
        },
        None => {},
    }
}

/// A backend is enabled exactly where a lease that has not run out is for the slot
/// at its address, and disabled otherwise.
pub proof fn law_weight_follows_leases(
    name: Seq<char>,
    leases: Seq<LeaseView>,
    net: SlotNetwork,
    now: u64,
    ip: Ipv4,
)
    requires
        name == "backend-"@ + (ipv4::dotted(ip) + ".weight"@),
    ensures
        ({
            let live = exists|i: int|
                0 <= i < leases.len() && (#[trigger] leases[i]).expires_ms > now && net.fits(
                    leases[i].slot as int,
                ) && net.base.bits + net.offset + leases[i].slot == ip.bits;
            &&& live ==> lease_weight(name, leases, net, now) == Some(WEIGHT_ACTIVE@)
            &&& !live ==> lease_weight(name, leases, net, now) == Some(WEIGHT_DISABLED@)
        }),
{
    law_name_of_weight_file(name, ipv4::dotted(ip));
    ipv4::law_dotted_round_trip(ip);
    if has_live_lease(leases, net, ip, now) {
        let i = choose|i: int|
            0 <= i < leases.len() && (#[trigger] leases[i]).expires_ms > now && net.ip_slot(ip)
                == Some(leases[i].slot);
        assert(leases[i].expires_ms > now);
    }
}

/// Stored weights are fresh where their time can be read and lies less than the
/// time to live back, or ahead; without a time to live none are.
pub proof fn law_freshness(stored: u64, now: u64, ttl_secs: u64)
    ensures
        now >= stored && now - stored < 1000 * ttl_secs ==> fresh(
            Some(text::decimal(stored as nat)),
            now,
            ttl_secs,
        ),
        now >= stored && now - stored >= 1000 * ttl_secs ==> !fresh(
            Some(text::decimal(stored as nat)),
            now,
            ttl_secs,
        ),
        now < stored && ttl_secs > 0 ==> fresh(Some(text::decimal(stored as nat)), now, ttl_secs),
        !fresh(None, now, ttl_secs),
        !fresh(Some(""@), now, ttl_secs),
{
    text::law_decimal_round_trip(stored as nat);
    reveal_strlit("");
}

} // verus!
