//! The Redis slot pool: its key names, its clock and the URL it is reached by.

use std::time::{SystemTime, UNIX_EPOCH};

use vstd::prelude::*;

use crate::text;

verus! {

/// Sorted set of the slots that nobody holds.
pub const KEY_AVAILABLE: &'static str = "slots:available";

/// Sorted set of the leased slots, scored by expiry in milliseconds.
pub const KEY_LEASES: &'static str = "slots:leases";

/// Prefix of the key that holds a backend's weight; the address follows.
pub const KEY_BACKEND_WEIGHT_PREFIX: &'static str = "backend:weight:";

/// Time of the last pass that stored the weights, in Unix milliseconds.
pub const KEY_BACKEND_WEIGHTS_TS: &'static str = "backend:weights:ts";

/// The key that holds the owner of a slot.
pub open spec fn owner_key(slot: Seq<char>) -> Seq<char> {
    "slot:owner:"@ + slot
}

/// The key that holds the weight of the backend at an address.
pub open spec fn weight_key(ip: Seq<char>) -> Seq<char> {
    KEY_BACKEND_WEIGHT_PREFIX@ + ip
}

/// The Redis key that stores the owner (instance id) of a slot.
pub fn key_owner(slot: &str) -> (key: String)
    ensures
        key@ == owner_key(slot@),
{
    let mut key = text::copy_str("slot:owner:");
    key.push_str(slot);
    key
}

/// The Redis key that stores the weight of the backend at `ip`.
pub fn key_weight(ip: &str) -> (key: String)
    ensures
        key@ == weight_key(ip@),
{
    let mut key = text::copy_str(KEY_BACKEND_WEIGHT_PREFIX);
    key.push_str(ip);
    key
}

/// Current time as Unix milliseconds, from `std::time::SystemTime::now`.
///
/// Nothing is promised of the value: it is whatever the system clock says. A
/// clock set before 1970 reads as 0.
#[verifier::external_body]
pub fn now_ms() -> u64 {
    SystemTime::now().duration_since(UNIX_EPOCH).map_or(0, |d| d.as_millis() as u64)
}

/// Whether the connection is encrypted.
pub open spec fn wants_tls(url: Seq<char>, tls: bool, tls_insecure: bool, has_ca: bool) -> bool {
    tls || tls_insecure || has_ca || text::starts_with(url, "rediss://"@)
}

/// `url` with the scheme that asks for an encrypted connection.
pub open spec fn secure_scheme(url: Seq<char>) -> Seq<char> {
    if text::starts_with(url, "redis://"@) {
        "rediss://"@ + url.skip("redis://"@.len() as int)
    } else {
        url
    }
}

/// The URL that the client is opened with.
pub open spec fn client_url(
    url: Seq<char>,
    tls: bool,
    tls_insecure: bool,
    has_ca: bool,
) -> Seq<char> {
    if !wants_tls(url, tls, tls_insecure, has_ca) {
        url
    } else if tls_insecure && !text::contains(secure_scheme(url), "#insecure"@) {
        secure_scheme(url) + "#insecure"@
    } else {
        secure_scheme(url)
    }
}

/// How a Redis client is opened.
pub struct RedisTarget {
    pub url: String,
    pub use_tls: bool,
}

/// The URL and the encryption that a Redis client is opened with.
///
/// Encryption is on when a flag asks for it, when a certificate authority is
/// given, or when the URL already has the `rediss://` scheme. The `#insecure`
/// fragment switches certificate verification off and is added once.
pub fn redis_target(redis_url: &str, tls: bool, tls_insecure: bool, has_ca: bool) -> (t:
    RedisTarget)
    ensures
        t.use_tls == wants_tls(redis_url@, tls, tls_insecure, has_ca),
        t.url@ == client_url(redis_url@, tls, tls_insecure, has_ca),
{
    let use_tls: bool = tls || tls_insecure || has_ca || text::begins(redis_url, "rediss://");
    if !use_tls {
        return RedisTarget { url: text::copy_str(redis_url), use_tls };
    }
    let mut url: String = match text::after_prefix(redis_url, "redis://") {
        Some(rest) => {
            let mut u = text::copy_str("rediss://");
            u.push_str(rest.as_str());
            u
        },
        None => text::copy_str(redis_url),
    };
    if tls_insecure && !text::has(url.as_str(), "#insecure") {
        url.push_str("#insecure");
    }
    RedisTarget { url, use_tls }
}

/// Without any wish for encryption the URL is used as it is.
pub proof fn law_plain_url_unchanged(url: Seq<char>)
    requires
        !text::starts_with(url, "rediss://"@),
    ensures
        client_url(url, false, false, false) == url,
{
}

/// An encrypted connection is asked for by a flag, a certificate authority or the
/// URL, and only by those. It has the scheme for it and the rest of the URL as it
/// was; the fragment that switches verification off is added only where that is
/// asked for and it is not there yet.
pub proof fn law_encrypted_url(rest: Seq<char>, tls: bool, insecure: bool, has_ca: bool)
    ensures
        ({
            let plain = "redis://"@ + rest;
            let secure = "rediss://"@ + rest;
            let on = tls || insecure || has_ca;
            let mark = insecure && !text::contains(secure, "#insecure"@);
            &&& wants_tls(plain, tls, insecure, has_ca) == on
            &&& wants_tls(secure, tls, insecure, has_ca)
            &&& !on ==> client_url(plain, tls, insecure, has_ca) == plain
            &&& on && !mark ==> client_url(plain, tls, insecure, has_ca) == secure
            &&& !mark ==> client_url(secure, tls, insecure, has_ca) == secure
            &&& mark ==> client_url(plain, tls, insecure, has_ca) == secure + "#insecure"@
            &&& mark ==> client_url(secure, tls, insecure, has_ca) == secure + "#insecure"@
        }),
{
    reveal_strlit("redis://");
    reveal_strlit("rediss://");
    let plain = "redis://"@ + rest;
    let secure = "rediss://"@ + rest;
    assert(plain[5] == ':' && secure[5] == 's');
    assert(plain.take(8) =~= "redis://"@);
    assert(plain.skip(8) =~= rest);
    assert(secure.take(9) =~= "rediss://"@);
    assert(!text::starts_with(plain, "rediss://"@)) by {
        if plain.len() >= 9 {
            assert(plain.take(9)[5] == ':');
        }
    }
    assert(!text::starts_with(secure, "redis://"@)) by {
        assert(secure.take(8)[5] == 's');
    }
}

} // verus!
