//! The rate of a transfer, as chunks of a size at an interval.

use vstd::prelude::*;

verus! {

/// Parameters of the rate limiter of one transfer.
#[derive(Debug, Clone, Copy, PartialEq, Eq, Structural)]
pub struct RateLimiterConfig {
    /// Bytes that are sent per interval.
    pub chunk_bytes: u32,
    /// Interval in milliseconds.
    pub interval_ms: u64,
    /// Largest TCP segment; 0 leaves it to the system.
    pub mss: u32,
}

/// The interval that is used where the rate allows it, in milliseconds.
pub const TICK_MS: u64 = 50;

/// The smallest chunk in bytes.
pub const MIN_CHUNK: u64 = 512;

/// The largest chunk in bytes.
pub const MAX_CHUNK: u64 = 4_194_304;

/// The bytes that a rate sends in one tick. The product is capped at the
/// largest number of its type.
pub open spec fn ideal_chunk(bps: nat) -> nat {
    (if bps * TICK_MS <= u64::MAX {
        bps * TICK_MS as nat
    } else {
        u64::MAX as nat
    }) / 1000
}

/// The parameters for a rate of at least 1 byte per second.
pub open spec fn config_for(bps: nat) -> RateLimiterConfig {
    if ideal_chunk(bps) >= MIN_CHUNK {
        RateLimiterConfig {
            chunk_bytes: (if ideal_chunk(bps) <= MAX_CHUNK {
                ideal_chunk(bps)
            } else {
                MAX_CHUNK as nat
            }) as u32,
            interval_ms: TICK_MS,
            mss: 0,
        }
    } else {
        RateLimiterConfig {
            chunk_bytes: MIN_CHUNK as u32,
            interval_ms: (MIN_CHUNK as nat * 1000 / bps) as u64,
            mss: 0,
        }
    }
}

/// The bytes per second that a chunk size and an interval amount to.
pub open spec fn rate_of(c: RateLimiterConfig) -> nat {
    if c.interval_ms == 0 {
        u64::MAX as nat
    } else {
        c.chunk_bytes as nat * 1000 / c.interval_ms as nat
    }
}

impl RateLimiterConfig {
    /// The parameters for a rate in bytes per second; `None` for 0, which means
    /// no limit.
    ///
    /// Chunks scale with the rate at a fixed interval of [`TICK_MS`], so that a
    /// small file is sent in many chunks too. Where a chunk would fall below
    /// [`MIN_CHUNK`] the interval gets longer instead.
    pub fn from_bps(bps: u64) -> (r: Option<RateLimiterConfig>)
        ensures
            r == (if bps == 0 {
                None
            } else {
                Some(config_for(bps as nat))
            }),
    {
        if bps == 0 {
            return None;
        }
        let product: u64 = if bps <= u64::MAX / TICK_MS {
            bps * TICK_MS
        } else {
            u64::MAX
        };
        let ideal: u64 = product / 1000;
        if ideal >= MIN_CHUNK {
            let chunk: u64 = if ideal <= MAX_CHUNK {
                ideal
            } else {
                MAX_CHUNK
            };
            Some(RateLimiterConfig { chunk_bytes: chunk as u32, interval_ms: TICK_MS, mss: 0 })
        } else {
            let interval: u64 = 512_000u64 / bps;
            Some(
                RateLimiterConfig { chunk_bytes: MIN_CHUNK as u32, interval_ms: interval, mss: 0 },
            )
        }
    }

    /// The rate in bytes per second that the parameters amount to.
    pub fn approx_bps(&self) -> (bps: u64)
        ensures
            bps == rate_of(*self),
    {
        if self.interval_ms == 0 {
            return u64::MAX;
        }
        (self.chunk_bytes as u64 * 1000) / self.interval_ms
    }
}

/// The interval is never 0, and the chunk is between the smallest and the
/// largest.
pub proof fn law_limits_hold(bps: nat)
    requires
        0 < bps <= u64::MAX,
    ensures
        config_for(bps).interval_ms >= TICK_MS,
        MIN_CHUNK <= config_for(bps).chunk_bytes <= MAX_CHUNK,
{
    if ideal_chunk(bps) < MIN_CHUNK {
        assert(512_000int / bps as int >= 50) by (nonlinear_arith)
            requires
                0 < bps <= 10_240,
        ;
    }
}

/// For every rate up to what the largest chunk gives, the parameters amount to
/// that rate within 2 %.
pub proof fn law_rate_within_two_percent(bps: nat)
    requires
        0 < bps <= 20 * MAX_CHUNK,
    ensures
        98 * bps <= 100 * rate_of(config_for(bps)) <= 102 * bps,
{
    if ideal_chunk(bps) < MIN_CHUNK {
        let n = 512_000int / bps as int;
        law_limits_hold(bps);
        assert(n * bps <= 512_000 < (n + 1) * bps) by (nonlinear_arith)
            requires
                n == 512_000int / bps as int,
                bps > 0,
        ;
        let a = 512_000int / n;
        assert(n * a <= 512_000) by (nonlinear_arith)
            requires
                a == 512_000int / n,
                n > 0,
        ;
        assert(a >= bps) by (nonlinear_arith)
            requires
                a == 512_000int / n,
                n > 0,
                n * bps <= 512_000,
        ;
        assert(50 * (a - bps) <= n * (a - bps)) by (nonlinear_arith)
            requires
                n >= 50,
                a >= bps,
        ;
        assert(n * (a - bps) < bps) by (nonlinear_arith)
            requires
                n * a <= 512_000,
                512_000 < (n + 1) * bps,
        ;
    }
}

/// For every rate the parameters amount to no more than 2 % above it.
pub proof fn law_rate_not_exceeded(bps: nat)
    requires
        0 < bps <= u64::MAX,
    ensures
        100 * rate_of(config_for(bps)) <= 102 * bps,
{
    if bps <= 20 * MAX_CHUNK {
        law_rate_within_two_percent(bps);
    } else {
        let c = config_for(bps);
        law_limits_hold(bps);
        assert(c.interval_ms == TICK_MS);
        assert(rate_of(c) == c.chunk_bytes as nat * 1000 / 50);
    }
}

/// A rate beyond what the largest chunk gives is limited to that.
pub proof fn law_fast_rates_use_the_largest_chunk(bps: nat)
    requires
        20 * MAX_CHUNK <= bps <= u64::MAX,
    ensures
        config_for(bps).chunk_bytes == MAX_CHUNK,
        config_for(bps).interval_ms == TICK_MS,
        rate_of(config_for(bps)) == 20 * MAX_CHUNK,
{
}

} // verus!
